use std::collections::VecDeque;
use vstd::prelude::*;

use crate::alert::AlertStatus;

verus! {

/// How many stats snapshots the history keeps (five minutes at one per second).
pub const MAX_HISTORY_POINTS: usize = 300;

/// Minutes of history returned when a query names none.
pub const DEFAULT_HISTORY_MINUTES: u64 = 5;

/// Top talkers returned when a query names no limit.
pub const DEFAULT_TOP_TALKERS: usize = 10;

/// The service health report.
#[derive(Debug, Clone, Copy)]
pub struct HealthResponse {
    pub status: &'static str,
    pub uptime_seconds: u64,
    pub version: &'static str,
    pub dpdk_mode: &'static str,
}

impl HealthResponse {
    /// A report of a healthy service.
    pub fn healthy(uptime_seconds: u64, version: &'static str, dpdk_mode: &'static str) -> (h: HealthResponse)
        ensures
            h.status@ == "healthy"@,
            h.uptime_seconds == uptime_seconds,
            h.version@ == version@,
            h.dpdk_mode@ == dpdk_mode@,
    {
        HealthResponse { status: "healthy", uptime_seconds, version, dpdk_mode }
    }
}

/// Query of the stats history endpoint.
#[derive(Debug, Clone, Copy)]
pub struct HistoryQuery {
    pub minutes: Option<u64>,
}

/// Query of the alerts endpoint.
#[derive(Debug, Clone)]
pub struct AlertsQuery {
    pub status: Option<String>,
}

/// Query of the top-talkers endpoint.
#[derive(Debug, Clone, Copy)]
pub struct TopTalkersQuery {
    pub limit: Option<usize>,
}

/// Request body of the packet ingest endpoint: raw Ethernet frames, each
/// base64-encoded.
#[derive(Debug, Clone)]
pub struct IngestRequest {
    pub packets: Vec<String>,
}

/// The status filter an alerts query asks for: `active`, `resolved`, or
/// none (every alert) for anything else.
pub open spec fn status_filter_of(status: Option<Seq<char>>) -> Option<AlertStatus> {
    match status {
        Some(s) => if s == "active"@ {
            Some(AlertStatus::Active)
        } else if s == "resolved"@ {
            Some(AlertStatus::Resolved)
        } else {
            None
        },
        None => None,
    }
}

/// The status filter an alerts query asks for.
pub fn status_filter(status: &Option<String>) -> (f: Option<AlertStatus>)
    ensures
        f == status_filter_of(
            match status {
                Some(s) => Some(s@),
                None => None,
            },
        ),
{
    match status {
        Some(s) => {
            let active = String::from_str("active");
            let resolved = String::from_str("resolved");
            if *s == active {
                Some(AlertStatus::Active)
            } else if *s == resolved {
                Some(AlertStatus::Resolved)
            } else {
                None
            }
        },
        None => None,
    }
}

/// The number of history points a query asks for: one per second of the
/// requested minutes (five by default).
pub open spec fn history_points(minutes: Option<u64>) -> int {
    match minutes {
        Some(m) => m * 60,
        None => DEFAULT_HISTORY_MINUTES * 60,
    }
}

/// A history query without minutes asks for five minutes, 300 points; one
/// with `m` minutes for `60 * m` points; the history holds at most 300.
pub proof fn lemma_history_points(minutes: Option<u64>)
    ensures
        minutes is None ==> history_points(minutes) == 300,
        minutes matches Some(m) ==> history_points(minutes) == 60 * m,
        MAX_HISTORY_POINTS == 300,
{
}

/// Where the requested points start in a history of `len` points.
pub open spec fn history_start(len: usize, minutes: Option<u64>) -> int {
    if len as int > (history_points(minutes) as usize) as int {
        len - (history_points(minutes) as usize)
    } else {
        0
    }
}

/// Where the requested history starts in a history of `len` points: the
/// last `minutes * 60` points (five minutes by default) are returned.
pub fn history_window(len: usize, minutes: Option<u64>) -> (start: usize)
    requires
        history_points(minutes) <= u64::MAX,
    ensures
        start == history_start(len, minutes),
{
    let m = match minutes {
        Some(m) => m,
        None => DEFAULT_HISTORY_MINUTES,
    };
    let max_points = (m * 60) as usize;
    if len > max_points {
        len - max_points
    } else {
        0
    }
}

/// The reply of the stats history endpoint: points one second apart,
/// oldest first.
#[derive(Debug, Clone)]
pub struct HistoryResponse<T> {
    pub interval_seconds: u64,
    pub data_points: Vec<T>,
}

/// The reply to a history query: the latest points of `history` that the
/// query asks for (five minutes' worth by default), oldest first.
pub fn history_response<T: Copy>(history: &VecDeque<T>, query: &HistoryQuery) -> (r: HistoryResponse<T>)
    requires
        history_points(query.minutes) <= u64::MAX,
    ensures
        r.interval_seconds == 1,
        r.data_points@ == history@.subrange(history_start(history@.len() as usize, query.minutes), history@.len() as int),
{
    let len = history.len();
    let start = history_window(len, query.minutes);
    let mut data_points: Vec<T> = Vec::new();
    let mut i: usize = start;
    while i < len
        invariant
            start <= i <= len,
            len == history@.len(),
            data_points@ == history@.subrange(start as int, i as int),
        decreases len - i,
    {
        data_points.push(history[i]);
        assert(data_points@ =~= history@.subrange(start as int, i + 1));
        i = i + 1;
    }
    HistoryResponse { interval_seconds: 1, data_points }
}

/// `history` with `snapshot` appended, its oldest point dropped first when
/// it already holds `cap` points or more.
pub open spec fn pushed_history<T>(history: Seq<T>, snapshot: T, cap: usize) -> Seq<T> {
    (if history.len() >= cap && history.len() > 0 {
        history.drop_first()
    } else {
        history
    }).push(snapshot)
}

/// A history of at most `cap` points (`cap` positive) stays within `cap`
/// points when a snapshot is pushed, ends with that snapshot, and keeps
/// the points before it in order.
pub proof fn lemma_history_stays_bounded<T>(history: Seq<T>, snapshot: T, cap: usize)
    requires
        history.len() <= cap,
        cap > 0,
    ensures
        pushed_history(history, snapshot, cap).len() <= cap,
        pushed_history(history, snapshot, cap).last() == snapshot,
        pushed_history(history, snapshot, cap).drop_last() == if history.len() == cap {
            history.drop_first()
        } else {
            history
        },
{
    let h = pushed_history(history, snapshot, cap);
    if history.len() == cap {
        assert(h.drop_last() =~= history.drop_first());
    } else {
        assert(h.drop_last() =~= history);
    }
}

/// Append a snapshot to a history of at most `cap` points, dropping the
/// oldest point when the history is full.
pub fn push_history<T>(history: &mut VecDeque<T>, snapshot: T, cap: usize)
    ensures
        final(history)@ == pushed_history(old(history)@, snapshot, cap),
{
    if history.len() >= cap {
        let ghost before = history@;
        let _ = history.pop_front();
        proof {
            if before.len() > 0 {
                assert(history@ =~= before.drop_first());
            }
        }
    }
    history.push_back(snapshot);
}

} // verus!
