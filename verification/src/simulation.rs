//! The decisions of a traffic-simulation run.  The caller drives the run:
//! it waits for each 10 ms tick, reads the clock, generates the tick's
//! frames, and either runs them through a [`LocalRun`] or posts them to a
//! server and hands the outcome to a [`RemoteTally`]; a [`SimClock`] says
//! when to stop and when to report.
use base64::Engine;
use vstd::prelude::*;

use crate::alert::{Alert, AlertView, AttackType};
use crate::config::DetectionConfig;
use crate::engine::{alert_views, cooldown_ns, unstale, DetectionEngine};
use crate::mock::frames;
use crate::packet::PacketMetadata;
use crate::parser::{parse_error, parse_packet, parsed_metadata};
use crate::pipeline::{check_room, frame_step, frames_run, lemma_frames_run_push, lemma_step_raises_at_most_one, room_for};
use crate::rate_tracker::NANOS_PER_SEC;
use crate::stats::StatsAccumulator;

verus! {

/// The time from `earlier` to `later` in nanoseconds, zero when `later`
/// is not after `earlier`.
pub open spec fn since(earlier: u64, later: u64) -> int {
    if later >= earlier {
        later - earlier
    } else {
        0
    }
}

/// The stopping and reporting schedule of a run, on a monotonic clock
/// read in nanoseconds.
#[derive(Debug, Clone, Copy, PartialEq, Eq, Structural)]
pub struct SimClock {
    /// When the run started.
    pub start: u64,
    /// How long the run lasts, in seconds; zero runs forever.
    pub duration_secs: u64,
    /// Seconds between two reports.
    pub report_interval_secs: u64,
    /// When the last report was made (the start, before the first).
    pub last_report: u64,
}

impl SimClock {
    /// The schedule of a run that starts at `start`.
    pub fn new(start: u64, duration_secs: u64, report_interval_secs: u64) -> (c: SimClock)
        ensures
            c == (SimClock { start, duration_secs, report_interval_secs, last_report: start }),
    {
        SimClock { start, duration_secs, report_interval_secs, last_report: start }
    }

    /// The run is over at `now`: it has a duration and that much time has
    /// passed since the start.
    pub fn finished(&self, now: u64) -> (done: bool)
        ensures
            done == (self.duration_secs != 0 && since(self.start, now) >= self.duration_secs * NANOS_PER_SEC),
    {
        let elapsed: u64 = if now >= self.start {
            now - self.start
        } else {
            0
        };
        self.duration_secs != 0 && (elapsed as u128) >= (self.duration_secs as u128) * (NANOS_PER_SEC as u128)
    }

    /// A report is due at `now`: a report interval has passed since the
    /// last report, which then counts as made at `now`.
    pub fn report_due(&mut self, now: u64) -> (due: bool)
        ensures
            due == (since(old(self).last_report, now) >= old(self).report_interval_secs * NANOS_PER_SEC),
            *final(self) == (if due {
                SimClock { last_report: now, ..*old(self) }
            } else {
                *old(self)
            }),
    {
        let elapsed: u64 = if now >= self.last_report {
            now - self.last_report
        } else {
            0
        };
        let due = (elapsed as u128) >= (self.report_interval_secs as u128) * (NANOS_PER_SEC as u128);
        if due {
            self.last_report = now;
        }
        due
    }
}

/// `after` is `before` with the alerts that are stale at `now` resolved.
pub open spec fn resolved_at(before: DetectionEngine, now: u64, after: DetectionEngine) -> bool {
    &&& after.config() == before.config()
    &&& after.alerts_raised() == before.alerts_raised()
    &&& forall|a: AttackType| #[trigger] after.tracker(a) == before.tracker(a)
    &&& after.active() == unstale(before.active(), now, cooldown_ns(before.config()))
}

/// A run that detects in-process: a detection engine, traffic counters and
/// the number of alerts raised.
pub struct LocalRun {
    engine: DetectionEngine,
    accumulator: StatsAccumulator,
    total_alerts: u64,
}

impl LocalRun {
    /// The detection engine.
    pub closed spec fn engine(self) -> DetectionEngine {
        self.engine
    }

    /// The traffic counters.
    pub closed spec fn accumulator(self) -> StatsAccumulator {
        self.accumulator
    }

    /// The number of alerts raised so far.
    pub closed spec fn total_alerts(self) -> u64 {
        self.total_alerts
    }

    /// The engine is well formed and every alert it raised is counted.
    pub open spec fn wf(self) -> bool {
        &&& self.engine().wf()
        &&& self.engine().alerts_match_keys()
        &&& self.engine().ids_unique()
        &&& self.total_alerts() == self.engine().alerts_raised()
    }

    /// Room for a tick of `n` frames.
    pub open spec fn has_room_for(self, n: int) -> bool {
        room_for(self.accumulator(), self.engine().alerts_raised(), n)
    }

    /// A run with a fresh engine of `config`, zero counters and no alerts.
    pub fn new(config: DetectionConfig) -> (r: LocalRun)
        ensures
            r.wf(),
            r.engine().config() == config,
            r.engine().alerts_raised() == 0,
            r.engine().active() == Map::<(u32, AttackType), (AlertView, u64)>::empty(),
            r.accumulator().is_zero(),
            r.total_alerts() == 0,
    {
        LocalRun { engine: DetectionEngine::new(config), accumulator: StatsAccumulator::zero(), total_alerts: 0 }
    }

    /// The traffic counters.
    pub fn accumulator_ref(&self) -> (a: &StatsAccumulator)
        ensures
            *a == self.accumulator(),
    {
        &self.accumulator
    }

    /// The number of alerts raised so far.
    pub fn alerts_raised(&self) -> (n: u64)
        ensures
            n == self.total_alerts(),
    {
        self.total_alerts
    }

    /// Whether a tick of `n` frames fits.
    pub fn has_room(&self, n: u64) -> (ok: bool)
        ensures
            ok == self.has_room_for(n as int),
    {
        check_room(&self.accumulator, self.engine.alert_count(), n)
    }

    /// One tick at `now`: parse each frame of `batch` in turn, count the
    /// ones that parse and run them through detection, then resolve the
    /// alerts that are stale.  Returns the alerts raised, in order.
    pub fn tick(&mut self, batch: &Vec<Vec<u8>>, timestamp_ns: u64, now: u64) -> (alerts: Vec<Alert>)
        requires
            old(self).wf(),
            old(self).has_room_for(batch@.len() as int),
        ensures
            final(self).wf(),
            final(self).engine().config() == old(self).engine().config(),
            final(self).total_alerts() == old(self).total_alerts() + alerts@.len(),
            exists|engines: Seq<DetectionEngine>, accs: Seq<StatsAccumulator>, raised: Seq<Seq<AlertView>>|
                #[trigger] frames_run(frames(batch@), timestamp_ns, now, engines, accs, raised) && engines[0]
                    == old(self).engine() && accs[0] == old(self).accumulator() && accs.last()
                    == final(self).accumulator() && alert_views(alerts@) == raised.flatten() && resolved_at(
                    engines.last(),
                    now,
                    final(self).engine(),
                ),
    {
        let n = batch.len();
        let ghost fs = frames(batch@);
        let ghost mut engines: Seq<DetectionEngine> = seq![self.engine];
        let ghost mut accs: Seq<StatsAccumulator> = seq![self.accumulator];
        let ghost mut raised: Seq<Seq<AlertView>> = Seq::empty();
        let ghost start = *self;
        let mut out: Vec<Alert> = Vec::new();
        let mut i: usize = 0;
        while i < n
            invariant
                n == batch@.len(),
                fs == frames(batch@),
                i <= n,
                self.wf(),
                self.has_room_for(n - i),
                self.engine().config() == start.engine().config(),
                frames_run(fs.take(i as int), timestamp_ns, now, engines, accs, raised),
                engines[0] == start.engine(),
                accs[0] == start.accumulator(),
                engines.last() == self.engine(),
                accs.last() == self.accumulator(),
                alert_views(out@) == raised.flatten(),
                self.total_alerts() == start.total_alerts() + out@.len(),
            decreases n - i,
        {
            let ghost e0 = self.engine;
            let ghost a0 = self.accumulator;
            let ghost raw = batch@[i as int]@;
            proof {
                assert(fs[i as int] == raw);
            }
            let mut new_alerts: Vec<Alert> = match parse_packet(batch[i].as_slice(), timestamp_ns) {
                Ok(meta) => {
                    proof {
                        assert(a0.protocol_counts.count_of(meta.protocol) + (n - i) <= u64::MAX);
                        assert(a0.fits(meta.protocol, meta.packet_len));
                    }
                    self.accumulator.record_packet(meta.protocol, meta.packet_len);
                    let found = self.engine.process_packet(&meta, now);
                    proof {
                        lemma_step_raises_at_most_one(e0, meta, now, self.engine, alert_views(found@));
                        assert(parsed_metadata(raw, timestamp_ns, meta));
                        assert(frame_step(e0, a0, raw, timestamp_ns, now, self.engine, self.accumulator, alert_views(found@)));
                        lemma_room_after_step(a0, e0.alerts_raised(), self.accumulator, self.engine.alerts_raised(), meta, (n - i) as int);
                    }
                    found
                },
                Err(_) => {
                    assert(alert_views(Seq::<Alert>::empty()) =~= Seq::<AlertView>::empty());
                    Vec::new()
                },
            };
            let ghost step = alert_views(new_alerts@);
            let ghost out_before = out@;
            self.total_alerts = self.total_alerts + new_alerts.len() as u64;
            out.append(&mut new_alerts);
            proof {
                assert(alert_views(out@) =~= alert_views(out_before) + step);
                raised.lemma_flatten_push(step);
                assert(fs.take(i + 1).last() == raw);
                assert(frame_step(e0, a0, raw, timestamp_ns, now, self.engine, self.accumulator, step));
                lemma_frames_run_push(
                    fs.take(i as int),
                    fs.take(i + 1),
                    timestamp_ns,
                    now,
                    engines,
                    accs,
                    raised,
                    self.engine,
                    self.accumulator,
                    step,
                );
                engines = engines.push(self.engine);
                accs = accs.push(self.accumulator);
                raised = raised.push(step);
            }
            i = i + 1;
        }
        proof {
            assert(fs.take(n as int) =~= fs);
        }
        let ghost before_resolve = self.engine;
        let _ = self.engine.resolve_stale_alerts(now);
        out
    }
}

/// Counting a parsed frame and raising at most one alert for it leaves
/// room for one frame fewer.
proof fn lemma_room_after_step(
    a0: StatsAccumulator,
    raised0: u64,
    a1: StatsAccumulator,
    raised1: u64,
    m: PacketMetadata,
    n: int,
)
    requires
        n >= 1,
        room_for(a0, raised0, n),
        a0.records_packet(a1, m.protocol, m.packet_len),
        raised1 <= raised0 + 1,
    ensures
        room_for(a1, raised1, n - 1),
{
    assert forall|p: crate::protocol::Protocol|
        #[trigger] a1.protocol_counts.count_of(p) + (n - 1) <= u64::MAX && a1.protocol_bytes.count_of(p) + (n - 1)
            * 65535 <= u64::MAX by {
        assert(a0.protocol_counts.count_of(p) + n <= u64::MAX);
        if p != m.protocol {
            assert(a1.protocol_counts.count_of(p) == a0.protocol_counts.count_of(p));
        }
    }
}

/// The character of a 6-bit value in the standard base64 alphabet:
/// `A`-`Z`, `a`-`z`, `0`-`9`, `+`, `/`.
pub open spec fn base64_digit(v: int) -> char {
    if v < 26 {
        (65 + v) as char
    } else if v < 52 {
        (71 + v) as char
    } else if v < 62 {
        (v - 4) as char
    } else if v == 62 {
        '+'
    } else {
        '/'
    }
}

/// The standard base64 text (RFC 4648 alphabet, `=` padding) of `bytes`:
/// each group of three bytes becomes four characters of six bits each; a
/// last group of one or two bytes becomes two or three characters, padded
/// with `=` to four.
pub open spec fn base64_standard_encode(bytes: Seq<u8>) -> Seq<char>
    decreases bytes.len(),
{
    if bytes.len() == 0 {
        Seq::empty()
    } else if bytes.len() == 1 {
        let b0 = bytes[0] as int;
        seq![base64_digit(b0 / 4), base64_digit((b0 % 4) * 16), '=', '=']
    } else if bytes.len() == 2 {
        let b0 = bytes[0] as int;
        let b1 = bytes[1] as int;
        seq![base64_digit(b0 / 4), base64_digit((b0 % 4) * 16 + b1 / 16), base64_digit((b1 % 16) * 4), '=']
    } else {
        let b0 = bytes[0] as int;
        let b1 = bytes[1] as int;
        let b2 = bytes[2] as int;
        seq![
            base64_digit(b0 / 4),
            base64_digit((b0 % 4) * 16 + b1 / 16),
            base64_digit((b1 % 16) * 4 + b2 / 64),
            base64_digit(b2 % 64),
        ] + base64_standard_encode(bytes.subrange(3, bytes.len() as int))
    }
}

/// `base64::engine::general_purpose::STANDARD.encode(bytes)`: the standard
/// base64 text of the bytes, with `=` padding, as `base64_standard_encode`
/// states it.
#[verifier::external_body]
fn encode_standard_base64(bytes: &Vec<u8>) -> (text: String)
    ensures
        text@ == base64_standard_encode(bytes@),
{
    base64::engine::general_purpose::STANDARD.encode(bytes)
}

/// The packets of an ingest request for `batch`: the base64 text of each
/// frame, in order.
pub fn encode_frames(batch: &Vec<Vec<u8>>) -> (texts: Vec<String>)
    ensures
        texts@.len() == batch@.len(),
        forall|i: int| 0 <= i < batch@.len() ==> (#[trigger] texts@[i])@ == base64_standard_encode(batch@[i]@),
{
    let mut texts: Vec<String> = Vec::new();
    let mut i: usize = 0;
    while i < batch.len()
        invariant
            i <= batch@.len(),
            texts@.len() == i,
            forall|j: int| 0 <= j < i ==> (#[trigger] texts@[j])@ == base64_standard_encode(batch@[j]@),
        decreases batch@.len() - i,
    {
        let text = encode_standard_base64(&batch[i]);
        texts.push(text);
        i = i + 1;
    }
    texts
}

/// What came of posting one tick's frames to the ingest endpoint.
#[derive(Debug, Clone, Copy, PartialEq, Eq, Structural)]
pub enum IngestOutcome {
    /// The server answered with success; its JSON body, when it could be
    /// read, with the `parsed` and `alerts_generated` counts it held.
    Accepted(Option<IngestReply>),
    /// The server answered with an error status.
    Rejected,
    /// The server could not be reached.
    Unreachable,
}

/// The counts read from a successful ingest reply; `None` where the field
/// is missing or not an unsigned integer.
#[derive(Debug, Clone, Copy, PartialEq, Eq, Structural)]
pub struct IngestReply {
    pub parsed: Option<u64>,
    pub alerts_generated: Option<u64>,
}

/// A count read from a reply, zero when absent.
pub open spec fn count_or_zero(c: Option<u64>) -> int {
    match c {
        Some(v) => v as int,
        None => 0,
    }
}

/// The frames sent, parsed and alerted on by the server, and the failed
/// requests, over a remote run.
#[derive(Debug, Clone, Copy, PartialEq, Eq, Structural)]
pub struct RemoteTally {
    pub total_sent: u64,
    pub total_parsed: u64,
    pub total_alerts: u64,
    pub send_errors: u64,
}

impl RemoteTally {
    /// All counts zero.
    pub fn new() -> (t: RemoteTally)
        ensures
            t == (RemoteTally { total_sent: 0, total_parsed: 0, total_alerts: 0, send_errors: 0 }),
    {
        RemoteTally { total_sent: 0, total_parsed: 0, total_alerts: 0, send_errors: 0 }
    }

    /// The counts after a request of `batch_size` frames came to `outcome`,
    /// in integers: an accepted batch counts as sent with the counts its
    /// reply gives; any other outcome counts as one failed request.
    pub open spec fn tallied(self, outcome: IngestOutcome, batch_size: u64) -> (int, int, int, int) {
        match outcome {
            IngestOutcome::Accepted(reply) => {
                let (parsed, alerts) = match reply {
                    Some(r) => (count_or_zero(r.parsed), count_or_zero(r.alerts_generated)),
                    None => (0int, 0int),
                };
                (
                    self.total_sent + batch_size,
                    self.total_parsed + parsed,
                    self.total_alerts + alerts,
                    self.send_errors as int,
                )
            },
            _ => (
                self.total_sent as int,
                self.total_parsed as int,
                self.total_alerts as int,
                self.send_errors + 1,
            ),
        }
    }

    /// No count overflows when `outcome` is tallied.
    pub open spec fn fits(self, outcome: IngestOutcome, batch_size: u64) -> bool {
        let t = self.tallied(outcome, batch_size);
        &&& t.0 <= u64::MAX
        &&& t.1 <= u64::MAX
        &&& t.2 <= u64::MAX
        &&& t.3 <= u64::MAX
    }

    /// Whether `outcome` can be tallied without a count overflowing.
    pub fn can_record(&self, outcome: &IngestOutcome, batch_size: u64) -> (ok: bool)
        ensures
            ok == self.fits(*outcome, batch_size),
    {
        match outcome {
            IngestOutcome::Accepted(reply) => {
                let (parsed, alerts): (u64, u64) = match reply {
                    Some(r) => (unwrap_count(r.parsed), unwrap_count(r.alerts_generated)),
                    None => (0, 0),
                };
                self.total_sent.checked_add(batch_size).is_some() && self.total_parsed.checked_add(parsed).is_some()
                    && self.total_alerts.checked_add(alerts).is_some()
            },
            _ => self.send_errors < u64::MAX,
        }
    }

    /// Tally the outcome of a request of `batch_size` frames, and say
    /// whether to warn about it: a failed request is worth a warning while
    /// there have been at most three.
    pub fn record(&mut self, outcome: &IngestOutcome, batch_size: u64) -> (warn: bool)
        requires
            old(self).fits(*outcome, batch_size),
        ensures
            ({
                let t = old(self).tallied(*outcome, batch_size);
                &&& final(self).total_sent == t.0
                &&& final(self).total_parsed == t.1
                &&& final(self).total_alerts == t.2
                &&& final(self).send_errors == t.3
            }),
            warn == (!(*outcome is Accepted) && final(self).send_errors <= 3),
    {
        match outcome {
            IngestOutcome::Accepted(reply) => {
                if let Some(r) = reply {
                    self.total_parsed = self.total_parsed + unwrap_count(r.parsed);
                    self.total_alerts = self.total_alerts + unwrap_count(r.alerts_generated);
                }
                self.total_sent = self.total_sent + batch_size;
                false
            },
            _ => {
                self.send_errors = self.send_errors + 1;
                self.send_errors <= 3
            },
        }
    }
}

/// A count read from a reply, zero when absent.
fn unwrap_count(c: Option<u64>) -> (v: u64)
    ensures
        v == count_or_zero(c),
{
    match c {
        Some(v) => v,
        None => 0,
    }
}

} // verus!
