use base64::DecodeError;
use base64::Engine;
use vstd::prelude::*;

use crate::alert::{Alert, AlertStatus, AlertView, AttackType};
use crate::api::{status_filter, status_filter_of, AlertsQuery, TopTalkersQuery, DEFAULT_TOP_TALKERS};
use crate::packet::{ipv4_to_u32, ipv4_value};
use crate::rate_tracker::{evict_all, evict_key, window_cutoff, with_arrival, PacketRate, RateTracker};
use crate::config::DetectionConfig;
use crate::engine::{alert_views, DetectionEngine};
use crate::packet::PacketMetadata;
use crate::parser::{be16, parse_error, parse_packet, parsed_metadata};
use crate::protocol::protocol_of;
use crate::stats::StatsAccumulator;

verus! {

#[verifier::external_type_specification]
#[verifier::external_body]
pub struct ExDecodeError(DecodeError);

/// The bytes that standard base64 (RFC 4648 alphabet, `=` padding
/// required) decodes `text` to, or `None` when `text` is not valid
/// standard base64.
pub uninterp spec fn base64_standard_decode(text: Seq<char>) -> Option<Seq<u8>>;

/// `base64::engine::general_purpose::STANDARD.decode(text)`: the bytes
/// that `text` encodes, or the decoding error.  Which bytes and which
/// inputs are accepted is named, not stated: `Ok` exactly when the name
/// gives bytes, and then those bytes.
#[verifier::external_body]
fn decode_standard_base64(text: &String) -> (r: Result<Vec<u8>, DecodeError>)
    ensures
        match r {
            Ok(bytes) => base64_standard_decode(text@) == Some(bytes@),
            Err(_) => base64_standard_decode(text@) is None,
        },
{
    base64::engine::general_purpose::STANDARD.decode(text)
}

/// Why an ingest request was refused.
#[derive(Debug, Clone, Copy, PartialEq, Eq, Structural)]
pub enum IngestError {
    /// A packet was not valid base64.
    InvalidBase64,
}

/// The outcome of an ingest request.
#[derive(Debug, Clone, Copy, PartialEq, Eq, Structural)]
pub struct IngestResponse {
    pub received: usize,
    pub parsed: usize,
    pub alerts_generated: usize,
}

/// How many of the first `n` texts decode to a frame that parses.
pub open spec fn parsed_count(texts: Seq<Seq<char>>, n: int) -> nat
    decreases n,
{
    if n <= 0 {
        0
    } else {
        parsed_count(texts, n - 1) + match base64_standard_decode(texts[n - 1]) {
            Some(b) => if parse_error(b) is None {
                1nat
            } else {
                0nat
            },
            None => 0nat,
        }
    }
}

/// What one frame does to a run: a frame that does not parse changes
/// nothing; one that parses is counted and run through detection, which
/// goes from `e0` to `e1` and raises `alerts`.
pub open spec fn frame_step(
    e0: DetectionEngine,
    a0: StatsAccumulator,
    raw: Seq<u8>,
    timestamp_ns: u64,
    now: u64,
    e1: DetectionEngine,
    a1: StatsAccumulator,
    alerts: Seq<AlertView>,
) -> bool {
    if parse_error(raw) is Some {
        &&& e1 == e0
        &&& a1 == a0
        &&& alerts.len() == 0
    } else {
        exists|m: PacketMetadata|
            #[trigger] parsed_metadata(raw, timestamp_ns, m) && a0.records_packet(a1, m.protocol, m.packet_len)
                && e0.packet_step(m, now, e1, alerts)
    }
}

/// The frames, taken in order, lead through the engines `engines` and the
/// counters `accs`, the `i`-th frame raising `raised[i]`.
pub open spec fn frames_run(
    frames: Seq<Seq<u8>>,
    timestamp_ns: u64,
    now: u64,
    engines: Seq<DetectionEngine>,
    accs: Seq<StatsAccumulator>,
    raised: Seq<Seq<AlertView>>,
) -> bool {
    &&& engines.len() == frames.len() + 1
    &&& accs.len() == frames.len() + 1
    &&& raised.len() == frames.len()
    &&& forall|i: int|
        0 <= i < frames.len() ==> frame_step(
            engines[i],
            accs[i],
            frames[i],
            timestamp_ns,
            now,
            engines[i + 1],
            accs[i + 1],
            #[trigger] raised[i],
        )
}

/// Seconds of traffic over which top talkers are ranked.
pub const TALKER_WINDOW_SECONDS: u64 = 60;

/// The 32-bit value of the source address of an IPv4-in-Ethernet frame.
pub open spec fn source_key(raw: Seq<u8>) -> u32 {
    (raw[26] as int * 0x1000000 + raw[27] as int * 0x10000 + raw[28] as int * 0x100 + raw[29] as int) as u32
}

/// The talker arrivals after a frame arriving at `now`: a frame that
/// parses is counted for its source address within the talker window; one
/// that does not changes nothing.
pub open spec fn talker_step(m: Map<u32, Seq<u64>>, raw: Seq<u8>, now: u64) -> Map<u32, Seq<u64>> {
    if parse_error(raw) is Some {
        m
    } else {
        evict_key(with_arrival(m, source_key(raw), now), source_key(raw), window_cutoff(now, TALKER_WINDOW_SECONDS))
    }
}

/// The talker arrivals after `frames`, in order, arriving at `now`.
pub open spec fn talkers_after(m: Map<u32, Seq<u64>>, frames: Seq<Seq<u8>>, now: u64) -> Map<u32, Seq<u64>>
    decreases frames.len(),
{
    if frames.len() == 0 {
        m
    } else {
        talker_step(talkers_after(m, frames.drop_last(), now), frames.last(), now)
    }
}

proof fn lemma_source_key(raw: Seq<u8>, timestamp_ns: u64, m: PacketMetadata)
    requires
        parse_error(raw) is None,
        parsed_metadata(raw, timestamp_ns, m),
    ensures
        ipv4_value(m.src_ip) == source_key(raw),
{
    assert(m.src_ip@[0] == raw[26] && m.src_ip@[1] == raw[27] && m.src_ip@[2] == raw[28] && m.src_ip@[3] == raw[29]);
}

/// The frames the first `n` texts decode to.
pub open spec fn decoded_frames(texts: Seq<Seq<char>>, n: int) -> Seq<Seq<u8>> {
    Seq::new(n as nat, |i: int| base64_standard_decode(texts[i]).unwrap())
}

/// Running `frames` through the pipeline `before`, in order, leads to
/// `after`: its engine and counters come out of the frames' steps, and the
/// alerts they raise are appended to the log in order.
pub open spec fn runs_frames(before: Pipeline, frames: Seq<Seq<u8>>, timestamp_ns: u64, now: u64, after: Pipeline) -> bool {
    exists|engines: Seq<DetectionEngine>, accs: Seq<StatsAccumulator>, raised: Seq<Seq<AlertView>>|
        #[trigger] frames_run(frames, timestamp_ns, now, engines, accs, raised) && engines[0] == before.detection()
            && accs[0] == before.accumulator() && engines.last() == after.detection() && accs.last()
            == after.accumulator() && after.alert_log() == before.alert_log() + raised.flatten()
            && after.talkers()@ == talkers_after(before.talkers()@, frames, now)
}

/// One more frame step extends a run of frames.
pub proof fn lemma_frames_run_push(
    frames: Seq<Seq<u8>>,
    more: Seq<Seq<u8>>,
    timestamp_ns: u64,
    now: u64,
    engines: Seq<DetectionEngine>,
    accs: Seq<StatsAccumulator>,
    raised: Seq<Seq<AlertView>>,
    e: DetectionEngine,
    a: StatsAccumulator,
    step: Seq<AlertView>,
)
    requires
        frames_run(frames, timestamp_ns, now, engines, accs, raised),
        more.len() == frames.len() + 1,
        forall|j: int| 0 <= j < frames.len() ==> more[j] == frames[j],
        frame_step(engines.last(), accs.last(), more.last(), timestamp_ns, now, e, a, step),
    ensures
        frames_run(more, timestamp_ns, now, engines.push(e), accs.push(a), raised.push(step)),
{
    let es = engines.push(e);
    let as_ = accs.push(a);
    let rs = raised.push(step);
    assert forall|j: int| 0 <= j < more.len() implies frame_step(
        es[j],
        as_[j],
        more[j],
        timestamp_ns,
        now,
        es[j + 1],
        as_[j + 1],
        #[trigger] rs[j],
    ) by {
        if j < frames.len() {
            assert(rs[j] == raised[j]);
            assert(frame_step(engines[j], accs[j], frames[j], timestamp_ns, now, engines[j + 1], accs[j + 1], raised[j]));
        } else {
            assert(es[j] == engines.last());
            assert(as_[j] == accs.last());
        }
    }
}

/// The texts of a sequence of strings.
pub open spec fn texts_of(strings: Seq<String>) -> Seq<Seq<char>> {
    strings.map_values(|s: String| s@)
}

/// The packet-processing pipeline: parse, account, detect, and keep the
/// alerts raised.
pub struct Pipeline {
    detection: DetectionEngine,
    accumulator: StatsAccumulator,
    alerts: Vec<Alert>,
    talkers: RateTracker,
}

impl Pipeline {
    pub closed spec fn detection(self) -> DetectionEngine {
        self.detection
    }

    pub closed spec fn accumulator(self) -> StatsAccumulator {
        self.accumulator
    }

    /// Every alert raised so far, in the order raised.
    pub closed spec fn alert_log(self) -> Seq<AlertView> {
        alert_views(self.alerts@)
    }

    /// The arrivals of every parsed frame by source address, over the
    /// top-talker window.
    pub closed spec fn talkers(self) -> RateTracker {
        self.talkers
    }

    pub open spec fn wf(self) -> bool {
        &&& self.detection().wf()
        &&& self.detection().alerts_match_keys()
        &&& self.detection().ids_unique()
        &&& self.talkers().wf()
        &&& self.talkers().window() == TALKER_WINDOW_SECONDS
        &&& forall|i: int|
            0 <= i < self.alert_log().len() ==> #[trigger] self.alert_log()[i].packets_per_second.seconds > 0
    }

    /// A pipeline with a fresh engine of `config`, empty counters and no alerts.
    pub fn new(config: DetectionConfig) -> (p: Pipeline)
        ensures
            p.wf(),
            p.detection().config() == config,
            p.detection().alerts_raised() == 0,
            p.accumulator().is_zero(),
            p.alert_log() == Seq::<AlertView>::empty(),
            p.talkers()@ == Map::<u32, Seq<u64>>::empty(),
    {
        let p = Pipeline {
            detection: DetectionEngine::new(config),
            accumulator: StatsAccumulator::zero(),
            alerts: Vec::new(),
            talkers: RateTracker::new(TALKER_WINDOW_SECONDS),
        };
        assert(p.alert_log() =~= Seq::<AlertView>::empty());
        p
    }

    pub fn accumulator_ref(&self) -> (a: &StatsAccumulator)
        ensures
            *a == self.accumulator(),
    {
        &self.accumulator
    }

    pub fn alerts(&self) -> (a: &Vec<Alert>)
        ensures
            alert_views(a@) == self.alert_log(),
    {
        &self.alerts
    }

    pub fn detection_ref(&self) -> (d: &DetectionEngine)
        ensures
            *d == self.detection(),
    {
        &self.detection
    }

    /// Process a single raw Ethernet frame through the full pipeline:
    /// parse, count, detect, and log the alerts it raises.  Returns the new
    /// alerts when the frame parses, `None` (and changes nothing) when it
    /// does not.
    pub fn process_raw_packet(&mut self, raw: &[u8], timestamp_ns: u64, now: u64) -> (r: Option<Vec<Alert>>)
        requires
            old(self).wf(),
            parse_error(raw@) is None ==> old(self).accumulator().fits(protocol_of(raw@[23]), be16(raw@[16], raw@[17])),
            forall|m: PacketMetadata|
                #[trigger] parsed_metadata(raw@, timestamp_ns, m) && old(self).detection().raises_alert(m, now)
                    ==> old(self).detection().alerts_raised() < u64::MAX,
        ensures
            final(self).wf(),
            final(self).detection().config() == old(self).detection().config(),
            match r {
                None => parse_error(raw@) is Some && *final(self) == *old(self),
                Some(new_alerts) => {
                    &&& parse_error(raw@) is None
                    &&& exists|m: PacketMetadata|
                        #[trigger] parsed_metadata(raw@, timestamp_ns, m) && old(self).accumulator().records_packet(
                            final(self).accumulator(),
                            m.protocol,
                            m.packet_len,
                        ) && old(self).detection().packet_step(
                            m,
                            now,
                            final(self).detection(),
                            alert_views(new_alerts@),
                        )
                    &&& final(self).alert_log() == old(self).alert_log() + alert_views(new_alerts@)
                    &&& final(self).talkers()@ == talker_step(old(self).talkers()@, raw@, now)
                },
            },
    {
        let meta = match parse_packet(raw, timestamp_ns) {
            Ok(meta) => meta,
            Err(_) => return None,
        };
        self.accumulator.record_packet(meta.protocol, meta.packet_len);
        proof {
            lemma_source_key(raw@, timestamp_ns, meta);
        }
        self.talkers.record(meta.src_ip, now);
        let ghost det_before = self.detection;
        let new_alerts = self.detection.process_packet(&meta, now);
        let ghost before = alert_views(self.alerts@);
        let ghost det = self.detection;
        let ghost acc = self.accumulator;
        let ghost tal = self.talkers;
        let mut i: usize = 0;
        while i < new_alerts.len()
            invariant
                i <= new_alerts@.len(),
                self.detection == det,
                self.accumulator == acc,
                self.talkers == tal,
                alert_views(self.alerts@) == before + alert_views(new_alerts@).take(i as int),
            decreases new_alerts@.len() - i,
        {
            let a = new_alerts[i].duplicate();
            let ghost prev = self.alerts@;
            self.alerts.push(a);
            proof {
                assert(self.alerts@ == prev.push(a));
                assert(alert_views(self.alerts@) =~= alert_views(prev).push(a@));
                assert(alert_views(new_alerts@).take(i + 1) =~= alert_views(new_alerts@).take(i as int).push(
                    new_alerts@[i as int]@,
                ));
            }
            i = i + 1;
        }
        assert(alert_views(new_alerts@).take(new_alerts@.len() as int) =~= alert_views(new_alerts@));
        proof {
            lemma_step_rates_positive(det_before, meta, now, self.detection, alert_views(new_alerts@));
            assert forall|k: int| 0 <= k < self.alert_log().len() implies #[trigger] self.alert_log()[k].packets_per_second.seconds > 0 by {
                if k >= before.len() {
                    assert(self.alert_log()[k] == alert_views(new_alerts@)[k - before.len()]);
                } else {
                    assert(self.alert_log()[k] == before[k]);
                }
            }
        }
        Some(new_alerts)
    }

    /// Resolve the stale alerts of the engine, mark the first logged alert
    /// of each resolved identifier as resolved, and return the identifiers.
    pub fn resolve_stale_alerts(&mut self, now: u64) -> (ids: Vec<String>)
        requires
            old(self).wf(),
        ensures
            final(self).wf(),
            final(self).accumulator() == old(self).accumulator(),
            final(self).talkers() == old(self).talkers(),
            final(self).detection().config() == old(self).detection().config(),
            final(self).detection().alerts_raised() == old(self).detection().alerts_raised(),
            final(self).detection().active() == crate::engine::unstale(
                old(self).detection().active(),
                now,
                crate::engine::cooldown_ns(old(self).detection().config()),
            ),
            exists|ks: Seq<(u32, crate::alert::AttackType)>|
                #[trigger] crate::engine::lists_stale(
                    old(self).detection().active(),
                    now,
                    crate::engine::cooldown_ns(old(self).detection().config()),
                    ks,
                    crate::engine::id_texts(ids@),
                ),
            final(self).alert_log() == marked_resolved(old(self).alert_log(), crate::engine::id_texts(ids@)),
    {
        let ids = self.detection.resolve_stale_alerts(now);
        let ghost log0 = self.alert_log();
        let ghost idt = crate::engine::id_texts(ids@);
        let ghost det = self.detection;
        let mut k: usize = 0;
        while k < ids.len()
            invariant
                k <= ids@.len(),
                idt == crate::engine::id_texts(ids@),
                self.detection == det,
                self.accumulator == old(self).accumulator,
                self.talkers == old(self).talkers,
                self.alert_log() == marked_resolved(log0, idt.take(k as int)),
            decreases ids@.len() - k,
        {
            let n = self.alerts.len();
            let mut j: usize = 0;
            while j < n && !(self.alerts[j].id == ids[k])
                invariant
                    j <= n,
                    k < ids@.len(),
                    n == self.alerts@.len(),
                    forall|j2: int| 0 <= j2 < j ==> self.alerts@[j2].id@ != ids@[k as int]@,
                decreases n - j,
            {
                j = j + 1;
            }
            let ghost before = self.alert_log();
            proof {
                assert forall|j2: int| 0 <= j2 < before.len() implies #[trigger] before[j2].id == log0[j2].id by {}
            }
            proof {
                lemma_marked_step(log0, idt, k as int, j as int);
                assert(idt[k as int] == ids@[k as int]@);
                assert forall|j2: int| 0 <= j2 < j implies #[trigger] log0[j2].id != idt[k as int] by {
                    assert(before[j2].id == self.alerts@[j2].id@);
                }
                if j < n {
                    assert(before[j as int].id == self.alerts@[j as int].id@);
                }
            }
            if j < n {
                let mut a = self.alerts[j].duplicate();
                a.status = AlertStatus::Resolved;
                self.alerts.set(j, a);
            }
            proof {
                assert(self.alert_log() =~= marked_resolved(log0, idt.take(k + 1)));
            }
            k = k + 1;
        }
        assert(idt.take(ids@.len() as int) =~= idt);
        ids
    }

    /// The logged alerts, in log order, that pass the status filter
    /// (all of them for `None`).
    pub fn alerts_with_status(&self, filter: Option<AlertStatus>) -> (r: Vec<Alert>)
        ensures
            alert_views(r@) == with_status(self.alert_log(), filter),
    {
        let mut r: Vec<Alert> = Vec::new();
        let mut i: usize = 0;
        while i < self.alerts.len()
            invariant
                i <= self.alerts@.len(),
                alert_views(r@) == with_status(self.alert_log().take(i as int), filter),
            decreases self.alerts@.len() - i,
        {
            let keep = match filter {
                Some(s) => self.alerts[i].status == s,
                None => true,
            };
            let ghost prev = r@;
            if keep {
                r.push(self.alerts[i].duplicate());
                assert(alert_views(r@) =~= alert_views(prev).push(self.alerts@[i as int]@));
            }
            proof {
                let t = self.alert_log().take(i + 1);
                assert(t.drop_last() =~= self.alert_log().take(i as int));
                assert(t.last() == self.alerts@[i as int]@);
            }
            i = i + 1;
        }
        assert(self.alert_log().take(self.alerts@.len() as int) =~= self.alert_log());
        r
    }

    /// The busiest source addresses of the last 60 seconds, by packet
    /// count, highest first, at most `limit` of them, each once; an address
    /// is flagged when the detection engine holds an active alert for it.
    /// Arrivals older than the window are dropped first.  Addresses of
    /// equal count come in no particular order.
    pub fn top_talkers(&mut self, limit: usize, now: u64) -> (r: Vec<TopTalker>)
        requires
            old(self).wf(),
        ensures
            final(self).wf(),
            final(self).detection() == old(self).detection(),
            final(self).accumulator() == old(self).accumulator(),
            final(self).alert_log() == old(self).alert_log(),
            final(self).talkers()@ == evict_all(old(self).talkers()@, window_cutoff(now, TALKER_WINDOW_SECONDS)),
            ranks_talkers(final(self).talkers()@, old(self).detection().active(), limit, r@),
    {
        let rates = self.talkers.all_rates(now);
        let active = self.detection.active_alerts();
        let ghost act = self.detection().active();
        let ghost m = self.talkers()@;
        let ghost ks = choose|ks: Seq<(u32, AttackType)>| #[trigger] crate::engine::lists_active(act, ks, alert_views(active@));
        let mut r: Vec<TopTalker> = Vec::new();
        let mut i: usize = 0;
        while i < rates.len() && i < limit
            invariant
                i <= rates@.len(),
                i <= limit,
                r@.len() == i,
                forall|q: int|
                    0 <= q < i ==> #[trigger] r@[q] == (TopTalker {
                        source_ip: rates@[q].0,
                        packets_per_second: rates@[q].1,
                        is_flagged: is_flagged_in(act, rates@[q].0),
                    }),
                crate::engine::lists_active(act, ks, alert_views(active@)),
                self.detection().alerts_match_keys(),
                act == self.detection().active(),
            decreases rates@.len() - i,
        {
            let ip = rates[i].0;
            let rate = rates[i].1;
            let key = ipv4_to_u32(ip);
            let mut flagged = false;
            let mut j: usize = 0;
            while j < active.len()
                invariant
                    j <= active@.len(),
                    flagged <==> exists|q: int| 0 <= q < j && ipv4_value(#[trigger] alert_views(active@)[q].source_ip) == key,
                decreases active@.len() - j,
            {
                proof {
                    assert(alert_views(active@)[j as int].source_ip == active@[j as int].source_ip);
                }
                if ipv4_to_u32(active[j].source_ip) == key {
                    flagged = true;
                }
                j = j + 1;
            }
            proof {
                lemma_flagged(act, ks, alert_views(active@), ip, flagged);
            }
            let ghost before = r@;
            r.push(TopTalker { source_ip: ip, packets_per_second: rate, is_flagged: flagged });
            proof {
                assert forall|q: int| 0 <= q < i + 1 implies #[trigger] r@[q] == (TopTalker {
                    source_ip: rates@[q].0,
                    packets_per_second: rates@[q].1,
                    is_flagged: is_flagged_in(act, rates@[q].0),
                }) by {
                    if q < i {
                        assert(r@[q] == before[q]);
                    }
                }
            }
            i = i + 1;
        }
        proof {
            assert forall|q: int| 0 <= q < r@.len() implies {
                &&& m.contains_key(ipv4_value(#[trigger] r@[q].source_ip))
                &&& r@[q].packets_per_second == PacketRate {
                    packets: m[ipv4_value(r@[q].source_ip)].len() as u64,
                    seconds: TALKER_WINDOW_SECONDS,
                }
                &&& r@[q].is_flagged == is_flagged_in(act, r@[q].source_ip)
            } by {
                assert(r@[q].source_ip == rates@[q].0);
            }
            assert forall|q1: int, q2: int| 0 <= q1 < q2 < r@.len() implies (#[trigger] r@[q1]).packets_per_second.packets
                >= (#[trigger] r@[q2]).packets_per_second.packets by {
                assert(r@[q1].packets_per_second == rates@[q1].1 && r@[q2].packets_per_second == rates@[q2].1);
            }
            assert forall|q1: int, q2: int| 0 <= q1 < r@.len() && 0 <= q2 < r@.len() && q1 != q2 implies ipv4_value(
                (#[trigger] r@[q1]).source_ip,
            ) != ipv4_value((#[trigger] r@[q2]).source_ip) by {
                assert(r@[q1].source_ip == rates@[q1].0 && r@[q2].source_ip == rates@[q2].0);
            }
            assert forall|k: u32| #[trigger] m.contains_key(k) implies (exists|q: int|
                0 <= q < r@.len() && ipv4_value((#[trigger] r@[q]).source_ip) == k) || (r@.len() == limit && forall|q: int|
                0 <= q < r@.len() ==> (#[trigger] r@[q]).packets_per_second.packets >= m[k].len()) by {
                let jx = choose|jx: int| 0 <= jx < rates@.len() && ipv4_value(rates@[jx].0) == k;
                if jx < r@.len() {
                    assert(r@[jx].source_ip == rates@[jx].0);
                } else {
                    assert forall|q: int| 0 <= q < r@.len() implies (#[trigger] r@[q]).packets_per_second.packets >= m[k].len() by {
                        assert(r@[q].packets_per_second == rates@[q].1);
                        assert(rates@[q].1.packets >= rates@[jx].1.packets);
                    }
                }
            }
        }
        r
    }

    /// The reply to an alerts query: the logged alerts that its status
    /// filter passes, in log order, and how many there are.
    pub fn alerts_response(&self, query: &AlertsQuery) -> (r: AlertsResponse)
        ensures
            alert_views(r.alerts@) == with_status(
                self.alert_log(),
                status_filter_of(
                    match query.status {
                        Some(s) => Some(s@),
                        None => None,
                    },
                ),
            ),
            r.total == r.alerts@.len(),
    {
        let alerts = self.alerts_with_status(status_filter(&query.status));
        let total = alerts.len();
        AlertsResponse { alerts, total }
    }

    /// The reply to a top-talkers query: at most `limit` sources (ten by
    /// default), ranked as `top_talkers` ranks them, over a 60-second window.
    pub fn top_talkers_response(&mut self, query: &TopTalkersQuery, now: u64) -> (r: TopTalkersResponse)
        requires
            old(self).wf(),
        ensures
            final(self).wf(),
            final(self).detection() == old(self).detection(),
            final(self).accumulator() == old(self).accumulator(),
            final(self).alert_log() == old(self).alert_log(),
            final(self).talkers()@ == evict_all(old(self).talkers()@, window_cutoff(now, TALKER_WINDOW_SECONDS)),
            r.window_seconds == TALKER_WINDOW_SECONDS,
            ranks_talkers(final(self).talkers()@, old(self).detection().active(), talker_limit(*query), r.top_talkers@),
    {
        let limit = match query.limit {
            Some(l) => l,
            None => DEFAULT_TOP_TALKERS,
        };
        TopTalkersResponse { top_talkers: self.top_talkers(limit, now), window_seconds: TALKER_WINDOW_SECONDS }
    }

    /// Room for `n` more packets: no counter can overflow while counting
    /// `n` more frames of at most 65535 bytes, nor the alert counter while
    /// raising `n` more alerts.
    pub open spec fn has_room_for(self, n: int) -> bool {
        room_for(self.accumulator(), self.detection().alerts_raised(), n)
    }

    /// Whether `ingest` can take a batch of `n` packets.
    pub fn has_room(&self, n: u64) -> (ok: bool)
        ensures
            ok == self.has_room_for(n as int),
    {
        check_room(&self.accumulator, self.detection.alert_count(), n)
    }

    /// Accept a batch of base64-encoded raw frames: decode each in turn and
    /// run it through the pipeline.  Stops with `InvalidBase64` at the first
    /// packet that is not valid base64 (the packets before it stay
    /// processed); otherwise reports how many packets were received, how
    /// many parsed, and how many alerts they raised.
    pub fn ingest(&mut self, packets: &Vec<String>, timestamp_ns: u64, now: u64) -> (r: Result<IngestResponse, IngestError>)
        requires
            old(self).wf(),
            old(self).has_room_for(packets@.len() as int),
        ensures
            final(self).wf(),
            final(self).detection().config() == old(self).detection().config(),
            final(self).alert_log().len() >= old(self).alert_log().len(),
            final(self).alert_log().take(old(self).alert_log().len() as int) == old(self).alert_log(),
            final(self).alert_log().len() - old(self).alert_log().len() == final(self).detection().alerts_raised()
                - old(self).detection().alerts_raised(),
            match r {
                Ok(resp) => {
                    &&& forall|i: int|
                        0 <= i < packets@.len() ==> (#[trigger] base64_standard_decode(packets@[i]@)) is Some
                    &&& resp.received == packets@.len()
                    &&& resp.parsed == parsed_count(texts_of(packets@), packets@.len() as int)
                    &&& resp.alerts_generated == final(self).detection().alerts_raised() - old(self).detection().alerts_raised()
                    &&& final(self).accumulator().total_packets == old(self).accumulator().total_packets + resp.parsed
                    &&& runs_frames(
                        *old(self),
                        decoded_frames(texts_of(packets@), packets@.len() as int),
                        timestamp_ns,
                        now,
                        *final(self),
                    )
                },
                Err(e) => {
                    &&& e == IngestError::InvalidBase64
                    &&& exists|j: int|
                        0 <= j < packets@.len() && (#[trigger] base64_standard_decode(packets@[j]@)) is None && (forall|i: int|
                            0 <= i < j ==> (#[trigger] base64_standard_decode(packets@[i]@)) is Some) && runs_frames(
                            *old(self),
                            decoded_frames(texts_of(packets@), j),
                            timestamp_ns,
                            now,
                            *final(self),
                        )
                },
            },
    {
        let received = packets.len();
        let mut parsed: usize = 0;
        let mut alerts_generated: usize = 0;
        let ghost p0 = *self;
        let ghost texts = texts_of(packets@);
        let ghost mut engines: Seq<DetectionEngine> = seq![self.detection];
        let ghost mut accs: Seq<StatsAccumulator> = seq![self.accumulator];
        let ghost mut raised: Seq<Seq<AlertView>> = Seq::empty();
        proof {
            assert(frames_run(decoded_frames(texts, 0), timestamp_ns, now, engines, accs, raised));
            assert(p0.alert_log() + raised.flatten() =~= p0.alert_log());
        }
        let mut i: usize = 0;
        while i < received
            invariant
                received == packets@.len(),
                p0 == *old(self),
                texts == texts_of(packets@),
                i <= received,
                self.wf(),
                self.has_room_for(received - i),
                self.detection().config() == p0.detection().config(),
                self.alert_log().len() >= p0.alert_log().len(),
                self.alert_log().take(p0.alert_log().len() as int) == p0.alert_log(),
                self.alert_log().len() - p0.alert_log().len() == self.detection().alerts_raised()
                    - p0.detection().alerts_raised(),
                alerts_generated == self.detection().alerts_raised() - p0.detection().alerts_raised(),
                alerts_generated <= i,
                parsed <= i,
                parsed == parsed_count(texts, i as int),
                self.accumulator().total_packets == p0.accumulator().total_packets + parsed,
                forall|j: int| 0 <= j < i ==> (#[trigger] base64_standard_decode(packets@[j]@)) is Some,
                frames_run(decoded_frames(texts, i as int), timestamp_ns, now, engines, accs, raised),
                engines[0] == p0.detection(),
                accs[0] == p0.accumulator(),
                engines.last() == self.detection(),
                accs.last() == self.accumulator(),
                self.alert_log() == p0.alert_log() + raised.flatten(),
                self.talkers()@ == talkers_after(p0.talkers()@, decoded_frames(texts, i as int), now),
            decreases received - i,
        {
            let raw = match decode_standard_base64(&packets[i]) {
                Ok(raw) => raw,
                Err(_) => {
                    proof {
                        assert(texts[i as int] == packets@[i as int]@);
                        assert(base64_standard_decode(packets@[i as int]@) is None);
                        assert(runs_frames(p0, decoded_frames(texts, i as int), timestamp_ns, now, *self));
                    }
                    return Err(IngestError::InvalidBase64);
                },
            };
            let ghost before = *self;
            proof {
                assert(texts[i as int] == packets@[i as int]@);
                if parse_error(raw@) is None {
                    let p = protocol_of(raw@[23]);
                    assert(before.accumulator().protocol_counts.count_of(p) + (received - i) <= u64::MAX);
                }
            }
            let ghost mut step: Seq<AlertView> = Seq::empty();
            match self.process_raw_packet(raw.as_slice(), timestamp_ns, now) {
                Some(new_alerts) => {
                    proof {
                        step = alert_views(new_alerts@);
                        let m = choose|m: PacketMetadata|
                            #[trigger] parsed_metadata(raw@, timestamp_ns, m) && before.accumulator().records_packet(
                                self.accumulator(),
                                m.protocol,
                                m.packet_len,
                            ) && before.detection().packet_step(
                                m,
                                now,
                                self.detection(),
                                alert_views(new_alerts@),
                            );
                        lemma_step_raises_at_most_one(before.detection(), m, now, self.detection(), alert_views(new_alerts@));
                        assert forall|p: crate::protocol::Protocol|
                            #[trigger] self.accumulator().protocol_counts.count_of(p) + (received - i - 1) <= u64::MAX
                                && self.accumulator().protocol_bytes.count_of(p) + (received - i - 1) * 65535 <= u64::MAX by {
                            assert(before.accumulator().protocol_counts.count_of(p) + (received - i) <= u64::MAX);
                            if p != m.protocol {
                                assert(self.accumulator().protocol_counts.count_of(p) == before.accumulator().protocol_counts.count_of(p));
                            }
                        }
                        assert(self.alert_log().take(p0.alert_log().len() as int) =~= p0.alert_log()) by {
                            assert(before.alert_log().take(p0.alert_log().len() as int) == p0.alert_log());
                        }
                        assert(self.accumulator().total_packets + (received - i - 1) <= u64::MAX);
                        assert(self.accumulator().total_bytes + (received - i - 1) * 65535 <= u64::MAX);
                        assert(self.detection().alerts_raised() + (received - i - 1) <= u64::MAX);
                        assert(self.has_room_for(received - i - 1));
                    }
                    parsed = parsed + 1;
                    alerts_generated = alerts_generated + new_alerts.len();
                },
                None => {
                    proof {
                        assert(before.alert_log() + step =~= before.alert_log());
                    }
                    assert(self.has_room_for(received - i - 1));
                },
            }
            proof {
                assert(decoded_frames(texts, i + 1)[i as int] == raw@);
                assert(decoded_frames(texts, i + 1).drop_last() =~= decoded_frames(texts, i as int));
                assert(self.talkers()@ == talker_step(before.talkers()@, raw@, now));
                assert(frame_step(before.detection(), before.accumulator(), raw@, timestamp_ns, now, self.detection(), self.accumulator(), step));
                raised.lemma_flatten_push(step);
                assert(self.alert_log() =~= p0.alert_log() + raised.push(step).flatten());
                lemma_frames_run_push(
                    decoded_frames(texts, i as int),
                    decoded_frames(texts, i + 1),
                    timestamp_ns,
                    now,
                    engines,
                    accs,
                    raised,
                    self.detection(),
                    self.accumulator(),
                    step,
                );
                engines = engines.push(self.detection());
                accs = accs.push(self.accumulator());
                raised = raised.push(step);
            }
            i = i + 1;
        }
        assert(texts.len() == received);
        Ok(IngestResponse { received, parsed, alerts_generated })
    }
}

/// `j` is the first position of the log whose alert has identifier `id`.
pub open spec fn first_with_id(log: Seq<AlertView>, j: int, id: Seq<char>) -> bool {
    &&& 0 <= j < log.len()
    &&& log[j].id == id
    &&& forall|j2: int| 0 <= j2 < j ==> #[trigger] log[j2].id != id
}

/// The log with the first alert of each identifier in `ids` marked resolved.
pub open spec fn marked_resolved(log: Seq<AlertView>, ids: Seq<Seq<char>>) -> Seq<AlertView> {
    Seq::new(
        log.len(),
        |j: int|
            if exists|k: int| 0 <= k < ids.len() && #[trigger] first_with_id(log, j, ids[k]) {
                AlertView { status: AlertStatus::Resolved, ..log[j] }
            } else {
                log[j]
            },
    )
}

/// The alerts of the log that pass a status filter, in log order.
pub open spec fn with_status(log: Seq<AlertView>, filter: Option<AlertStatus>) -> Seq<AlertView>
    decreases log.len(),
{
    if log.len() == 0 {
        log
    } else {
        let rest = with_status(log.drop_last(), filter);
        match filter {
            Some(s) => if log.last().status == s {
                rest.push(log.last())
            } else {
                rest
            },
            None => rest.push(log.last()),
        }
    }
}

proof fn lemma_marked_step(log0: Seq<AlertView>, ids: Seq<Seq<char>>, k: int, j: int)
    requires
        0 <= k < ids.len(),
    ensures
        ({
            let cur = marked_resolved(log0, ids.take(k));
            let next = marked_resolved(log0, ids.take(k + 1));
            &&& cur.len() == log0.len()
            &&& forall|j2: int| 0 <= j2 < log0.len() ==> #[trigger] cur[j2].id == log0[j2].id
            &&& (0 <= j < log0.len() && log0[j].id == ids[k] && (forall|j2: int|
                0 <= j2 < j ==> #[trigger] log0[j2].id != ids[k])) ==> next == cur.update(
                j,
                AlertView { status: AlertStatus::Resolved, ..cur[j] },
            )
            &&& (j >= log0.len() && (forall|j2: int| 0 <= j2 < log0.len() ==> #[trigger] log0[j2].id != ids[k])) ==> next
                == cur
        }),
{
    let cur = marked_resolved(log0, ids.take(k));
    let next = marked_resolved(log0, ids.take(k + 1));
    assert forall|q: int| 0 <= q < k implies ids.take(k + 1)[q] == ids.take(k)[q] && #[trigger] ids.take(k)[q] == ids[q] by {}
    if 0 <= j < log0.len() && log0[j].id == ids[k] && (forall|j2: int| 0 <= j2 < j ==> #[trigger] log0[j2].id != ids[k]) {
        assert(first_with_id(log0, j, ids.take(k + 1)[k]));
        assert forall|x: int| 0 <= x < log0.len() implies next[x] == cur.update(
            j,
            AlertView { status: AlertStatus::Resolved, ..cur[j] },
        )[x] by {
            if x != j {
                if exists|q: int| 0 <= q < k + 1 && #[trigger] first_with_id(log0, x, ids.take(k + 1)[q]) {
                    let q = choose|q: int| 0 <= q < k + 1 && #[trigger] first_with_id(log0, x, ids.take(k + 1)[q]);
                    if q == k {
                        assert(first_with_id(log0, x, ids[k]));
                        if x < j {
                            assert(log0[x].id != ids[k]);
                        } else {
                            assert(log0[j].id != ids[k]);
                        }
                    } else {
                        assert(first_with_id(log0, x, ids.take(k)[q]));
                    }
                }
                if exists|q: int| 0 <= q < k && #[trigger] first_with_id(log0, x, ids.take(k)[q]) {
                    let q = choose|q: int| 0 <= q < k && #[trigger] first_with_id(log0, x, ids.take(k)[q]);
                    assert(first_with_id(log0, x, ids.take(k + 1)[q]));
                }
            } else {
                if exists|q: int| 0 <= q < k && #[trigger] first_with_id(log0, x, ids.take(k)[q]) {
                    let q = choose|q: int| 0 <= q < k && #[trigger] first_with_id(log0, x, ids.take(k)[q]);
                    assert(first_with_id(log0, x, ids.take(k + 1)[q]));
                }
            }
        }
        assert(next =~= cur.update(j, AlertView { status: AlertStatus::Resolved, ..cur[j] }));
    }
    if j >= log0.len() && (forall|j2: int| 0 <= j2 < log0.len() ==> #[trigger] log0[j2].id != ids[k]) {
        assert forall|x: int| 0 <= x < log0.len() implies next[x] == cur[x] by {
            if exists|q: int| 0 <= q < k + 1 && #[trigger] first_with_id(log0, x, ids.take(k + 1)[q]) {
                let q = choose|q: int| 0 <= q < k + 1 && #[trigger] first_with_id(log0, x, ids.take(k + 1)[q]);
                if q == k {
                    assert(log0[x].id != ids[k]);
                } else {
                    assert(first_with_id(log0, x, ids.take(k)[q]));
                }
            }
            if exists|q: int| 0 <= q < k && #[trigger] first_with_id(log0, x, ids.take(k)[q]) {
                let q = choose|q: int| 0 <= q < k && #[trigger] first_with_id(log0, x, ids.take(k)[q]);
                assert(first_with_id(log0, x, ids.take(k + 1)[q]));
            }
        }
        assert(next =~= cur);
    }
}

/// Room for `n` more packets in `acc` and `n` more alerts after `raised`
/// alerts: no counter overflows while counting `n` more frames of at most
/// 65535 bytes each and raising one alert for each.
pub open spec fn room_for(acc: StatsAccumulator, raised: u64, n: int) -> bool {
    &&& acc.total_packets + n <= u64::MAX
    &&& acc.total_bytes + n * 65535 <= u64::MAX
    &&& forall|p: crate::protocol::Protocol|
        #[trigger] acc.protocol_counts.count_of(p) + n <= u64::MAX && acc.protocol_bytes.count_of(p) + n * 65535
            <= u64::MAX
    &&& raised + n <= u64::MAX
}

/// Whether there is room for `n` more packets in `acc` and `n` more alerts
/// after `raised`.
pub fn check_room(acc: &StatsAccumulator, raised: u64, n: u64) -> (ok: bool)
    ensures
        ok == room_for(*acc, raised, n as int),
{
    let max: u128 = 0xffff_ffff_ffff_ffff;
    let wide = n as u128;
    (acc.total_packets as u128) + wide <= max && (acc.total_bytes as u128) + wide * 65535 <= max
        && (raised as u128) + wide <= max && protocols_have_room(acc, n)
}

/// Whether every per-protocol counter of `acc` has room for `n` more
/// packets of at most 65535 bytes.
fn protocols_have_room(acc: &StatsAccumulator, n: u64) -> (ok: bool)
    ensures
        ok == (forall|p: crate::protocol::Protocol|
            #[trigger] acc.protocol_counts.count_of(p) + n <= u64::MAX && acc.protocol_bytes.count_of(p) + n * 65535
                <= u64::MAX),
{
    let bytes = match n.checked_mul(65535) {
        Some(b) => b,
        None => {
            let ghost tcp = crate::protocol::Protocol::Tcp;
            assert(acc.protocol_counts.count_of(tcp) >= 0 && acc.protocol_bytes.count_of(tcp) + n * 65535 > u64::MAX);
            return false;
        },
    };
    let tcp = protocol_has_room(acc, crate::protocol::Protocol::Tcp, n, bytes);
    let udp = protocol_has_room(acc, crate::protocol::Protocol::Udp, n, bytes);
    let icmp = protocol_has_room(acc, crate::protocol::Protocol::Icmp, n, bytes);
    let other = protocol_has_room(acc, crate::protocol::Protocol::Other, n, bytes);
    proof {
        assert forall|p: crate::protocol::Protocol|
            tcp && udp && icmp && other implies #[trigger] acc.protocol_counts.count_of(p) + n <= u64::MAX
                && acc.protocol_bytes.count_of(p) + n * 65535 <= u64::MAX by {
            match p {
                crate::protocol::Protocol::Tcp => {},
                crate::protocol::Protocol::Udp => {},
                crate::protocol::Protocol::Icmp => {},
                crate::protocol::Protocol::Other => {},
            }
        }
    }
    tcp && udp && icmp && other
}

/// Whether the counters of protocol `p` in `acc` have room for `n` more
/// packets of `bytes` bytes in all.
fn protocol_has_room(acc: &StatsAccumulator, p: crate::protocol::Protocol, n: u64, bytes: u64) -> (ok: bool)
    ensures
        ok == (acc.protocol_counts.count_of(p) + n <= u64::MAX && acc.protocol_bytes.count_of(p) + bytes <= u64::MAX),
{
    acc.protocol_counts.get(p).checked_add(n).is_some() && acc.protocol_bytes.get(p).checked_add(bytes).is_some()
}

/// The reply of the alerts endpoint.
#[derive(Debug, Clone)]
pub struct AlertsResponse {
    pub alerts: Vec<Alert>,
    pub total: usize,
}

/// The reply of the top-talkers endpoint.
#[derive(Debug, Clone)]
pub struct TopTalkersResponse {
    pub top_talkers: Vec<TopTalker>,
    pub window_seconds: u64,
}

/// `r` ranks the source addresses of the talker arrivals `m`: at most
/// `limit` entries, each an address of `m` once, with its packet count over
/// the talker window, flagged when `active` holds an alert for it; counts
/// highest first; and every address of `m` is listed, or `r` is full and
/// each of its entries counts at least as many packets.
pub open spec fn ranks_talkers(
    m: Map<u32, Seq<u64>>,
    active: Map<(u32, AttackType), (AlertView, u64)>,
    limit: usize,
    r: Seq<TopTalker>,
) -> bool {
    &&& r.len() <= limit
    &&& forall|i: int|
        0 <= i < r.len() ==> {
            &&& m.contains_key(ipv4_value(#[trigger] r[i].source_ip))
            &&& r[i].packets_per_second == PacketRate {
                packets: m[ipv4_value(r[i].source_ip)].len() as u64,
                seconds: TALKER_WINDOW_SECONDS,
            }
            &&& r[i].is_flagged == is_flagged_in(active, r[i].source_ip)
        }
    &&& forall|i: int, j: int|
        0 <= i < j < r.len() ==> (#[trigger] r[i]).packets_per_second.packets >= (#[trigger] r[j]).packets_per_second.packets
    &&& forall|i: int, j: int|
        0 <= i < r.len() && 0 <= j < r.len() && i != j ==> ipv4_value((#[trigger] r[i]).source_ip) != ipv4_value(
            (#[trigger] r[j]).source_ip,
        )
    &&& forall|k: u32|
        #[trigger] m.contains_key(k) ==> (exists|i: int| 0 <= i < r.len() && ipv4_value((#[trigger] r[i]).source_ip) == k)
            || (r.len() == limit && forall|i: int| 0 <= i < r.len() ==> (#[trigger] r[i]).packets_per_second.packets >= m[k].len())
}

/// How many top talkers a query asks for (ten by default).
pub open spec fn talker_limit(query: TopTalkersQuery) -> usize {
    match query.limit {
        Some(l) => l,
        None => DEFAULT_TOP_TALKERS,
    }
}

/// A top-talkers query without a limit asks for ten talkers, one with a
/// limit for exactly that many; talkers are counted over 60 seconds.
pub proof fn lemma_talker_limit(query: TopTalkersQuery)
    ensures
        query.limit is None ==> talker_limit(query) == 10,
        query.limit matches Some(l) ==> talker_limit(query) == l,
        TALKER_WINDOW_SECONDS == 60,
{
}

/// A source address with its packet count over the talker window.
#[derive(Debug, Clone, Copy, PartialEq, Eq)]
pub struct TopTalker {
    pub source_ip: [u8; 4],
    pub packets_per_second: PacketRate,
    /// The address has an active alert in the detection engine.
    pub is_flagged: bool,
}

/// The address has an active alert of some type.
pub open spec fn is_flagged_in(active: Map<(u32, AttackType), (AlertView, u64)>, ip: [u8; 4]) -> bool {
    exists|a: AttackType| #[trigger] active.contains_key((ipv4_value(ip), a))
}

/// The alerts a packet raises carry a rate over a positive number of seconds.
pub proof fn lemma_step_rates_positive(
    before: DetectionEngine,
    meta: PacketMetadata,
    now: u64,
    after: DetectionEngine,
    alerts: Seq<AlertView>,
)
    requires
        before.packet_step(meta, now, after, alerts),
    ensures
        forall|i: int| 0 <= i < alerts.len() ==> #[trigger] alerts[i].packets_per_second.seconds > 0,
{
}

proof fn lemma_flagged(
    act: Map<(u32, AttackType), (AlertView, u64)>,
    ks: Seq<(u32, AttackType)>,
    alerts: Seq<AlertView>,
    ip: [u8; 4],
    flagged: bool,
)
    requires
        crate::engine::lists_active(act, ks, alerts),
        forall|k: (u32, AttackType)| #[trigger] act.contains_key(k) ==> ipv4_value(act[k].0.source_ip) == k.0,
        flagged <==> exists|q: int| 0 <= q < alerts.len() && ipv4_value(#[trigger] alerts[q].source_ip) == ipv4_value(ip),
    ensures
        flagged == is_flagged_in(act, ip),
{
    if flagged {
        let q = choose|q: int| 0 <= q < alerts.len() && ipv4_value(#[trigger] alerts[q].source_ip) == ipv4_value(ip);
        assert(act.contains_key(ks[q]));
        assert(act.contains_key((ipv4_value(ip), ks[q].1)));
    }
    if is_flagged_in(act, ip) {
        let a = choose|a: AttackType| #[trigger] act.contains_key((ipv4_value(ip), a));
        assert(ks.contains((ipv4_value(ip), a)));
        let q = choose|q: int| 0 <= q < ks.len() && ks[q] == (ipv4_value(ip), a);
        assert(ipv4_value(alerts[q].source_ip) == ipv4_value(ip));
    }
}

/// Processing one packet raises at most one alert, and the alert counter
/// grows by the number raised.
pub proof fn lemma_step_raises_at_most_one(
    before: DetectionEngine,
    meta: PacketMetadata,
    now: u64,
    after: DetectionEngine,
    alerts: Seq<AlertView>,
)
    requires
        before.packet_step(meta, now, after, alerts),
    ensures
        alerts.len() <= 1,
        after.alerts_raised() == before.alerts_raised() + alerts.len(),
{
}

} // verus!
