use std::collections::HashMap;
use vstd::prelude::*;
use vstd::std_specs::iter::IteratorSpec;

use crate::alert::{
    alert_id_text, format_alert_id, lemma_alert_ids_distinct, Alert, AlertSeverity, AlertStatus, AlertView, AttackType,
};
use crate::config::DetectionConfig;
use crate::packet::{ipv4_to_u32, ipv4_value, PacketMetadata};
use crate::protocol::Protocol;
use crate::rate_tracker::{
    arrivals_of, evict_key, lemma_evict_key_idempotent, window_cutoff, with_arrival, PacketRate,
    RateTracker, NANOS_PER_SEC,
};

verus! {

broadcast use vstd::std_specs::hash::group_hash_axioms;

/// The flood that a packet counts towards, if any: SYN without ACK for
/// TCP, every UDP packet, every ICMP packet.
pub open spec fn attack_for(meta: PacketMetadata) -> Option<AttackType> {
    match meta.protocol {
        Protocol::Tcp => match meta.tcp_flags {
            Some(f) => if f.syn && !f.ack {
                Some(AttackType::SynFlood)
            } else {
                None
            },
            None => None,
        },
        Protocol::Udp => Some(AttackType::UdpFlood),
        Protocol::Icmp => Some(AttackType::IcmpFlood),
        Protocol::Other => None,
    }
}

/// The rate at which an attack of this type is reported.
pub open spec fn threshold_for(config: DetectionConfig, attack: AttackType) -> u64 {
    match attack {
        AttackType::SynFlood => config.syn_flood_threshold_pps,
        AttackType::UdpFlood => config.udp_flood_threshold_pps,
        AttackType::IcmpFlood => config.icmp_flood_threshold_pps,
        AttackType::DnsAmplification => config.dns_amplification_threshold_pps,
    }
}

/// The severity of an attack of this type at this rate.
pub open spec fn severity_for(attack: AttackType, rate: PacketRate) -> AlertSeverity {
    match attack {
        AttackType::SynFlood => if rate.above(20_000) {
            AlertSeverity::Critical
        } else if rate.above(5_000) {
            AlertSeverity::High
        } else {
            AlertSeverity::Medium
        },
        AttackType::UdpFlood => if rate.above(50_000) {
            AlertSeverity::Critical
        } else if rate.above(20_000) {
            AlertSeverity::High
        } else {
            AlertSeverity::Medium
        },
        AttackType::IcmpFlood => if rate.above(10_000) {
            AlertSeverity::High
        } else if rate.above(5_000) {
            AlertSeverity::Medium
        } else {
            AlertSeverity::Low
        },
        AttackType::DnsAmplification => if rate.above(2_000) {
            AlertSeverity::Critical
        } else {
            AlertSeverity::High
        },
    }
}

/// The cooldown of a configuration in nanoseconds.
pub open spec fn cooldown_ns(config: DetectionConfig) -> int {
    config.alert_cooldown_seconds * NANOS_PER_SEC
}

/// An alert last raised or refreshed at `last` is stale at `now`: more than
/// the cooldown has passed since.
pub open spec fn is_stale(last: u64, now: u64, cooldown: int) -> bool {
    now - last > cooldown
}

/// The time at which a new alert clears out stale alerts: one cooldown
/// before `now`, or `now` itself when that is before the clock's zero.
pub open spec fn cleanup_time(now: u64, cooldown: int) -> u64 {
    if now >= cooldown {
        (now - cooldown) as u64
    } else {
        now
    }
}

/// The active alerts that are not stale at `now`.
pub open spec fn unstale(
    m: Map<(u32, AttackType), (AlertView, u64)>,
    now: u64,
    cooldown: int,
) -> Map<(u32, AttackType), (AlertView, u64)> {
    Map::new(
        |k: (u32, AttackType)| m.contains_key(k) && !is_stale(m[k].1, now, cooldown),
        |k: (u32, AttackType)| m[k],
    )
}

/// Every alert of `m` carries the identifier of one of the alert numbers
/// 1 to `raised`, and no two alerts of `m` share an identifier.
pub open spec fn ids_ok(m: Map<(u32, AttackType), (AlertView, u64)>, raised: u64) -> bool {
    &&& forall|k: (u32, AttackType)|
        #[trigger] m.contains_key(k) ==> exists|n: nat| 1 <= n <= raised && m[k].0.id == #[trigger] alert_id_text(n)
    &&& forall|k1: (u32, AttackType), k2: (u32, AttackType)|
        #[trigger] m.contains_key(k1) && #[trigger] m.contains_key(k2) && k1 != k2 ==> m[k1].0.id != m[k2].0.id
}

/// The alert raised as the `n`-th alert of the engine.
pub open spec fn new_alert(n: int, ip: [u8; 4], attack: AttackType, rate: PacketRate, now: u64) -> AlertView {
    AlertView {
        id: alert_id_text(n as nat),
        attack_type: attack,
        severity: severity_for(attack, rate),
        source_ip: ip,
        packets_per_second: rate,
        started_at: now,
        last_seen_at: now,
        status: AlertStatus::Active,
    }
}

/// An alert refreshed by a further packet at `now`.
pub open spec fn refreshed(a: AlertView, rate: PacketRate, now: u64) -> AlertView {
    AlertView { last_seen_at: now, packets_per_second: rate, ..a }
}

/// The map key of an (address, attack type) pair.
pub open spec fn alert_key(ip: u32, attack: AttackType) -> u64 {
    (ip as u64 * 4 + attack_index(attack)) as u64
}

pub open spec fn attack_index(attack: AttackType) -> u64 {
    match attack {
        AttackType::SynFlood => 0,
        AttackType::UdpFlood => 1,
        AttackType::IcmpFlood => 2,
        AttackType::DnsAmplification => 3,
    }
}

pub open spec fn attack_of_index(i: u64) -> AttackType {
    if i == 0 {
        AttackType::SynFlood
    } else if i == 1 {
        AttackType::UdpFlood
    } else if i == 2 {
        AttackType::IcmpFlood
    } else {
        AttackType::DnsAmplification
    }
}

/// The (address value, attack type) pair of a map key.
pub open spec fn pair_of(k: u64) -> (u32, AttackType) {
    ((k / 4) as u32, attack_of_index(k % 4))
}

/// `ks` lists, once each, the active alerts of `m` that are stale at `now`,
/// and `ids` their identifiers in the same order.
pub open spec fn lists_stale(
    m: Map<(u32, AttackType), (AlertView, u64)>,
    now: u64,
    cooldown: int,
    ks: Seq<(u32, AttackType)>,
    ids: Seq<Seq<char>>,
) -> bool {
    &&& ks.no_duplicates()
    &&& ks.len() == ids.len()
    &&& forall|i: int|
        0 <= i < ks.len() ==> {
            &&& m.contains_key(#[trigger] ks[i])
            &&& is_stale(m[ks[i]].1, now, cooldown)
            &&& ids[i] == m[ks[i]].0.id
        }
    &&& forall|k: (u32, AttackType)|
        #[trigger] m.contains_key(k) && is_stale(m[k].1, now, cooldown) ==> ks.contains(k)
}

/// The views of a sequence of alerts.
pub open spec fn alert_views(alerts: Seq<Alert>) -> Seq<AlertView> {
    alerts.map_values(|a: Alert| a@)
}

/// `ks` lists every active alert of `m` once, and `alerts` holds their
/// alerts in the same order.
pub open spec fn lists_active(
    m: Map<(u32, AttackType), (AlertView, u64)>,
    ks: Seq<(u32, AttackType)>,
    alerts: Seq<AlertView>,
) -> bool {
    &&& ks.no_duplicates()
    &&& ks.len() == alerts.len()
    &&& forall|i: int| 0 <= i < ks.len() ==> m.contains_key(#[trigger] ks[i]) && alerts[i] == m[ks[i]].0
    &&& forall|k: (u32, AttackType)| #[trigger] m.contains_key(k) ==> ks.contains(k)
}

/// The texts of a sequence of identifiers.
pub open spec fn id_texts(ids: Seq<String>) -> Seq<Seq<char>> {
    ids.map_values(|s: String| s@)
}

proof fn lemma_alert_key_injective(ip1: u32, a1: AttackType, ip2: u32, a2: AttackType)
    requires
        alert_key(ip1, a1) == alert_key(ip2, a2),
    ensures
        ip1 == ip2,
        a1 == a2,
{
    lemma_alert_key(ip1, a1);
    lemma_alert_key(ip2, a2);
}

proof fn lemma_pair_of(k: u64)
    requires
        k < 0x4_0000_0000,
    ensures
        alert_key(pair_of(k).0, pair_of(k).1) == k,
{
}

proof fn lemma_alert_key(ip: u32, attack: AttackType)
    ensures
        alert_key(ip, attack) / 4 == ip,
        attack_of_index(alert_key(ip, attack) % 4) == attack,
        alert_key(ip, attack) < 0x4_0000_0000,
{
}

proof fn lemma_cooldown_fits(secs: u64)
    ensures
        (secs as u128) * (NANOS_PER_SEC as u128) <= u128::MAX,
        (secs as u128) * (NANOS_PER_SEC as u128) == secs * NANOS_PER_SEC,
{
    assert((secs as u128) * (NANOS_PER_SEC as u128) <= 0xFFFF_FFFF_FFFF_FFFFu128 * 1_000_000_000u128)
        by (nonlinear_arith);
}

/// An alert together with the last time it was raised or refreshed.
#[derive(Debug)]
struct AlertState {
    alert: Alert,
    last_alerted: u64,
}

/// Orchestrates DDoS detection across all attack types.
#[derive(Debug)]
pub struct DetectionEngine {
    config: DetectionConfig,
    syn_tracker: RateTracker,
    udp_tracker: RateTracker,
    icmp_tracker: RateTracker,
    /// Active alerts, at most one per (address, attack type).
    active_alerts: HashMap<u64, AlertState>,
    alert_counter: u64,
}

impl DetectionEngine {
    /// The configuration the engine was made with.
    pub closed spec fn config(self) -> DetectionConfig {
        self.config
    }

    /// The rate tracker that counts packets towards `attack`.
    pub closed spec fn tracker(self, attack: AttackType) -> RateTracker {
        match attack {
            AttackType::SynFlood => self.syn_tracker,
            AttackType::UdpFlood => self.udp_tracker,
            _ => self.icmp_tracker,
        }
    }

    /// How many alerts the engine has raised so far.
    pub closed spec fn alerts_raised(self) -> u64 {
        self.alert_counter
    }

    /// The active alerts by (address value, attack type), each with the
    /// time it was last raised or refreshed.
    pub closed spec fn active(self) -> Map<(u32, AttackType), (AlertView, u64)> {
        Map::new(
            |k: (u32, AttackType)| self.active_alerts@.contains_key(alert_key(k.0, k.1)),
            |k: (u32, AttackType)|
                (
                    self.active_alerts@[alert_key(k.0, k.1)].alert@,
                    self.active_alerts@[alert_key(k.0, k.1)].last_alerted,
                ),
        )
    }

    /// The engine's internal invariant.
    pub closed spec fn wf(self) -> bool {
        &&& self.syn_tracker.wf()
        &&& self.udp_tracker.wf()
        &&& self.icmp_tracker.wf()
        &&& self.syn_tracker.window() == self.config.detection_window_seconds
        &&& self.udp_tracker.window() == self.config.detection_window_seconds
        &&& self.icmp_tracker.window() == self.config.detection_window_seconds
        &&& forall|k: u64| #[trigger] self.active_alerts@.contains_key(k) ==> k < 0x4_0000_0000
    }

    /// Every active alert is for the address and attack type it is filed
    /// under, and is marked active.
    pub open spec fn alerts_match_keys(self) -> bool {
        forall|k: (u32, AttackType)|
            #[trigger] self.active().contains_key(k) ==> {
                &&& ipv4_value(self.active()[k].0.source_ip) == k.0
                &&& self.active()[k].0.attack_type == k.1
                &&& self.active()[k].0.status == AlertStatus::Active
            }
    }

    /// The active alerts carry distinct identifiers, each of an alert
    /// number the engine has handed out.
    pub open spec fn ids_unique(self) -> bool {
        ids_ok(self.active(), self.alerts_raised())
    }

    /// The rate of `ip` for `attack` once a packet arriving at `now` has
    /// been recorded.
    pub open spec fn rate_after(self, attack: AttackType, ip: [u8; 4], now: u64) -> PacketRate {
        let t = self.tracker(attack);
        PacketRate {
            packets: arrivals_of(
                evict_key(
                    with_arrival(t@, ipv4_value(ip), now),
                    ipv4_value(ip),
                    window_cutoff(now, t.window()),
                ),
                ipv4_value(ip),
            ) as u64,
            seconds: t.rate_seconds(),
        }
    }

    /// Processing `meta` at `now` raises a new alert.
    pub open spec fn raises_alert(self, meta: PacketMetadata, now: u64) -> bool {
        match attack_for(meta) {
            Some(attack) => {
                &&& self.rate_after(attack, meta.src_ip, now).reaches(threshold_for(self.config(), attack))
                &&& !self.active().contains_key((ipv4_value(meta.src_ip), attack))
            },
            None => false,
        }
    }

    pub fn new(config: DetectionConfig) -> (e: DetectionEngine)
        ensures
            e.wf(),
            e.alerts_match_keys(),
            e.ids_unique(),
            e.config() == config,
            e.alerts_raised() == 0,
            e.active() == Map::<(u32, AttackType), (AlertView, u64)>::empty(),
            e.tracker(AttackType::SynFlood)@ == Map::<u32, Seq<u64>>::empty(),
            e.tracker(AttackType::UdpFlood)@ == Map::<u32, Seq<u64>>::empty(),
            e.tracker(AttackType::IcmpFlood)@ == Map::<u32, Seq<u64>>::empty(),
    {
        let window = config.detection_window_seconds;
        let e = DetectionEngine {
            config,
            syn_tracker: RateTracker::new(window),
            udp_tracker: RateTracker::new(window),
            icmp_tracker: RateTracker::new(window),
            active_alerts: HashMap::new(),
            alert_counter: 0,
        };
        assert(e.active() =~= Map::<(u32, AttackType), (AlertView, u64)>::empty());
        e
    }

    /// The configuration the engine was made with.
    pub fn config_ref(&self) -> (c: &DetectionConfig)
        ensures
            *c == self.config(),
    {
        &self.config
    }

    /// How many alerts the engine has raised so far.
    pub fn alert_count(&self) -> (n: u64)
        ensures
            n == self.alerts_raised(),
    {
        self.alert_counter
    }

    fn cooldown(&self) -> (c: u128)
        ensures
            c == cooldown_ns(self.config()),
    {
        proof {
            lemma_cooldown_fits(self.config.alert_cooldown_seconds);
        }
        (self.config.alert_cooldown_seconds as u128) * (NANOS_PER_SEC as u128)
    }

    /// Count a packet from `ip` towards `attack` and return the new rate.
    fn observe(&mut self, attack: AttackType, ip: [u8; 4], now: u64) -> (r: PacketRate)
        requires
            old(self).wf(),
            attack != AttackType::DnsAmplification,
        ensures
            final(self).wf(),
            r == old(self).rate_after(attack, ip, now),
            final(self).tracker(attack)@ == evict_key(
                with_arrival(old(self).tracker(attack)@, ipv4_value(ip), now),
                ipv4_value(ip),
                window_cutoff(now, old(self).tracker(attack).window()),
            ),
            final(self).tracker(attack).window() == old(self).tracker(attack).window(),
            forall|other: AttackType|
                other != attack && other != AttackType::DnsAmplification ==> #[trigger] final(self).tracker(other)
                    == old(self).tracker(other),
            final(self).config == old(self).config,
            final(self).active_alerts == old(self).active_alerts,
            final(self).alert_counter == old(self).alert_counter,
    {
        let ghost t0 = old(self).tracker(attack);
        let ghost key = ipv4_value(ip);
        let ghost c = window_cutoff(now, t0.window());
        proof {
            lemma_evict_key_idempotent(with_arrival(t0@, key, now), key, c);
        }
        match attack {
            AttackType::SynFlood => {
                self.syn_tracker.record(ip, now);
                self.syn_tracker.rate_pps(ip, now)
            },
            AttackType::UdpFlood => {
                self.udp_tracker.record(ip, now);
                self.udp_tracker.rate_pps(ip, now)
            },
            _ => {
                self.icmp_tracker.record(ip, now);
                self.icmp_tracker.rate_pps(ip, now)
            },
        }
    }

    fn index_of(attack: AttackType) -> (i: u64)
        ensures
            i == attack_index(attack),
    {
        match attack {
            AttackType::SynFlood => 0,
            AttackType::UdpFlood => 1,
            AttackType::IcmpFlood => 2,
            AttackType::DnsAmplification => 3,
        }
    }

    fn key_of(ip: [u8; 4], attack: AttackType) -> (k: u64)
        ensures
            k == alert_key(ipv4_value(ip), attack),
    {
        let index = Self::index_of(attack);
        (ipv4_to_u32(ip) as u64) * 4 + index
    }

    /// The two engines differ at most in their active alerts.
    closed spec fn same_but_alerts(self, other: Self) -> bool {
        &&& self.config == other.config
        &&& self.syn_tracker == other.syn_tracker
        &&& self.udp_tracker == other.udp_tracker
        &&& self.icmp_tracker == other.icmp_tracker
        &&& self.alert_counter == other.alert_counter
    }

    fn stale_at(last: u64, now: u64, cooldown: u128) -> (b: bool)
        ensures
            b == is_stale(last, now, cooldown as int),
    {
        now > last && ((now - last) as u128) > cooldown
    }

    fn alert_keys(&self) -> (ks: Vec<u64>)
        ensures
            ks@.to_set() == self.active_alerts@.dom(),
            ks@.no_duplicates(),
    {
        let mut ks: Vec<u64> = Vec::new();
        let keys = self.active_alerts.keys();
        let ghost all = keys.remaining();
        for k in it: keys
            invariant
                all == it.seq(),
                all.unref().to_set() == self.active_alerts@.dom(),
                all.unref().no_duplicates(),
                ks@ == all.unref().take(it.index() as int),
        {
            ks.push(*k);
            assert(ks@ =~= all.unref().take(it.index() + 1));
        }
        assert(all.unref().take(all.len() as int) =~= all.unref());
        ks
    }

    /// Resolve the alerts that have not been raised or refreshed for more
    /// than the cooldown, and return their identifiers (in no particular
    /// order).
    pub fn resolve_stale_alerts(&mut self, now: u64) -> (ids: Vec<String>)
        requires
            old(self).wf(),
            old(self).alerts_match_keys(),
        ensures
            final(self).wf(),
            final(self).alerts_match_keys(),
            old(self).ids_unique() ==> final(self).ids_unique(),
            final(self).config() == old(self).config(),
            final(self).alerts_raised() == old(self).alerts_raised(),
            forall|a: AttackType| #[trigger] final(self).tracker(a) == old(self).tracker(a),
            final(self).active() == unstale(old(self).active(), now, cooldown_ns(old(self).config())),
            exists|ks: Seq<(u32, AttackType)>|
                #[trigger] lists_stale(
                    old(self).active(),
                    now,
                    cooldown_ns(old(self).config()),
                    ks,
                    id_texts(ids@),
                ),
    {
        let cooldown = self.cooldown();
        let keys = self.alert_keys();
        let n = keys.len();
        let ghost m0 = self.active_alerts@;
        let ghost a0 = self.active();
        let ghost cd = cooldown_ns(self.config());
        let ghost mut rk: Seq<u64> = Seq::empty();
        let mut ids: Vec<String> = Vec::new();
        let mut i: usize = 0;
        while i < n
            invariant
                n == keys@.len(),
                i <= n,
                keys@.to_set() == m0.dom(),
                keys@.no_duplicates(),
                cooldown == cd,
                cd == cooldown_ns(self.config()),
                self.same_but_alerts(*old(self)),
                m0 == old(self).active_alerts@,
                self.active_alerts@ == Map::new(
                    |k: u64|
                        m0.contains_key(k) && (keys@.take(i as int).contains(k) ==> !is_stale(
                            m0[k].last_alerted,
                            now,
                            cd,
                        )),
                    |k: u64| m0[k],
                ),
                rk.no_duplicates(),
                rk.len() == ids@.len(),
                forall|j: int|
                    0 <= j < rk.len() ==> {
                        &&& m0.contains_key(#[trigger] rk[j])
                        &&& is_stale(m0[rk[j]].last_alerted, now, cd)
                        &&& ids@[j]@ == m0[rk[j]].alert.id@
                        &&& keys@.take(i as int).contains(rk[j])
                    },
                forall|k: u64|
                    #[trigger] m0.contains_key(k) && is_stale(m0[k].last_alerted, now, cd) && keys@.take(
                        i as int,
                    ).contains(k) ==> rk.contains(k),
            decreases n - i,
        {
            let key = keys[i];
            let ghost rk_before = rk;
            proof {
                crate::rate_tracker::lemma_take_next(keys@, i as int);
                assert(m0.contains_key(key)) by {
                    assert(keys@.to_set().contains(key));
                }
            }
            let stale = match self.active_alerts.get(&key) {
                Some(st) => Self::stale_at(st.last_alerted, now, cooldown),
                None => false,
            };
            if stale {
                let ghost before = self.active_alerts@;
                match self.active_alerts.remove(&key) {
                    Some(st) => {
                        ids.push(st.alert.id);
                        proof {
                            rk = rk.push(key);
                        }
                    },
                    None => {},
                }
            }
            proof {
                assert(self.active_alerts@ =~= Map::new(
                    |k: u64|
                        m0.contains_key(k) && (keys@.take(i + 1).contains(k) ==> !is_stale(
                            m0[k].last_alerted,
                            now,
                            cd,
                        )),
                    |k: u64| m0[k],
                ));
                assert forall|j: int| 0 <= j < rk.len() implies keys@.take(i + 1).contains(#[trigger] rk[j]) by {
                    if j < rk.len() - 1 || !stale {
                        assert(keys@.take(i as int).contains(rk[j]));
                    }
                }
                assert forall|k: u64|
                    #[trigger] m0.contains_key(k) && is_stale(m0[k].last_alerted, now, cd) && keys@.take(
                        i + 1,
                    ).contains(k) implies rk.contains(k) by {
                    if k == key {
                        assert(rk[rk.len() - 1] == key);
                    } else {
                        assert(keys@.take(i as int).contains(k));
                        assert(rk_before.contains(k));
                        let j = choose|j: int| 0 <= j < rk_before.len() && rk_before[j] == k;
                        assert(rk[j] == k);
                    }
                }
            }
            i = i + 1;
        }
        proof {
            assert(keys@.take(n as int) =~= keys@);
            let ks = rk.map_values(|k: u64| pair_of(k));
            let idv = id_texts(ids@);
            assert forall|k: u64| #[trigger] m0.contains_key(k) implies keys@.contains(k) by {
                assert(keys@.to_set().contains(k));
            }
            assert forall|j: int| 0 <= j < rk.len() implies alert_key(ks[j].0, ks[j].1) == rk[j] by {
                lemma_pair_of(rk[j]);
            }
            assert forall|a: int, b: int| 0 <= a < ks.len() && 0 <= b < ks.len() && a != b implies ks[a] != ks[b] by {
                assert(alert_key(ks[a].0, ks[a].1) == rk[a]);
                assert(alert_key(ks[b].0, ks[b].1) == rk[b]);
            }
            assert forall|kk: (u32, AttackType)|
                #[trigger] a0.contains_key(kk) && is_stale(a0[kk].1, now, cd) implies ks.contains(kk) by {
                let k = alert_key(kk.0, kk.1);
                lemma_alert_key(kk.0, kk.1);
                assert(rk.contains(k));
                let j = choose|j: int| 0 <= j < rk.len() && rk[j] == k;
                assert(ks[j] == kk);
            }
            assert(lists_stale(a0, now, cd, ks, idv));
            assert(self.active() =~= unstale(a0, now, cd));
        }
        proof {
            if old(self).ids_unique() {
                lemma_unstale_keeps_ids(old(self).active(), now, cooldown_ns(old(self).config()), old(self).alerts_raised());
            }
        }
        ids
    }

    /// Create or refresh the alert of (`ip`, `attack`): an active one is
    /// refreshed and nothing is returned; otherwise a new alert is raised,
    /// stale alerts are cleared, and the new alert is returned.
    fn maybe_alert(&mut self, ip: [u8; 4], attack: AttackType, pps: PacketRate, now: u64) -> (r: Option<Alert>)
        requires
            old(self).wf(),
            old(self).alerts_match_keys(),
            !old(self).active().contains_key((ipv4_value(ip), attack)) ==> old(self).alerts_raised() < u64::MAX,
        ensures
            final(self).wf(),
            final(self).alerts_match_keys(),
            final(self).config() == old(self).config(),
            forall|a: AttackType| #[trigger] final(self).tracker(a) == old(self).tracker(a),
            ({
                let k = (ipv4_value(ip), attack);
                let cd = cooldown_ns(old(self).config());
                if old(self).active().contains_key(k) {
                    &&& r is None
                    &&& final(self).alerts_raised() == old(self).alerts_raised()
                    &&& final(self).active() == old(self).active().insert(
                        k,
                        (refreshed(old(self).active()[k].0, pps, now), now),
                    )
                } else {
                    &&& r matches Some(a) && a@ == new_alert(
                        old(self).alerts_raised() + 1,
                        ip,
                        attack,
                        pps,
                        now,
                    )
                    &&& final(self).alerts_raised() == old(self).alerts_raised() + 1
                    &&& final(self).active() == unstale(
                        old(self).active().insert(
                            k,
                            (new_alert(old(self).alerts_raised() + 1, ip, attack, pps, now), now),
                        ),
                        cleanup_time(now, cd),
                        cd,
                    )
                }
            }),
    {
        let key = Self::key_of(ip, attack);
        let ghost k = (ipv4_value(ip), attack);
        let ghost a0 = self.active();
        proof {
            lemma_alert_key(k.0, k.1);
        }
        match self.active_alerts.remove(&key) {
            Some(state) => {
                // Update the existing alert's last-seen time and rate, but do not re-emit it.
                let AlertState { mut alert, last_alerted: _ } = state;
                alert.last_seen_at = now;
                alert.packets_per_second = pps;
                self.active_alerts.insert(key, AlertState { alert, last_alerted: now });
                proof {
                    assert forall|kk: (u32, AttackType)| #[trigger] self.active().contains_key(kk) implies a0.insert(
                        k,
                        (refreshed(a0[k].0, pps, now), now),
                    ).contains_key(kk) && self.active()[kk] == a0.insert(
                        k,
                        (refreshed(a0[k].0, pps, now), now),
                    )[kk] by {
                        lemma_alert_key(kk.0, kk.1);
                        if alert_key(kk.0, kk.1) == key {
                            lemma_alert_key_injective(kk.0, kk.1, k.0, k.1);
                        }
                    }
                    assert forall|kk: (u32, AttackType)| #[trigger] a0.insert(
                        k,
                        (refreshed(a0[k].0, pps, now), now),
                    ).contains_key(kk) implies self.active().contains_key(kk) by {
                        lemma_alert_key(kk.0, kk.1);
                    }
                    assert(self.active() =~= a0.insert(k, (refreshed(a0[k].0, pps, now), now)));
                }
                None
            },
            None => {
                self.alert_counter = self.alert_counter + 1;
                let severity = Self::classify_severity(attack, pps);
                let alert = Alert {
                    id: format_alert_id(self.alert_counter),
                    attack_type: attack,
                    severity,
                    source_ip: ip,
                    packets_per_second: pps,
                    started_at: now,
                    last_seen_at: now,
                    status: AlertStatus::Active,
                };
                self.active_alerts.insert(key, AlertState { alert: alert.duplicate(), last_alerted: now });
                let ghost a1 = self.active();
                proof {
                    assert forall|kk: (u32, AttackType)| #[trigger] a1.contains_key(kk) implies a0.insert(
                        k,
                        (alert@, now),
                    ).contains_key(kk) && a1[kk] == a0.insert(k, (alert@, now))[kk] by {
                        lemma_alert_key(kk.0, kk.1);
                        if alert_key(kk.0, kk.1) == key {
                            lemma_alert_key_injective(kk.0, kk.1, k.0, k.1);
                        }
                    }
                    assert forall|kk: (u32, AttackType)| #[trigger] a0.insert(k, (alert@, now)).contains_key(
                        kk,
                    ) implies a1.contains_key(kk) by {
                        lemma_alert_key(kk.0, kk.1);
                    }
                    assert(a1 =~= a0.insert(k, (alert@, now)));
                }
                // Clear out entries that went stale long ago.
                let cooldown = self.cooldown();
                let cleanup = Self::cleanup_at(now, cooldown);
                let _ = self.resolve_stale_alerts(cleanup);
                Some(alert)
            },
        }
    }

    fn cleanup_at(now: u64, cooldown: u128) -> (t: u64)
        ensures
            t == cleanup_time(now, cooldown as int),
    {
        if (now as u128) >= cooldown {
            ((now as u128) - cooldown) as u64
        } else {
            now
        }
    }

    /// What processing `meta` at `now` does: `after` is the engine
    /// afterwards and `alerts` the alerts raised.
    pub open spec fn packet_step(self, meta: PacketMetadata, now: u64, after: Self, alerts: Seq<AlertView>) -> bool {
        match attack_for(meta) {
            None => {
                &&& alerts.len() == 0
                &&& after.alerts_raised() == self.alerts_raised()
                &&& after.active() == self.active()
                &&& forall|a: AttackType| #[trigger] after.tracker(a) == self.tracker(a)
            },
            Some(attack) => {
                let ip = meta.src_ip;
                let k = (ipv4_value(ip), attack);
                let rate = self.rate_after(attack, ip, now);
                let cd = cooldown_ns(self.config());
                &&& after.tracker(attack)@ == evict_key(
                    with_arrival(self.tracker(attack)@, ipv4_value(ip), now),
                    ipv4_value(ip),
                    window_cutoff(now, self.tracker(attack).window()),
                )
                &&& after.tracker(attack).window() == self.tracker(attack).window()
                &&& forall|other: AttackType|
                    other != attack && other != AttackType::DnsAmplification
                        ==> #[trigger] after.tracker(other) == self.tracker(other)
                &&& if !rate.reaches(threshold_for(self.config(), attack)) {
                    &&& alerts.len() == 0
                    &&& after.alerts_raised() == self.alerts_raised()
                    &&& after.active() == self.active()
                } else if self.active().contains_key(k) {
                    &&& alerts.len() == 0
                    &&& after.alerts_raised() == self.alerts_raised()
                    &&& after.active() == self.active().insert(
                        k,
                        (refreshed(self.active()[k].0, rate, now), now),
                    )
                } else {
                    &&& alerts.len() == 1
                    &&& alerts[0] == new_alert(self.alerts_raised() + 1, ip, attack, rate, now)
                    &&& after.alerts_raised() == self.alerts_raised() + 1
                    &&& after.active() == unstale(
                        self.active().insert(
                            k,
                            (new_alert(self.alerts_raised() + 1, ip, attack, rate, now), now),
                        ),
                        cleanup_time(now, cd),
                        cd,
                    )
                }
            },
        }
    }

    /// Process a single packet arriving at `now` and return the alerts it
    /// raises: a SYN-without-ACK TCP packet counts towards a SYN flood, a
    /// UDP packet towards a UDP flood, an ICMP packet towards an ICMP flood
    /// of its source address; once that rate reaches the flood's threshold,
    /// the alert of (address, flood) is raised, or refreshed if active.
    pub fn process_packet(&mut self, meta: &PacketMetadata, now: u64) -> (alerts: Vec<Alert>)
        requires
            old(self).wf(),
            old(self).alerts_match_keys(),
            old(self).ids_unique(),
            old(self).raises_alert(*meta, now) ==> old(self).alerts_raised() < u64::MAX,
        ensures
            final(self).wf(),
            final(self).alerts_match_keys(),
            final(self).ids_unique(),
            final(self).config() == old(self).config(),
            old(self).packet_step(*meta, now, *final(self), alert_views(alerts@)),
    {
        let ghost start = *self;
        let mut new_alerts: Vec<Alert> = Vec::new();
        let attack = match meta.protocol {
            Protocol::Tcp => match meta.tcp_flags {
                Some(flags) => if flags.syn && !flags.ack {
                    Some(AttackType::SynFlood)
                } else {
                    None
                },
                None => None,
            },
            Protocol::Udp => Some(AttackType::UdpFlood),
            Protocol::Icmp => Some(AttackType::IcmpFlood),
            Protocol::Other => None,
        };
        if let Some(attack) = attack {
            let ghost e0 = *self;
            let pps = self.observe(attack, meta.src_ip, now);
            proof {
                assert(self.active() =~= e0.active());
            }
            let threshold = self.threshold(attack);
            if pps.at_least(threshold) {
                if let Some(alert) = self.maybe_alert(meta.src_ip, attack, pps, now) {
                    new_alerts.push(alert);
                }
            }
        }
        proof {
            lemma_step_keeps_ids(start, *meta, now, *self, alert_views(new_alerts@));
        }
        new_alerts
    }

    fn threshold(&self, attack: AttackType) -> (t: u64)
        ensures
            t == threshold_for(self.config(), attack),
    {
        match attack {
            AttackType::SynFlood => self.config.syn_flood_threshold_pps,
            AttackType::UdpFlood => self.config.udp_flood_threshold_pps,
            AttackType::IcmpFlood => self.config.icmp_flood_threshold_pps,
            AttackType::DnsAmplification => self.config.dns_amplification_threshold_pps,
        }
    }

    /// All currently active alerts, each once, in no particular order.
    pub fn active_alerts(&self) -> (alerts: Vec<Alert>)
        requires
            self.wf(),
            self.alerts_match_keys(),
            self.ids_unique(),
        ensures
            exists|ks: Seq<(u32, AttackType)>|
                #[trigger] lists_active(self.active(), ks, alert_views(alerts@)),
            forall|i: int| 0 <= i < alerts@.len() ==> (#[trigger] alerts@[i]).status == AlertStatus::Active,
            forall|i: int, j: int|
                0 <= i < alerts@.len() && 0 <= j < alerts@.len() && i != j ==> !(ipv4_value(
                    #[trigger] alerts@[i].source_ip,
                ) == ipv4_value(#[trigger] alerts@[j].source_ip) && alerts@[i].attack_type == alerts@[j].attack_type),
            forall|i: int, j: int|
                0 <= i < alerts@.len() && 0 <= j < alerts@.len() && i != j ==> (#[trigger] alerts@[i]).id@ != (
                #[trigger] alerts@[j]).id@,
            (alerts@.len() == 0) == (self.active() == Map::<(u32, AttackType), (AlertView, u64)>::empty()),
    {
        let keys = self.alert_keys();
        let n = keys.len();
        let ghost m0 = self.active_alerts@;
        let mut alerts: Vec<Alert> = Vec::new();
        let mut i: usize = 0;
        while i < n
            invariant
                n == keys@.len(),
                i <= n,
                keys@.to_set() == m0.dom(),
                keys@.no_duplicates(),
                m0 == self.active_alerts@,
                alerts@.len() == i,
                forall|j: int| 0 <= j < i ==> (#[trigger] alerts@[j])@ == m0[keys@[j]].alert@,
            decreases n - i,
        {
            let key = keys[i];
            proof {
                assert(keys@.to_set().contains(key));
            }
            match self.active_alerts.get(&key) {
                Some(state) => alerts.push(state.alert.duplicate()),
                None => {},
            }
            i = i + 1;
        }
        proof {
            let ks = keys@.map_values(|k: u64| pair_of(k));
            let a0 = self.active();
            assert forall|k: u64| #[trigger] m0.contains_key(k) implies keys@.contains(k) by {
                assert(keys@.to_set().contains(k));
            }
            assert forall|j: int| 0 <= j < keys@.len() implies alert_key(ks[j].0, ks[j].1) == keys@[j] by {
                assert(m0.contains_key(keys@[j])) by {
                    assert(keys@.to_set().contains(keys@[j]));
                }
                lemma_pair_of(keys@[j]);
            }
            assert forall|a: int, b: int| 0 <= a < ks.len() && 0 <= b < ks.len() && a != b implies ks[a] != ks[b] by {
                assert(alert_key(ks[a].0, ks[a].1) == keys@[a]);
                assert(alert_key(ks[b].0, ks[b].1) == keys@[b]);
            }
            assert forall|kk: (u32, AttackType)| #[trigger] a0.contains_key(kk) implies ks.contains(kk) by {
                let k = alert_key(kk.0, kk.1);
                lemma_alert_key(kk.0, kk.1);
                assert(keys@.contains(k));
                let j = choose|j: int| 0 <= j < keys@.len() && keys@[j] == k;
                assert(ks[j] == kk);
            }
            assert(lists_active(a0, ks, alert_views(alerts@)));
            lemma_listed_active(*self, ks, alert_views(alerts@));
            assert forall|i: int| 0 <= i < alerts@.len() implies #[trigger] alert_views(alerts@)[i] == alerts@[i]@ by {}
        }
        alerts
    }

    /// The severity of an attack of this type at this rate.
    pub fn classify_severity(attack_type: AttackType, pps: PacketRate) -> (s: AlertSeverity)
        ensures
            s == severity_for(attack_type, pps),
    {
        match attack_type {
            AttackType::SynFlood => {
                if pps.exceeds(20_000) {
                    AlertSeverity::Critical
                } else if pps.exceeds(5_000) {
                    AlertSeverity::High
                } else {
                    AlertSeverity::Medium
                }
            },
            AttackType::UdpFlood => {
                if pps.exceeds(50_000) {
                    AlertSeverity::Critical
                } else if pps.exceeds(20_000) {
                    AlertSeverity::High
                } else {
                    AlertSeverity::Medium
                }
            },
            AttackType::IcmpFlood => {
                if pps.exceeds(10_000) {
                    AlertSeverity::High
                } else if pps.exceeds(5_000) {
                    AlertSeverity::Medium
                } else {
                    AlertSeverity::Low
                }
            },
            AttackType::DnsAmplification => {
                if pps.exceeds(2_000) {
                    AlertSeverity::Critical
                } else {
                    AlertSeverity::High
                }
            },
        }
    }
}

/// Severity grows with the rate: of two rates of the same attack type, the
/// higher one is classified at least as severe.
pub proof fn lemma_severity_monotone(attack: AttackType, low: PacketRate, high: PacketRate)
    requires
        low.seconds > 0,
        high.seconds > 0,
        low.packets * high.seconds <= high.packets * low.seconds,
    ensures
        severity_for(attack, low).rank() <= severity_for(attack, high).rank(),
{
    assert forall|t: u64| low.above(t) implies high.above(t) by {
        lemma_above_transfers(low.packets as int, low.seconds as int, high.packets as int, high.seconds as int, t as int);
    }
}

proof fn lemma_above_transfers(p1: int, s1: int, p2: int, s2: int, t: int)
    by (nonlinear_arith)
    requires
        s1 > 0,
        s2 > 0,
        t >= 0,
        p1 * s2 <= p2 * s1,
        p1 > t * s1,
    ensures
        p2 > t * s2,
{
}

/// The alerts that list the active alerts of a well-kept engine are all
/// active, of distinct (address, attack type) pairs, with distinct
/// identifiers; there are none exactly when no alert is active.
proof fn lemma_listed_active(e: DetectionEngine, ks: Seq<(u32, AttackType)>, alerts: Seq<AlertView>)
    requires
        e.alerts_match_keys(),
        e.ids_unique(),
        lists_active(e.active(), ks, alerts),
    ensures
        forall|i: int| 0 <= i < alerts.len() ==> (#[trigger] alerts[i]).status == AlertStatus::Active,
        forall|i: int, j: int|
            0 <= i < alerts.len() && 0 <= j < alerts.len() && i != j ==> !(ipv4_value(#[trigger] alerts[i].source_ip)
                == ipv4_value(#[trigger] alerts[j].source_ip) && alerts[i].attack_type == alerts[j].attack_type),
        forall|i: int, j: int|
            0 <= i < alerts.len() && 0 <= j < alerts.len() && i != j ==> (#[trigger] alerts[i]).id != (
            #[trigger] alerts[j]).id,
        (alerts.len() == 0) == (e.active() == Map::<(u32, AttackType), (AlertView, u64)>::empty()),
{
    let m = e.active();
    assert forall|i: int| 0 <= i < alerts.len() implies (#[trigger] alerts[i]).status == AlertStatus::Active by {
        assert(m.contains_key(ks[i]));
    }
    assert forall|i: int, j: int|
        0 <= i < alerts.len() && 0 <= j < alerts.len() && i != j implies !(ipv4_value(
            #[trigger] alerts[i].source_ip,
        ) == ipv4_value(#[trigger] alerts[j].source_ip) && alerts[i].attack_type == alerts[j].attack_type) && (
        alerts[i]).id != (alerts[j]).id by {
        assert(m.contains_key(ks[i]) && m.contains_key(ks[j]));
        assert(ks[i] != ks[j]);
        assert((ipv4_value(alerts[i].source_ip), alerts[i].attack_type) == ks[i]);
        assert((ipv4_value(alerts[j].source_ip), alerts[j].attack_type) == ks[j]);
        assert(alerts[i].id == m[ks[i]].0.id && alerts[j].id == m[ks[j]].0.id);
        assert(m[ks[i]].0.id != m[ks[j]].0.id);
    }
    assert forall|i: int, j: int|
        0 <= i < alerts.len() && 0 <= j < alerts.len() && i != j implies (#[trigger] alerts[i]).id != (
        #[trigger] alerts[j]).id by {
        assert(m.contains_key(ks[i]) && m.contains_key(ks[j]));
        assert(ks[i] != ks[j]);
        assert(alerts[i].id == m[ks[i]].0.id && alerts[j].id == m[ks[j]].0.id);
        assert(m[ks[i]].0.id != m[ks[j]].0.id);
    }
    if alerts.len() == 0 {
        assert forall|k: (u32, AttackType)| !m.contains_key(k) by {
            if m.contains_key(k) {
                assert(ks.contains(k));
            }
        }
        assert(m =~= Map::<(u32, AttackType), (AlertView, u64)>::empty());
    } else {
        assert(m.contains_key(ks[0]));
    }
}

/// Resolution keeps identifiers distinct: it only drops alerts.
proof fn lemma_unstale_keeps_ids(m: Map<(u32, AttackType), (AlertView, u64)>, now: u64, cooldown: int, raised: u64)
    requires
        ids_ok(m, raised),
    ensures
        ids_ok(unstale(m, now, cooldown), raised),
{
    let u = unstale(m, now, cooldown);
    assert forall|k: (u32, AttackType)| #[trigger] u.contains_key(k) implies exists|n: nat|
        1 <= n <= raised && u[k].0.id == #[trigger] alert_id_text(n) by {
        assert(m.contains_key(k));
    }
    assert forall|k1: (u32, AttackType), k2: (u32, AttackType)|
        #[trigger] u.contains_key(k1) && #[trigger] u.contains_key(k2) && k1 != k2 implies u[k1].0.id != u[k2].0.id by {
        assert(m.contains_key(k1) && m.contains_key(k2));
    }
}

/// Processing a packet keeps the active identifiers distinct: a refresh
/// keeps an alert's identifier, and a new alert takes the next alert
/// number, which no active alert carries.
proof fn lemma_step_keeps_ids(
    before: DetectionEngine,
    meta: PacketMetadata,
    now: u64,
    after: DetectionEngine,
    alerts: Seq<AlertView>,
)
    requires
        before.packet_step(meta, now, after, alerts),
        before.ids_unique(),
    ensures
        after.ids_unique(),
{
    let m = before.active();
    let raised = before.alerts_raised();
    match attack_for(meta) {
        None => {},
        Some(attack) => {
            let ip = meta.src_ip;
            let k = (ipv4_value(ip), attack);
            let rate = before.rate_after(attack, ip, now);
            let cd = cooldown_ns(before.config());
            if !rate.reaches(threshold_for(before.config(), attack)) {
            } else if m.contains_key(k) {
                let m2 = m.insert(k, (refreshed(m[k].0, rate, now), now));
                assert forall|j: (u32, AttackType)| #[trigger] m2.contains_key(j) implies exists|n: nat|
                    1 <= n <= raised && m2[j].0.id == #[trigger] alert_id_text(n) by {
                    assert(m.contains_key(j));
                    assert(m2[j].0.id == m[j].0.id);
                }
                assert forall|k1: (u32, AttackType), k2: (u32, AttackType)|
                    #[trigger] m2.contains_key(k1) && #[trigger] m2.contains_key(k2) && k1 != k2 implies m2[k1].0.id
                    != m2[k2].0.id by {
                    assert(m.contains_key(k1) && m.contains_key(k2));
                    assert(m2[k1].0.id == m[k1].0.id && m2[k2].0.id == m[k2].0.id);
                }
                assert(ids_ok(m2, raised));
            } else {
                let r1 = (raised + 1) as u64;
                let a = new_alert(raised + 1, ip, attack, rate, now);
                let m2 = m.insert(k, (a, now));
                assert(a.id == alert_id_text(r1 as nat));
                assert forall|j: (u32, AttackType)| #[trigger] m2.contains_key(j) implies exists|n: nat|
                    1 <= n <= r1 && m2[j].0.id == #[trigger] alert_id_text(n) by {
                    if j == k {
                        assert(m2[j].0.id == alert_id_text(r1 as nat));
                    } else {
                        assert(m.contains_key(j));
                        let n = choose|n: nat| 1 <= n <= raised && m[j].0.id == #[trigger] alert_id_text(n);
                        assert(m2[j].0.id == alert_id_text(n));
                    }
                }
                assert forall|k1: (u32, AttackType), k2: (u32, AttackType)|
                    #[trigger] m2.contains_key(k1) && #[trigger] m2.contains_key(k2) && k1 != k2 implies m2[k1].0.id
                    != m2[k2].0.id by {
                    if k1 == k {
                        assert(m.contains_key(k2));
                        let n = choose|n: nat| 1 <= n <= raised && m[k2].0.id == #[trigger] alert_id_text(n);
                        lemma_alert_ids_distinct(r1 as nat, n);
                    } else if k2 == k {
                        assert(m.contains_key(k1));
                        let n = choose|n: nat| 1 <= n <= raised && m[k1].0.id == #[trigger] alert_id_text(n);
                        lemma_alert_ids_distinct(r1 as nat, n);
                    } else {
                        assert(m.contains_key(k1) && m.contains_key(k2));
                    }
                }
                assert(ids_ok(m2, r1));
                lemma_unstale_keeps_ids(m2, cleanup_time(now, cd), cd, r1);
            }
        },
    }
}

/// What raises an alert: a TCP packet with SYN and without ACK counts
/// towards a SYN flood of its source, a UDP packet towards a UDP flood, an
/// ICMP packet towards an ICMP flood, and nothing else counts; each flood
/// is held against its own threshold of the configuration; and a packet
/// raises an alert exactly when the packets of its source and flood within
/// the window number at least the threshold times the window's seconds
/// and no alert of that source and flood is active.
pub proof fn lemma_detection_rule(e: DetectionEngine, meta: PacketMetadata, now: u64)
    ensures
        attack_for(meta) == Some(AttackType::SynFlood) <==> (meta.protocol == Protocol::Tcp && meta.tcp_flags is Some
            && meta.tcp_flags->0.syn && !meta.tcp_flags->0.ack),
        attack_for(meta) == Some(AttackType::UdpFlood) <==> meta.protocol == Protocol::Udp,
        attack_for(meta) == Some(AttackType::IcmpFlood) <==> meta.protocol == Protocol::Icmp,
        attack_for(meta) != Some(AttackType::DnsAmplification),
        threshold_for(e.config(), AttackType::SynFlood) == e.config().syn_flood_threshold_pps,
        threshold_for(e.config(), AttackType::UdpFlood) == e.config().udp_flood_threshold_pps,
        threshold_for(e.config(), AttackType::IcmpFlood) == e.config().icmp_flood_threshold_pps,
        threshold_for(e.config(), AttackType::DnsAmplification) == e.config().dns_amplification_threshold_pps,
        attack_for(meta) matches Some(a) ==> (e.raises_alert(meta, now) <==> (e.rate_after(a, meta.src_ip, now).packets
            >= threshold_for(e.config(), a) * e.rate_after(a, meta.src_ip, now).seconds && !e.active().contains_key(
            (ipv4_value(meta.src_ip), a),
        ))),
        attack_for(meta) is None ==> !e.raises_alert(meta, now),
{
}

/// The severity scale of each attack type, in packets per second over the
/// rate's window (`p` packets over `s` seconds is above `x` pps when
/// `p > x * s`): a SYN flood is Critical above 20,000, High above 5,000 and
/// Medium otherwise; a UDP flood Critical above 50,000, High above 20,000,
/// Medium otherwise; an ICMP flood High above 10,000, Medium above 5,000,
/// Low otherwise; DNS amplification Critical above 2,000, High otherwise.
pub proof fn lemma_severity_scale(attack: AttackType, rate: PacketRate)
    ensures
        attack == AttackType::SynFlood ==> severity_for(attack, rate) == (if rate.packets > 20_000 * rate.seconds {
            AlertSeverity::Critical
        } else if rate.packets > 5_000 * rate.seconds {
            AlertSeverity::High
        } else {
            AlertSeverity::Medium
        }),
        attack == AttackType::UdpFlood ==> severity_for(attack, rate) == (if rate.packets > 50_000 * rate.seconds {
            AlertSeverity::Critical
        } else if rate.packets > 20_000 * rate.seconds {
            AlertSeverity::High
        } else {
            AlertSeverity::Medium
        }),
        attack == AttackType::IcmpFlood ==> severity_for(attack, rate) == (if rate.packets > 10_000 * rate.seconds {
            AlertSeverity::High
        } else if rate.packets > 5_000 * rate.seconds {
            AlertSeverity::Medium
        } else {
            AlertSeverity::Low
        }),
        attack == AttackType::DnsAmplification ==> severity_for(attack, rate) == (if rate.packets > 2_000
            * rate.seconds {
            AlertSeverity::Critical
        } else {
            AlertSeverity::High
        }),
{
}

/// Resolution respects the cooldown of `alert_cooldown_seconds` seconds,
/// counted in nanoseconds on the detection clock: an alert last raised or
/// refreshed at `t` survives a resolution at any time up to
/// `t + alert_cooldown_seconds * 1_000_000_000` and is resolved by one after.
pub proof fn lemma_resolution_respects_cooldown(before: DetectionEngine, now: u64, after: DetectionEngine, k: (
    u32,
    AttackType,
))
    requires
        after.active() == unstale(before.active(), now, cooldown_ns(before.config())),
        before.active().contains_key(k),
    ensures
        now <= before.active()[k].1 + before.config().alert_cooldown_seconds * 1_000_000_000 ==> after.active().contains_key(k)
            && after.active()[k] == before.active()[k],
        now > before.active()[k].1 + before.config().alert_cooldown_seconds * 1_000_000_000 ==> !after.active().contains_key(
            k,
        ),
{
}

/// An attack is alerted on once while its alert is active: a further
/// packet of a source and attack type whose alert is active raises no new
/// alert, keeps that alert active, and leaves the alert counter unchanged.
pub proof fn lemma_active_alert_not_raised_again(
    before: DetectionEngine,
    meta: PacketMetadata,
    now: u64,
    after: DetectionEngine,
    alerts: Seq<AlertView>,
    attack: AttackType,
)
    requires
        before.packet_step(meta, now, after, alerts),
        attack_for(meta) == Some(attack),
        before.active().contains_key((ipv4_value(meta.src_ip), attack)),
    ensures
        alerts.len() == 0,
        after.alerts_raised() == before.alerts_raised(),
        after.active().contains_key((ipv4_value(meta.src_ip), attack)),
{
}

/// Resolving again at the same time changes nothing: the alerts left by a
/// resolution at `now` are all fresh at `now`, so a second resolution at
/// `now` keeps them all and lists no identifier.
pub proof fn lemma_resolve_idempotent(
    m: Map<(u32, AttackType), (AlertView, u64)>,
    now: u64,
    cooldown: int,
    ks: Seq<(u32, AttackType)>,
    ids: Seq<Seq<char>>,
)
    requires
        lists_stale(unstale(m, now, cooldown), now, cooldown, ks, ids),
    ensures
        unstale(unstale(m, now, cooldown), now, cooldown) == unstale(m, now, cooldown),
        ids.len() == 0,
{
    assert(unstale(unstale(m, now, cooldown), now, cooldown) =~= unstale(m, now, cooldown));
    if ks.len() > 0 {
        assert(unstale(m, now, cooldown).contains_key(ks[0]));
    }
}

/// A newly raised alert is active: the clean-up that follows raising it
/// never removes it, and it stays active until a resolution more than one
/// cooldown after it was raised.
pub proof fn lemma_raised_alert_stays_active(
    m: Map<(u32, AttackType), (AlertView, u64)>,
    k: (u32, AttackType),
    alert: AlertView,
    now: u64,
    later: u64,
    cooldown: int,
)
    requires
        cooldown >= 0,
    ensures
        unstale(m.insert(k, (alert, now)), cleanup_time(now, cooldown), cooldown).contains_key(k),
        unstale(m.insert(k, (alert, now)), cleanup_time(now, cooldown), cooldown)[k] == (alert, now),
        unstale(m.insert(k, (alert, now)), later, cooldown).contains_key(k) <==> later - now <= cooldown,
{
}

} // verus!
