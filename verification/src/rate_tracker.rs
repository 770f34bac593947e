use std::collections::HashMap;
use std::collections::VecDeque;
use vstd::prelude::*;
use vstd::std_specs::iter::IteratorSpec;

use crate::packet::{ipv4_from_u32, ipv4_to_u32, ipv4_value};

verus! {

broadcast use vstd::std_specs::hash::group_hash_axioms;

/// A packet rate: `packets` packets per `seconds` seconds.
#[derive(Debug, Clone, Copy, PartialEq, Eq, Structural)]
pub struct PacketRate {
    pub packets: u64,
    pub seconds: u64,
}

proof fn lemma_product_fits(a: u64, b: u64)
    ensures
        (a as u128) * (b as u128) <= u128::MAX,
{
    assert((a as u128) * (b as u128) <= 0xFFFF_FFFF_FFFF_FFFFu128 * 0xFFFF_FFFF_FFFF_FFFFu128) by (nonlinear_arith);
}

impl PacketRate {
    /// The rate is at least `pps` packets per second.
    pub open spec fn reaches(self, pps: u64) -> bool {
        self.packets >= pps * self.seconds
    }

    /// The rate is more than `pps` packets per second.
    pub open spec fn above(self, pps: u64) -> bool {
        self.packets > pps * self.seconds
    }

    /// Whether the rate is at least `pps` packets per second.
    pub fn at_least(&self, pps: u64) -> (b: bool)
        ensures
            b == self.reaches(pps),
    {
        proof {
            lemma_product_fits(pps, self.seconds);
        }
        (self.packets as u128) >= (pps as u128) * (self.seconds as u128)
    }

    /// Whether the rate is more than `pps` packets per second.
    pub fn exceeds(&self, pps: u64) -> (b: bool)
        ensures
            b == self.above(pps),
    {
        proof {
            lemma_product_fits(pps, self.seconds);
        }
        (self.packets as u128) > (pps as u128) * (self.seconds as u128)
    }
}

/// Nanoseconds in a second.
pub const NANOS_PER_SEC: u64 = 1_000_000_000;

/// The earliest arrival time that a window of `window_secs` seconds ending
/// at `now` still holds (never before the clock's zero).
pub open spec fn window_cutoff(now: u64, window_secs: u64) -> int {
    if now >= window_secs * NANOS_PER_SEC {
        now - window_secs * NANOS_PER_SEC
    } else {
        0
    }
}

/// A window of `w` seconds ending at `now` (nanoseconds) starts
/// `w * 1_000_000_000` nanoseconds earlier, or at the clock's zero when
/// that is before it; an arrival at `t` is in the window exactly when
/// `now - t <= w * 1_000_000_000` or the window reaches back to zero.
pub proof fn lemma_window_cutoff(now: u64, w: u64, t: u64)
    ensures
        window_cutoff(now, w) == if now >= w * 1_000_000_000 {
            now - w * 1_000_000_000
        } else {
            0
        },
        t <= now ==> (t >= window_cutoff(now, w) <==> (now - t <= w * 1_000_000_000 || now < w * 1_000_000_000)),
{
}

/// An arrival queue with the arrivals before `cutoff` at its front removed.
pub open spec fn evicted(q: Seq<u64>, cutoff: int) -> Seq<u64>
    decreases q.len(),
{
    if q.len() > 0 && q[0] < cutoff {
        evicted(q.drop_first(), cutoff)
    } else {
        q
    }
}

/// The arrival queues with that of `key` evicted, and dropped once empty.
pub open spec fn evict_key(m: Map<u32, Seq<u64>>, key: u32, cutoff: int) -> Map<u32, Seq<u64>> {
    if m.contains_key(key) {
        if evicted(m[key], cutoff).len() == 0 {
            m.remove(key)
        } else {
            m.insert(key, evicted(m[key], cutoff))
        }
    } else {
        m
    }
}

/// The arrival queues with every queue evicted and the empty ones dropped.
pub open spec fn evict_all(m: Map<u32, Seq<u64>>, cutoff: int) -> Map<u32, Seq<u64>> {
    Map::new(|k: u32| m.contains_key(k) && evicted(m[k], cutoff).len() > 0, |k: u32| evicted(m[k], cutoff))
}

/// The arrival queues with an arrival at time `t` appended to that of `key`.
pub open spec fn with_arrival(m: Map<u32, Seq<u64>>, key: u32, t: u64) -> Map<u32, Seq<u64>> {
    m.insert(key, if m.contains_key(key) { m[key].push(t) } else { seq![t] })
}

/// The arrival queues with `done` evicted and the rest untouched.
pub open spec fn evict_some(m: Map<u32, Seq<u64>>, done: Seq<u32>, cutoff: int) -> Map<u32, Seq<u64>> {
    Map::new(
        |k: u32| m.contains_key(k) && (done.contains(k) ==> evicted(m[k], cutoff).len() > 0),
        |k: u32| if done.contains(k) { evicted(m[k], cutoff) } else { m[k] },
    )
}

/// Number of arrivals that a queue map holds for `key`.
pub open spec fn arrivals_of(m: Map<u32, Seq<u64>>, key: u32) -> nat {
    if m.contains_key(key) { m[key].len() } else { 0 }
}

/// Taking one more element of a sequence without duplicates adds exactly
/// that element, which the shorter prefix does not hold.
pub(crate) proof fn lemma_take_next<A>(s: Seq<A>, i: int)
    requires
        0 <= i < s.len(),
        s.no_duplicates(),
    ensures
        !s.take(i).contains(s[i]),
        forall|x: A| #[trigger] s.take(i + 1).contains(x) <==> (s.take(i).contains(x) || x == s[i]),
{
    assert(s.take(i + 1) =~= s.take(i).push(s[i]));
    if s.take(i).contains(s[i]) {
        let j = choose|j: int| 0 <= j < i && #[trigger] s.take(i)[j] == s[i];
        assert(s[j] == s[i]);
    }
    assert forall|x: A| #[trigger] s.take(i + 1).contains(x) <==> (s.take(i).contains(x) || x == s[i]) by {
        if s.take(i + 1).contains(x) {
            let j = choose|j: int| 0 <= j < i + 1 && #[trigger] s.take(i + 1)[j] == x;
            if j < i {
                assert(s.take(i)[j] == x);
            }
        }
        if s.take(i).contains(x) {
            let j = choose|j: int| 0 <= j < i && #[trigger] s.take(i)[j] == x;
            assert(s.take(i + 1)[j] == x);
        }
        if x == s[i] {
            assert(s.take(i + 1)[i] == x);
        }
    }
}

proof fn lemma_evicted_idempotent(q: Seq<u64>, cutoff: int)
    ensures
        evicted(evicted(q, cutoff), cutoff) == evicted(q, cutoff),
    decreases q.len(),
{
    if q.len() > 0 && q[0] < cutoff {
        lemma_evicted_idempotent(q.drop_first(), cutoff);
    }
}

/// Evicting a queue twice at the same cutoff is evicting it once.
pub proof fn lemma_evict_key_idempotent(m: Map<u32, Seq<u64>>, key: u32, cutoff: int)
    ensures
        evict_key(evict_key(m, key, cutoff), key, cutoff) == evict_key(m, key, cutoff),
{
    if m.contains_key(key) {
        lemma_evicted_idempotent(m[key], cutoff);
        if evicted(m[key], cutoff).len() == 0 {
            assert(evict_key(evict_key(m, key, cutoff), key, cutoff) =~= evict_key(m, key, cutoff));
        } else {
            assert(evict_key(evict_key(m, key, cutoff), key, cutoff) =~= evict_key(m, key, cutoff));
        }
    }
}

/// Arrival times in the order of a monotonic clock.
pub open spec fn in_time_order(q: Seq<u64>) -> bool {
    forall|i: int, j: int| 0 <= i <= j < q.len() ==> q[i] <= q[j]
}

/// Sliding window: when arrivals were recorded in time order, eviction
/// keeps exactly the arrivals at or after the cutoff, in order.
pub proof fn lemma_evicted_is_window(q: Seq<u64>, cutoff: int)
    requires
        in_time_order(q),
    ensures
        evicted(q, cutoff) == q.filter(|t: u64| t >= cutoff),
        in_time_order(evicted(q, cutoff)),
    decreases q.len(),
{
    reveal(Seq::filter);
    if q.len() == 0 {
        assert(q.filter(|t: u64| t >= cutoff) =~= q);
    } else if q[0] < cutoff {
        let r = q.drop_first();
        assert(in_time_order(r));
        lemma_evicted_is_window(r, cutoff);
        assert(q =~= seq![q[0]] + r);
        r.lemma_filter_prepend(q[0], |t: u64| t >= cutoff);
        assert(q.filter(|t: u64| t >= cutoff) =~= r.filter(|t: u64| t >= cutoff));
    } else {
        assert forall|i: int| 0 <= i < q.len() implies q[i] >= cutoff by {
            assert(q[0] <= q[i]);
        }
        lemma_filter_keeps_all(q, cutoff);
    }
}

proof fn lemma_filter_keeps_all(q: Seq<u64>, cutoff: int)
    requires
        forall|i: int| 0 <= i < q.len() ==> q[i] >= cutoff,
    ensures
        q.filter(|t: u64| t >= cutoff) == q,
    decreases q.len(),
{
    reveal(Seq::filter);
    if q.len() > 0 {
        let f = q.drop_last();
        lemma_filter_keeps_all(f, cutoff);
        assert(q =~= f.push(q.last()));
    } else {
        assert(q.filter(|t: u64| t >= cutoff) =~= q);
    }
}

/// Recording an arrival no earlier than those already queued keeps every
/// queue in time order: with a monotonic clock, the rate of an address is
/// always the number of its packets that arrived within the window.
pub proof fn lemma_record_keeps_time_order(m: Map<u32, Seq<u64>>, key: u32, now: u64, cutoff: int)
    requires
        forall|k: u32| #[trigger] m.contains_key(k) ==> in_time_order(m[k]),
        m.contains_key(key) ==> forall|i: int| 0 <= i < m[key].len() ==> m[key][i] <= now,
    ensures
        forall|k: u32|
            #[trigger] evict_key(with_arrival(m, key, now), key, cutoff).contains_key(k) ==> in_time_order(
                evict_key(with_arrival(m, key, now), key, cutoff)[k],
            ),
{
    let w = with_arrival(m, key, now);
    assert(in_time_order(w[key])) by {
        if m.contains_key(key) {
            assert forall|i: int, j: int| 0 <= i <= j < w[key].len() implies w[key][i] <= w[key][j] by {
                if j == w[key].len() - 1 {
                    if i < j {
                        assert(w[key][i] == m[key][i]);
                    }
                } else {
                    assert(w[key][i] == m[key][i] && w[key][j] == m[key][j]);
                }
            }
        }
    }
    lemma_evicted_is_window(w[key], cutoff);
}

proof fn lemma_evicted_keeps_last(q: Seq<u64>, cutoff: int)
    requires
        q.len() > 0,
        q.last() >= cutoff,
    ensures
        evicted(q, cutoff).len() >= 1,
    decreases q.len(),
{
    if q[0] < cutoff {
        assert(q.len() > 1);
        assert(q.drop_first().last() == q.last());
        lemma_evicted_keeps_last(q.drop_first(), cutoff);
    }
}

/// A packet is counted in its source's rate as soon as it is recorded: the
/// window ending at its arrival always holds it.
pub proof fn lemma_recorded_arrival_counted(m: Map<u32, Seq<u64>>, key: u32, now: u64, window_secs: u64)
    ensures
        arrivals_of(evict_key(with_arrival(m, key, now), key, window_cutoff(now, window_secs)), key) >= 1,
{
    let w = with_arrival(m, key, now);
    assert(w[key].last() == now);
    lemma_evicted_keeps_last(w[key], window_cutoff(now, window_secs));
}

/// Tracks per-IP packet rates using a sliding time window.
///
/// Each IP has a queue of arrival times (nanoseconds on a monotonic clock).
/// When queried, arrivals older than the window are evicted and the number
/// that remain, over the window's length, is the rate.
#[derive(Debug)]
pub struct RateTracker {
    window_secs: u64,
    buckets: HashMap<u32, VecDeque<u64>>,
}

impl View for RateTracker {
    type V = Map<u32, Seq<u64>>;

    /// The arrival queue of each tracked address, keyed by its 32-bit value.
    closed spec fn view(&self) -> Map<u32, Seq<u64>> {
        self.buckets@.map_values(|q: VecDeque<u64>| q@)
    }
}

impl RateTracker {
    /// The window length in seconds.
    pub closed spec fn window(self) -> u64 {
        self.window_secs
    }

    /// No tracked address has an empty queue.
    pub open spec fn wf(self) -> bool {
        forall|k: u32| #[trigger] self@.contains_key(k) ==> self@[k].len() > 0
    }

    /// The divisor that turns a count into packets per second.
    pub open spec fn rate_seconds(self) -> u64 {
        if self.window() == 0 { 1 } else { self.window() }
    }

    pub fn new(window_secs: u64) -> (t: RateTracker)
        ensures
            t@ == Map::<u32, Seq<u64>>::empty(),
            t.window() == window_secs,
            t.wf(),
    {
        let t = RateTracker { window_secs, buckets: HashMap::new() };
        assert(t@ =~= Map::<u32, Seq<u64>>::empty());
        t
    }

    fn cutoff(&self, now: u64) -> (c: u64)
        ensures
            c == window_cutoff(now, self.window()),
    {
        proof {
            lemma_product_fits(self.window_secs, NANOS_PER_SEC);
        }
        let span: u128 = (self.window_secs as u128) * (NANOS_PER_SEC as u128);
        if (now as u128) >= span {
            (now as u128 - span) as u64
        } else {
            0
        }
    }

    /// Remove arrivals outside the sliding window for `key`.
    fn evict(&mut self, key: u32, now: u64)
        ensures
            final(self).window() == old(self).window(),
            final(self)@ == evict_key(old(self)@, key, window_cutoff(now, old(self).window())),
    {
        let cutoff = self.cutoff(now);
        let ghost m0 = self@;
        match self.buckets.remove(&key) {
            Some(mut q) => {
                let ghost q0 = q@;
                while q.len() > 0 && q[0] < cutoff
                    invariant
                        evicted(q@, cutoff as int) == evicted(q0, cutoff as int),
                    decreases q@.len(),
                {
                    let ghost before = q@;
                    q.pop_front();
                    assert(q@ =~= before.drop_first());
                }
                if q.len() > 0 {
                    self.buckets.insert(key, q);
                    assert(self@ =~= evict_key(m0, key, cutoff as int));
                } else {
                    assert(self@ =~= evict_key(m0, key, cutoff as int));
                }
            },
            None => {
                assert(self@ =~= m0);
            },
        }
    }

    /// Record a packet arrival from `ip` at time `now`.
    pub fn record(&mut self, ip: [u8; 4], now: u64)
        requires
            old(self).wf(),
        ensures
            final(self).wf(),
            final(self).window() == old(self).window(),
            final(self)@ == evict_key(
                with_arrival(old(self)@, ipv4_value(ip), now),
                ipv4_value(ip),
                window_cutoff(now, old(self).window()),
            ),
    {
        let key = ipv4_to_u32(ip);
        let ghost m0 = self@;
        let mut q = match self.buckets.remove(&key) {
            Some(q) => q,
            None => VecDeque::new(),
        };
        q.push_back(now);
        self.buckets.insert(key, q);
        assert(self@ =~= with_arrival(m0, key, now));
        self.evict(key, now);
    }

    /// The current rate of `ip`: the arrivals left in its window after
    /// eviction, per `max(window, 1)` seconds.
    pub fn rate_pps(&mut self, ip: [u8; 4], now: u64) -> (r: PacketRate)
        requires
            old(self).wf(),
        ensures
            final(self).wf(),
            final(self).window() == old(self).window(),
            final(self)@ == evict_key(old(self)@, ipv4_value(ip), window_cutoff(now, old(self).window())),
            r.packets == arrivals_of(final(self)@, ipv4_value(ip)),
            r.seconds == old(self).rate_seconds(),
    {
        let key = ipv4_to_u32(ip);
        self.evict(key, now);
        let count: usize = match self.buckets.get(&key) {
            Some(q) => q.len(),
            None => 0,
        };
        let seconds = if self.window_secs > 0 { self.window_secs } else { 1 };
        PacketRate { packets: count as u64, seconds }
    }

    fn keys(&self) -> (ks: Vec<u32>)
        ensures
            ks@.to_set() == self@.dom(),
            ks@.no_duplicates(),
    {
        let mut ks: Vec<u32> = Vec::new();
        let keys = self.buckets.keys();
        let ghost all = keys.remaining();
        for k in it: keys
            invariant
                all == it.seq(),
                all.unref().to_set() == self.buckets@.dom(),
                all.unref().no_duplicates(),
                ks@ == all.unref().take(it.index() as int),
        {
            ks.push(*k);
            assert(ks@ =~= all.unref().take(it.index() + 1));
        }
        assert(all.unref().take(all.len() as int) =~= all.unref());
        assert(self@.dom() =~= self.buckets@.dom());
        ks
    }

    /// All tracked addresses with their current rates, highest first.
    /// Every queue is evicted first; addresses left with no arrivals are
    /// dropped.  Addresses of equal rate come in no particular order.
    pub fn all_rates(&mut self, now: u64) -> (rates: Vec<([u8; 4], PacketRate)>)
        requires
            old(self).wf(),
        ensures
            final(self).wf(),
            final(self).window() == old(self).window(),
            final(self)@ == evict_all(old(self)@, window_cutoff(now, old(self).window())),
            forall|i: int, j: int|
                0 <= i < j < rates@.len() ==> rates@[i].1.packets >= rates@[j].1.packets,
            forall|i: int, j: int|
                0 <= i < j < rates@.len() ==> ipv4_value(rates@[i].0) != ipv4_value(rates@[j].0),
            forall|i: int|
                0 <= i < rates@.len() ==> {
                    &&& final(self)@.contains_key(ipv4_value(#[trigger] rates@[i].0))
                    &&& rates@[i].1.packets == final(self)@[ipv4_value(rates@[i].0)].len()
                    &&& rates@[i].1.seconds == old(self).rate_seconds()
                },
            forall|k: u32|
                #[trigger] final(self)@.contains_key(k) ==> exists|i: int|
                    0 <= i < rates@.len() && ipv4_value(rates@[i].0) == k,
    {
        let ghost m0 = self@;
        let ghost c = window_cutoff(now, self.window());
        let ips = self.keys();
        let n = ips.len();
        let mut i: usize = 0;
        assert(m0 =~= evict_some(m0, ips@.take(0), c));
        while i < n
            invariant
                n == ips@.len(),
                i <= n,
                ips@.to_set() == m0.dom(),
                ips@.no_duplicates(),
                self.window() == old(self).window(),
                c == window_cutoff(now, self.window()),
                self@ == evict_some(m0, ips@.take(i as int), c),
            decreases n - i,
        {
            let ghost before = self@;
            self.evict(ips[i], now);
            proof {
                let k = ips@[i as int];
                lemma_take_next(ips@, i as int);
                assert(self@ =~= evict_some(m0, ips@.take(i + 1), c));
            }
            i = i + 1;
        }
        proof {
            assert(ips@.take(n as int) =~= ips@);
            assert forall|x: u32| ips@.contains(x) <==> m0.contains_key(x) by {
                assert(ips@.to_set().contains(x) == ips@.contains(x));
            }
            assert(self@ =~= evict_all(m0, c));
        }
        let ghost m1 = self@;
        let seconds = if self.window_secs > 0 { self.window_secs } else { 1 };
        let mut rates: Vec<([u8; 4], PacketRate)> = Vec::new();
        let mut i: usize = 0;
        while i < n
            invariant
                n == ips@.len(),
                i <= n,
                ips@.to_set() == m0.dom(),
                ips@.no_duplicates(),
                self@ == m1,
                m1 == evict_all(m0, c),
                seconds == old(self).rate_seconds(),
                self.window() == old(self).window(),
                forall|a: int, b: int| 0 <= a < b < rates@.len() ==> rates@[a].1.packets >= rates@[b].1.packets,
                forall|a: int, b: int|
                    0 <= a < b < rates@.len() ==> ipv4_value(rates@[a].0) != ipv4_value(rates@[b].0),
                forall|a: int|
                    0 <= a < rates@.len() ==> {
                        &&& m1.contains_key(ipv4_value(#[trigger] rates@[a].0))
                        &&& rates@[a].1.packets == m1[ipv4_value(rates@[a].0)].len()
                        &&& rates@[a].1.seconds == seconds
                        &&& ips@.take(i as int).contains(ipv4_value(rates@[a].0))
                    },
                forall|k: u32|
                    #[trigger] m1.contains_key(k) && ips@.take(i as int).contains(k) ==> exists|a: int|
                        0 <= a < rates@.len() && ipv4_value(rates@[a].0) == k,
            decreases n - i,
        {
            let key = ips[i];
            let count: usize = match self.buckets.get(&key) {
                Some(q) => q.len(),
                None => 0,
            };
            proof {
                lemma_take_next(ips@, i as int);
            }
            if count > 0 {
                let rate = PacketRate { packets: count as u64, seconds };
                let mut pos: usize = 0;
                while pos < rates.len() && rates[pos].1.packets >= rate.packets
                    invariant
                        pos <= rates@.len(),
                        forall|a: int| 0 <= a < pos ==> rates@[a].1.packets >= rate.packets,
                    decreases rates@.len() - pos,
                {
                    pos = pos + 1;
                }
                let ip = ipv4_from_u32(key);
                let ghost old_rates = rates@;
                rates.insert(pos, (ip, rate));
                proof {
                    assert forall|a: int| 0 <= a < rates@.len() implies (a < pos ==> rates@[a] == old_rates[a])
                        && (a == pos ==> rates@[a] == (ip, rate)) && (a > pos ==> rates@[a] == old_rates[a - 1]) by {}
                    assert forall|a: int, b: int| 0 <= a < b < rates@.len() implies rates@[a].1.packets
                        >= rates@[b].1.packets by {
                        if a < pos && b > pos {
                        } else if a == pos && b > pos {
                            assert(pos < old_rates.len());
                            assert(old_rates[pos as int].1.packets < rate.packets);
                            assert(old_rates[pos as int].1.packets >= old_rates[b - 1].1.packets);
                        }
                    }
                    assert forall|a: int| 0 <= a < rates@.len() implies {
                        &&& m1.contains_key(ipv4_value(#[trigger] rates@[a].0))
                        &&& rates@[a].1.packets == m1[ipv4_value(rates@[a].0)].len()
                        &&& rates@[a].1.seconds == seconds
                        &&& ips@.take(i + 1).contains(ipv4_value(rates@[a].0))
                    } by {
                        if a < pos {
                            assert(ips@.take(i as int).contains(ipv4_value(old_rates[a].0)));
                        } else if a > pos {
                            assert(ips@.take(i as int).contains(ipv4_value(old_rates[a - 1].0)));
                        }
                    }
                    assert forall|k: u32|
                        #[trigger] m1.contains_key(k) && ips@.take(i + 1).contains(k) implies exists|a: int|
                            0 <= a < rates@.len() && ipv4_value(rates@[a].0) == k by {
                        if k == key {
                            assert(ipv4_value(rates@[pos as int].0) == k);
                        } else {
                            let a = choose|a: int| 0 <= a < old_rates.len() && ipv4_value(old_rates[a].0) == k;
                            if a < pos {
                                assert(ipv4_value(rates@[a].0) == k);
                            } else {
                                assert(ipv4_value(rates@[a + 1].0) == k);
                            }
                        }
                    }
                }
            } else {
                proof {
                    assert forall|a: int| 0 <= a < rates@.len() implies ips@.take(i + 1).contains(
                        ipv4_value(#[trigger] rates@[a].0),
                    ) by {
                        assert(ips@.take(i as int).contains(ipv4_value(rates@[a].0)));
                    }
                    assert forall|k: u32|
                        #[trigger] m1.contains_key(k) && ips@.take(i + 1).contains(k) implies exists|a: int|
                            0 <= a < rates@.len() && ipv4_value(rates@[a].0) == k by {
                        if k == key {
                            assert(m1[k].len() > 0);
                        }
                    }
                }
            }
            i = i + 1;
        }
        proof {
            assert(ips@.take(n as int) =~= ips@);
            assert forall|k: u32| #[trigger] m1.contains_key(k) implies ips@.contains(k) by {
                assert(m0.contains_key(k));
                assert(ips@.to_set().contains(k));
            }
        }
        rates
    }
}

} // verus!
