use std::collections::HashMap;
use vstd::prelude::*;

use crate::protocol::Protocol;

verus! {

broadcast use vstd::std_specs::hash::group_hash_axioms;

/// The map key of a protocol's counter.
pub open spec fn protocol_key(p: Protocol) -> u64 {
    match p {
        Protocol::Tcp => 0,
        Protocol::Udp => 1,
        Protocol::Icmp => 2,
        Protocol::Other => 3,
    }
}

fn key_of(p: Protocol) -> (k: u64)
    ensures
        k == protocol_key(p),
{
    match p {
        Protocol::Tcp => 0,
        Protocol::Udp => 1,
        Protocol::Icmp => 2,
        Protocol::Other => 3,
    }
}

/// One counter per protocol, held in a map by protocol; a protocol with no
/// entry counts zero.
#[derive(Debug, Clone, Default)]
pub struct ProtocolCounters {
    counts: HashMap<u64, u64>,
}

impl View for ProtocolCounters {
    type V = Map<u64, u64>;

    closed spec fn view(&self) -> Map<u64, u64> {
        self.counts@
    }
}

impl ProtocolCounters {
    /// The counter of protocol `p`.
    pub open spec fn count_of(self, p: Protocol) -> u64 {
        if self@.contains_key(protocol_key(p)) {
            self@[protocol_key(p)]
        } else {
            0
        }
    }

    /// The sum of all four counters.
    pub open spec fn sum(self) -> int {
        self.count_of(Protocol::Tcp) + self.count_of(Protocol::Udp) + self.count_of(Protocol::Icmp) + self.count_of(
            Protocol::Other,
        )
    }

    /// All counters zero.
    pub fn new() -> (c: ProtocolCounters)
        ensures
            c@ == Map::<u64, u64>::empty(),
            forall|p: Protocol| #[trigger] c.count_of(p) == 0,
    {
        ProtocolCounters { counts: HashMap::new() }
    }

    /// The counter of protocol `p`.
    pub fn get(&self, p: Protocol) -> (c: u64)
        ensures
            c == self.count_of(p),
    {
        match self.counts.get(&key_of(p)) {
            Some(v) => *v,
            None => 0,
        }
    }

    /// Add `n` to the counter of protocol `p`.
    pub fn add(&mut self, p: Protocol, n: u64)
        requires
            old(self).count_of(p) + n <= u64::MAX,
        ensures
            final(self).count_of(p) == old(self).count_of(p) + n,
            forall|q: Protocol| q != p ==> final(self).count_of(q) == old(self).count_of(q),
            final(self).sum() == old(self).sum() + n,
    {
        let current = self.get(p);
        self.counts.insert(key_of(p), current + n);
        proof {
            assert forall|q: Protocol| q != p implies protocol_key(q) != protocol_key(p) by {}
        }
    }
}

/// Mutable counters used to accumulate traffic statistics before
/// snapshots are taken.
#[derive(Debug, Clone, Default)]
pub struct StatsAccumulator {
    pub total_packets: u64,
    pub total_bytes: u64,
    pub protocol_counts: ProtocolCounters,
    pub protocol_bytes: ProtocolCounters,
}

impl StatsAccumulator {
    /// All counters zero.
    pub open spec fn is_zero(self) -> bool {
        &&& self.total_packets == 0
        &&& self.total_bytes == 0
        &&& forall|p: Protocol| #[trigger] self.protocol_counts.count_of(p) == 0 && self.protocol_bytes.count_of(p) == 0
    }

    /// An accumulator with all counters zero.
    pub fn zero() -> (a: StatsAccumulator)
        ensures
            a.is_zero(),
    {
        StatsAccumulator {
            total_packets: 0,
            total_bytes: 0,
            protocol_counts: ProtocolCounters::new(),
            protocol_bytes: ProtocolCounters::new(),
        }
    }

    /// The totals are the sums of the per-protocol counters.
    pub open spec fn consistent(self) -> bool {
        &&& self.total_packets == self.protocol_counts.sum()
        &&& self.total_bytes == self.protocol_bytes.sum()
    }

    /// `after` is `self` with one packet of `len` bytes of `protocol` counted.
    pub open spec fn records_packet(self, after: StatsAccumulator, protocol: Protocol, len: u16) -> bool {
        &&& after.total_packets == self.total_packets + 1
        &&& after.total_bytes == self.total_bytes + len
        &&& after.protocol_counts.count_of(protocol) == self.protocol_counts.count_of(protocol) + 1
        &&& after.protocol_bytes.count_of(protocol) == self.protocol_bytes.count_of(protocol) + len
        &&& forall|q: Protocol|
            q != protocol ==> #[trigger] after.protocol_counts.count_of(q) == self.protocol_counts.count_of(q)
                && after.protocol_bytes.count_of(q) == self.protocol_bytes.count_of(q)
    }

    /// No counter overflows when one packet of `len` bytes of `protocol`
    /// is counted.
    pub open spec fn fits(self, protocol: Protocol, len: u16) -> bool {
        &&& self.total_packets + 1 <= u64::MAX
        &&& self.total_bytes + len <= u64::MAX
        &&& self.protocol_counts.count_of(protocol) + 1 <= u64::MAX
        &&& self.protocol_bytes.count_of(protocol) + len <= u64::MAX
    }

    /// Count one packet of `len` bytes of protocol `protocol`.
    pub fn record_packet(&mut self, protocol: Protocol, len: u16)
        requires
            old(self).fits(protocol, len),
        ensures
            old(self).records_packet(*final(self), protocol, len),
    {
        self.total_packets = self.total_packets + 1;
        self.total_bytes = self.total_bytes + len as u64;
        self.protocol_counts.add(protocol, 1);
        self.protocol_bytes.add(protocol, len as u64);
    }

    /// Whether `record_packet(protocol, len)` can count one more packet
    /// without any counter overflowing.
    pub fn can_record(&self, protocol: Protocol, len: u16) -> (ok: bool)
        ensures
            ok == self.fits(protocol, len),
    {
        self.total_packets < u64::MAX && self.total_bytes <= u64::MAX - len as u64
            && self.protocol_counts.get(protocol) < u64::MAX && self.protocol_bytes.get(protocol)
            <= u64::MAX - len as u64
    }
}

/// Counting a packet keeps the totals equal to the sums of the
/// per-protocol counters: every packet and byte is attributed to exactly
/// one protocol, so the protocol shares always add up to the whole.
pub proof fn lemma_record_keeps_totals(before: StatsAccumulator, after: StatsAccumulator, protocol: Protocol, len: u16)
    requires
        before.consistent(),
        before.records_packet(after, protocol, len),
    ensures
        after.consistent(),
{
    assert(after.protocol_counts.count_of(Protocol::Tcp) == after.protocol_counts.count_of(Protocol::Tcp));
    assert(after.protocol_counts.count_of(Protocol::Udp) == after.protocol_counts.count_of(Protocol::Udp));
    assert(after.protocol_counts.count_of(Protocol::Icmp) == after.protocol_counts.count_of(Protocol::Icmp));
    assert(after.protocol_counts.count_of(Protocol::Other) == after.protocol_counts.count_of(Protocol::Other));
}

} // verus!
