use vstd::prelude::*;

use crate::generator::{
    build_icmp_packet, build_tcp_packet, build_udp_packet, icmp_packet_bytes, tcp_packet_bytes,
    udp_packet_bytes,
};

verus! {

/// A synchronous source of raw Ethernet frames.
///
/// Implementations either poll a real NIC or generate synthetic packets;
/// the capture thread calls `recv_batch` in a tight loop.
pub trait PacketSource: Send + 'static {
    /// Receive up to `max_batch` raw Ethernet frames.
    fn recv_batch(&mut self, max_batch: usize) -> Vec<Vec<u8>>;
}

/// The bytes of each frame of a batch.
pub open spec fn frames(batch: Seq<Vec<u8>>) -> Seq<Seq<u8>> {
    batch.map_values(|p: Vec<u8>| p@)
}

/// The address all synthetic traffic is sent to.
pub open spec fn target_ip() -> [u8; 4] {
    [10u8, 0u8, 0u8, 100u8]
}

/// A "normal" source address from a pool of twenty, chosen by cycle and offset.
pub open spec fn normal_ip_of(cycle: u64, offset: u64) -> [u8; 4] {
    [192u8, 168u8, 1u8, ((cycle + offset) % 20 + 1) as u8]
}

/// Ten TCP ACK frames from normal addresses to port 80.
pub open spec fn normal_tcp(cycle: u64) -> Seq<Seq<u8>> {
    Seq::new(
        10,
        |i: int| tcp_packet_bytes(normal_ip_of(cycle, i as u64), target_ip(), (8080 + i % 4) as u16, 80, 0x10),
    )
}

/// Four UDP frames from normal addresses to port 53.
pub open spec fn normal_udp(cycle: u64) -> Seq<Seq<u8>> {
    Seq::new(4, |i: int| udp_packet_bytes(normal_ip_of(cycle, (i + 10) as u64), target_ip(), (5000 + i) as u16, 53))
}

/// The single echo request of normal traffic.
pub open spec fn normal_echo() -> Seq<Seq<u8>> {
    seq![icmp_packet_bytes([10u8, 0u8, 1u8, 1u8], target_ip())]
}

/// Fifty SYN frames from `attacker` to port 80, source ports 40000 up.
pub open spec fn syn_burst(attacker: [u8; 4]) -> Seq<Seq<u8>> {
    Seq::new(50, |p: int| tcp_packet_bytes(attacker, target_ip(), (40000 + p) as u16, 80, 0x02))
}

/// Thirty UDP frames from `attacker` to port 53, source ports 6000 up.
pub open spec fn udp_burst(attacker: [u8; 4]) -> Seq<Seq<u8>> {
    Seq::new(30, |p: int| udp_packet_bytes(attacker, target_ip(), (6000 + p) as u16, 53))
}

/// Forty echo requests from `attacker`.
pub open spec fn echo_burst(attacker: [u8; 4]) -> Seq<Seq<u8>> {
    Seq::new(40, |p: int| icmp_packet_bytes(attacker, target_ip()))
}

/// `s` when `cond` holds, nothing otherwise.
pub open spec fn burst_if(cond: bool, s: Seq<Seq<u8>>) -> Seq<Seq<u8>> {
    if cond {
        s
    } else {
        Seq::empty()
    }
}

/// The batch of capture cycle `cycle`: normal TCP, UDP and ICMP traffic,
/// then SYN floods from three attackers active during staggered 100-cycle
/// windows of every 300, UDP floods from two attackers during 50-cycle
/// windows of every 500, and an ICMP flood during the first 40 cycles of
/// every 400.
pub open spec fn capture_batch(cycle: u64) -> Seq<Seq<u8>> {
    let c300 = cycle % 300;
    let c500 = cycle % 500;
    normal_tcp(cycle) + normal_udp(cycle) + normal_echo()
        + burst_if(c300 < 100, syn_burst([10u8, 0u8, 0u8, 50u8]))
        + burst_if(70 <= c300 && c300 < 170, syn_burst([10u8, 0u8, 0u8, 51u8]))
        + burst_if(140 <= c300 && c300 < 240, syn_burst([10u8, 0u8, 0u8, 52u8]))
        + burst_if(c500 < 50, udp_burst([10u8, 0u8, 0u8, 22u8]))
        + burst_if(250 <= c500 && c500 < 300, udp_burst([10u8, 0u8, 0u8, 23u8]))
        + burst_if(cycle % 400 < 40, echo_burst([10u8, 0u8, 0u8, 33u8]))
}

/// The frame count of a capture batch: 15 normal frames, 50 for each
/// active SYN flood, 30 for each active UDP flood and 40 for the ICMP
/// flood; at most two SYN floods overlap, so a batch holds 15 to 185 frames.
pub proof fn lemma_capture_batch_len(cycle: u64)
    ensures
        ({
            let c300 = cycle % 300;
            let c500 = cycle % 500;
            capture_batch(cycle).len() == 15 + (if c300 < 100 { 50int } else { 0int }) + (if 70 <= c300 && c300 < 170 {
                50int
            } else {
                0int
            }) + (if 140 <= c300 && c300 < 240 { 50int } else { 0int }) + (if c500 < 50 { 30int } else { 0int }) + (if 250
                <= c500 && c500 < 300 {
                30int
            } else {
                0int
            }) + (if cycle % 400 < 40 { 40int } else { 0int })
        }),
        15 <= capture_batch(cycle).len() <= 185,
{
}

/// Capture batches repeat every 6000 cycles (a common multiple of the
/// 20-address pool and the 300-, 400- and 500-cycle attack periods).
pub proof fn lemma_capture_batch_period(cycle: u64)
    requires
        cycle + 6000 <= u64::MAX,
    ensures
        capture_batch((cycle + 6000) as u64) == capture_batch(cycle),
{
    let later = (cycle + 6000) as u64;
    assert(later % 300 == cycle % 300);
    assert(later % 500 == cycle % 500);
    assert(later % 400 == cycle % 400);
    assert forall|o: u64| #[trigger] normal_ip_of(later, o) == normal_ip_of(cycle, o) by {
        assert((later + o) % 20 == (cycle + o) % 20);
    }
    assert(normal_tcp(later) =~= normal_tcp(cycle)) by {
        assert forall|i: int| 0 <= i < 10 implies normal_tcp(later)[i] == normal_tcp(cycle)[i] by {
            assert(normal_ip_of(later, i as u64) == normal_ip_of(cycle, i as u64));
        }
    }
    assert(normal_udp(later) =~= normal_udp(cycle)) by {
        assert forall|i: int| 0 <= i < 4 implies normal_udp(later)[i] == normal_udp(cycle)[i] by {
            assert(normal_ip_of(later, (i + 10) as u64) == normal_ip_of(cycle, (i + 10) as u64));
        }
    }
}

/// Pick a "normal" source IP from a small pool.
pub fn normal_ip(cycle: u64, offset: u64) -> (ip: [u8; 4])
    ensures
        ip == normal_ip_of(cycle, offset),
{
    proof {
        lemma_mod_sum(cycle as int, offset as int);
    }
    let last_octet = ((cycle % 20 + offset % 20) % 20 + 1) as u8;
    [192, 168, 1, last_octet]
}

proof fn lemma_mod_sum(a: int, b: int)
    requires
        a >= 0,
        b >= 0,
    ensures
        (a % 20 + b % 20) % 20 == (a + b) % 20,
{
    assert((a % 20 + b % 20) % 20 == (a + b) % 20) by (nonlinear_arith)
        requires
            a >= 0,
            b >= 0,
    ;
}

pub(crate) fn push_normal_tcp(batch: &mut Vec<Vec<u8>>, cycle: u64)
    ensures
        frames(final(batch)@) == frames(old(batch)@) + normal_tcp(cycle),
{
    let ghost start = frames(batch@);
    let mut i: u64 = 0;
    while i < 10
        invariant
            i <= 10,
            frames(batch@) == start + normal_tcp(cycle).take(i as int),
        decreases 10 - i,
    {
        let src = normal_ip(cycle, i);
        let pkt = build_tcp_packet(src, [10, 0, 0, 100], 8080 + (i as u16 % 4), 80, 0x10);
        let ghost before = frames(batch@);
        batch.push(pkt);
        proof {
            assert(frames(batch@) =~= before.push(pkt@));
            assert(normal_tcp(cycle).take(i + 1) =~= normal_tcp(cycle).take(i as int).push(normal_tcp(cycle)[i as int]));
        }
        i = i + 1;
    }
    assert(normal_tcp(cycle).take(10) =~= normal_tcp(cycle));
}

pub(crate) fn push_normal_udp(batch: &mut Vec<Vec<u8>>, cycle: u64)
    ensures
        frames(final(batch)@) == frames(old(batch)@) + normal_udp(cycle),
{
    let ghost start = frames(batch@);
    let mut i: u64 = 0;
    while i < 4
        invariant
            i <= 4,
            frames(batch@) == start + normal_udp(cycle).take(i as int),
        decreases 4 - i,
    {
        let src = normal_ip(cycle, i + 10);
        let pkt = build_udp_packet(src, [10, 0, 0, 100], 5000 + i as u16, 53);
        let ghost before = frames(batch@);
        batch.push(pkt);
        proof {
            assert(frames(batch@) =~= before.push(pkt@));
            assert(normal_udp(cycle).take(i + 1) =~= normal_udp(cycle).take(i as int).push(normal_udp(cycle)[i as int]));
        }
        i = i + 1;
    }
    assert(normal_udp(cycle).take(4) =~= normal_udp(cycle));
}

pub(crate) fn push_normal_echo(batch: &mut Vec<Vec<u8>>)
    ensures
        frames(final(batch)@) == frames(old(batch)@) + normal_echo(),
{
    let ghost before = frames(batch@);
    let pkt = build_icmp_packet([10, 0, 1, 1], [10, 0, 0, 100]);
    batch.push(pkt);
    assert(frames(batch@) =~= before + normal_echo());
}

pub(crate) fn push_syn_burst(batch: &mut Vec<Vec<u8>>, attacker: [u8; 4])
    ensures
        frames(final(batch)@) == frames(old(batch)@) + syn_burst(attacker),
{
    let ghost start = frames(batch@);
    let mut port: u16 = 0;
    while port < 50
        invariant
            port <= 50,
            frames(batch@) == start + syn_burst(attacker).take(port as int),
        decreases 50 - port,
    {
        let pkt = build_tcp_packet(attacker, [10, 0, 0, 100], 40000 + port, 80, 0x02);
        let ghost before = frames(batch@);
        batch.push(pkt);
        proof {
            assert(frames(batch@) =~= before.push(pkt@));
            assert(syn_burst(attacker).take(port + 1) =~= syn_burst(attacker).take(port as int).push(
                syn_burst(attacker)[port as int],
            ));
        }
        port = port + 1;
    }
    assert(syn_burst(attacker).take(50) =~= syn_burst(attacker));
}

pub(crate) fn push_udp_burst(batch: &mut Vec<Vec<u8>>, attacker: [u8; 4])
    ensures
        frames(final(batch)@) == frames(old(batch)@) + udp_burst(attacker),
{
    let ghost start = frames(batch@);
    let mut port: u16 = 0;
    while port < 30
        invariant
            port <= 30,
            frames(batch@) == start + udp_burst(attacker).take(port as int),
        decreases 30 - port,
    {
        let pkt = build_udp_packet(attacker, [10, 0, 0, 100], 6000 + port, 53);
        let ghost before = frames(batch@);
        batch.push(pkt);
        proof {
            assert(frames(batch@) =~= before.push(pkt@));
            assert(udp_burst(attacker).take(port + 1) =~= udp_burst(attacker).take(port as int).push(
                udp_burst(attacker)[port as int],
            ));
        }
        port = port + 1;
    }
    assert(udp_burst(attacker).take(30) =~= udp_burst(attacker));
}

pub(crate) fn push_echo_burst(batch: &mut Vec<Vec<u8>>, attacker: [u8; 4])
    ensures
        frames(final(batch)@) == frames(old(batch)@) + echo_burst(attacker),
{
    let ghost start = frames(batch@);
    let mut n: u16 = 0;
    while n < 40
        invariant
            n <= 40,
            frames(batch@).len() == start.len() + n,
            forall|j: int| 0 <= j < start.len() ==> frames(batch@)[j] == start[j],
            forall|j: int| 0 <= j < n ==> frames(batch@)[start.len() + j] == echo_burst(attacker)[j],
        decreases 40 - n,
    {
        let pkt = build_icmp_packet(attacker, [10, 0, 0, 100]);
        let ghost before = frames(batch@);
        batch.push(pkt);
        proof {
            assert(frames(batch@) =~= before.push(pkt@));
        }
        n = n + 1;
    }
    assert(frames(batch@) =~= start + echo_burst(attacker));
}

pub(crate) fn push_if(batch: &mut Vec<Vec<u8>>, cond: bool, attacker: [u8; 4], kind: u8)
    requires
        kind < 3,
    ensures
        frames(final(batch)@) == frames(old(batch)@) + burst_if(
            cond,
            if kind == 0 {
                syn_burst(attacker)
            } else if kind == 1 {
                udp_burst(attacker)
            } else {
                echo_burst(attacker)
            },
        ),
{
    if cond {
        if kind == 0 {
            push_syn_burst(batch, attacker);
        } else if kind == 1 {
            push_udp_burst(batch, attacker);
        } else {
            push_echo_burst(batch, attacker);
        }
    } else {
        assert(frames(batch@) =~= frames(batch@) + Seq::<Seq<u8>>::empty());
    }
}

/// Generate the batch of raw Ethernet frames of capture cycle `cycle`.
pub fn generate_batch(cycle: u64) -> (batch: Vec<Vec<u8>>)
    ensures
        frames(batch@) == capture_batch(cycle),
{
    let mut batch: Vec<Vec<u8>> = Vec::with_capacity(40);
    assert(frames(batch@) =~= Seq::<Seq<u8>>::empty());
    // Normal TCP, UDP and ICMP traffic.
    push_normal_tcp(&mut batch, cycle);
    push_normal_udp(&mut batch, cycle);
    push_normal_echo(&mut batch);
    // SYN flood: three attackers, staggered timing.
    let c300 = cycle % 300;
    push_if(&mut batch, c300 < 100, [10, 0, 0, 50], 0);
    push_if(&mut batch, 70 <= c300 && c300 < 170, [10, 0, 0, 51], 0);
    push_if(&mut batch, 140 <= c300 && c300 < 240, [10, 0, 0, 52], 0);
    // UDP flood: two attackers.
    let c500 = cycle % 500;
    push_if(&mut batch, c500 < 50, [10, 0, 0, 22], 1);
    push_if(&mut batch, 250 <= c500 && c500 < 300, [10, 0, 0, 23], 1);
    // ICMP flood: brief bursts.
    push_if(&mut batch, cycle % 400 < 40, [10, 0, 0, 33], 2);
    batch
}

/// Synthetic packet source for development without capture hardware.
pub struct MockSource {
    cycle: u64,
}

impl MockSource {
    /// The number of batches handed out so far.
    pub closed spec fn cycles(self) -> u64 {
        self.cycle
    }

    pub fn new() -> (s: MockSource)
        ensures
            s.cycles() == 0,
    {
        MockSource { cycle: 0 }
    }

    /// Advance one capture cycle and return its batch.
    pub fn next_batch(&mut self) -> (batch: Vec<Vec<u8>>)
        requires
            old(self).cycles() < u64::MAX,
        ensures
            final(self).cycles() == old(self).cycles() + 1,
            frames(batch@) == capture_batch(final(self).cycles()),
    {
        self.cycle = self.cycle + 1;
        generate_batch(self.cycle)
    }
}

impl Default for MockSource {
    fn default() -> (s: MockSource)
        ensures
            s.cycles() == 0,
    {
        MockSource::new()
    }
}

impl PacketSource for MockSource {
    /// Receive up to `max_batch` frames: advance one capture cycle and
    /// return the first `max_batch` frames of its batch (all of them when
    /// the batch is no longer).  The cycle count wraps to zero after its
    /// largest value.
    fn recv_batch(&mut self, max_batch: usize) -> (batch: Vec<Vec<u8>>)
        ensures
            final(self).cycles() == if old(self).cycles() < u64::MAX {
                (old(self).cycles() + 1) as u64
            } else {
                0
            },
            frames(batch@) == capture_batch(final(self).cycles()).take(
                if max_batch < capture_batch(final(self).cycles()).len() {
                    max_batch as int
                } else {
                    capture_batch(final(self).cycles()).len() as int
                },
            ),
            batch@.len() <= max_batch,
    {
        self.cycle = if self.cycle < u64::MAX {
            self.cycle + 1
        } else {
            0
        };
        let mut batch = generate_batch(self.cycle);
        let ghost full = batch@;
        batch.truncate(max_batch);
        proof {
            let n = if max_batch < full.len() {
                max_batch as int
            } else {
                full.len() as int
            };
            assert(batch@ =~= full.take(n));
            assert(frames(batch@) =~= frames(full).take(n));
        }
        batch
    }
}

} // verus!
