use rand::rngs::ThreadRng;
use rand::Rng;
use vstd::prelude::*;

use crate::generator::{
    build_icmp_packet, build_tcp_packet, build_udp_packet, icmp_packet_bytes, tcp_packet_bytes,
    udp_packet_bytes,
};
use crate::mock::frames;

verus! {

#[verifier::external_type_specification]
#[verifier::external_body]
pub struct ExThreadRng(ThreadRng);

/// `rand::Rng::gen_range(low..=high)` on a `u8`: a value drawn from
/// `low..=high`.  The range must not be empty (the call panics on an
/// empty range).
#[verifier::external_body]
fn gen_u8_inclusive(rng: &mut ThreadRng, low: u8, high: u8) -> (v: u8)
    requires
        low <= high,
    ensures
        low <= v <= high,
{
    rng.gen_range(low..=high)
}

/// `rand::Rng::gen_range(low..=high)` on a `u16`: a value drawn from
/// `low..=high`.  The range must not be empty (the call panics on an
/// empty range).
#[verifier::external_body]
fn gen_u16_inclusive(rng: &mut ThreadRng, low: u16, high: u16) -> (v: u16)
    requires
        low <= high,
    ensures
        low <= v <= high,
{
    rng.gen_range(low..=high)
}

/// `rand::Rng::gen_range(low..high)` on a `u32`: a value drawn from
/// `low..high`.  The range must not be empty (the call panics on an
/// empty range).
#[verifier::external_body]
fn gen_u32_below(rng: &mut ThreadRng, low: u32, high: u32) -> (v: u32)
    requires
        low < high,
    ensures
        low <= v < high,
{
    rng.gen_range(low..high)
}

/// Generate a random "normal" source IP from the 192.168.1.0/24 subnet.
pub fn random_normal_ip(rng: &mut ThreadRng) -> (ip: [u8; 4])
    ensures
        is_normal_ip(ip),
{
    [192, 168, 1, gen_u8_inclusive(rng, 1, 254)]
}

/// Generate a random high source port.
pub fn random_src_port(rng: &mut ThreadRng) -> (port: u16)
    ensures
        port >= 1024,
{
    gen_u16_inclusive(rng, 1024, 65535)
}

/// An address of 192.168.1.1 to 192.168.1.254.
pub open spec fn is_normal_ip(ip: [u8; 4]) -> bool {
    &&& ip[0] == 192
    &&& ip[1] == 168
    &&& ip[2] == 1
    &&& 1 <= ip[3] <= 254
}

/// A traffic scenario that generates a specific pattern of packets.
#[derive(Debug, Clone, Copy, PartialEq, Eq, Structural)]
pub enum Scenario {
    /// Normal mixed traffic: TCP, UDP, ICMP at safe rates.
    Normal,
    /// SYN flood from a single attacker IP.
    SynFlood,
    /// UDP flood from a single attacker IP.
    UdpFlood,
    /// ICMP flood from a single attacker IP.
    IcmpFlood,
    /// Background normal traffic with attack traffic mixed in.
    Mixed,
}

/// Configuration for a single simulation run.
#[derive(Debug, Clone, Copy)]
pub struct ScenarioConfig {
    pub scenario: Scenario,
    /// Target packets per tick (each tick = 10ms).
    pub packets_per_tick: u32,
    /// Attack packets per tick in `Mixed` mode (the whole part of
    /// `packets_per_tick` times the attack ratio).
    pub attack_count: usize,
    /// Attacker IP for flood scenarios.
    pub attacker_ip: [u8; 4],
    /// Target IP for all traffic.
    pub target_ip: [u8; 4],
}

impl Default for ScenarioConfig {
    /// A mixed scenario of 50 packets per tick, one in ten of them attack
    /// traffic, from 10.0.0.50 to 10.0.0.100.
    fn default() -> (c: ScenarioConfig)
        ensures
            c == (ScenarioConfig {
                scenario: Scenario::Mixed,
                packets_per_tick: 50,
                attack_count: 5,
                attacker_ip: [10u8, 0u8, 0u8, 50u8],
                target_ip: [10u8, 0u8, 0u8, 100u8],
            }),
    {
        ScenarioConfig {
            scenario: Scenario::Mixed,
            packets_per_tick: 50,
            attack_count: 5,
            attacker_ip: [10, 0, 0, 50],
            target_ip: [10, 0, 0, 100],
        }
    }
}

/// A normal frame to `target`: from a normal address and a high port, a
/// TCP ACK to port 80, a UDP datagram to port 53, or an echo request.
pub open spec fn is_normal_frame(f: Seq<u8>, target: [u8; 4]) -> bool {
    exists|src: [u8; 4], port: u16| #[trigger] normal_frame_from(f, src, port, target)
}

/// `f` is a normal frame from `src` and source port `port` to `target`.
pub open spec fn normal_frame_from(f: Seq<u8>, src: [u8; 4], port: u16, target: [u8; 4]) -> bool {
    is_normal_ip(src) && port >= 1024 && (f == tcp_packet_bytes(src, target, port, 80, 0x10) || f
        == udp_packet_bytes(src, target, port, 53) || f == icmp_packet_bytes(src, target))
}

/// A SYN frame from `attacker` to port 80 of `target`, from a high port.
pub open spec fn is_syn_flood_frame(f: Seq<u8>, attacker: [u8; 4], target: [u8; 4]) -> bool {
    exists|port: u16| #[trigger] syn_frame_from(f, attacker, port, target)
}

/// `f` is a SYN frame from `attacker` and high port `port` to port 80 of `target`.
pub open spec fn syn_frame_from(f: Seq<u8>, attacker: [u8; 4], port: u16, target: [u8; 4]) -> bool {
    port >= 1024 && f == tcp_packet_bytes(attacker, target, port, 80, 0x02)
}

/// A UDP frame from `attacker` to port 53 of `target`, from a high port.
pub open spec fn is_udp_flood_frame(f: Seq<u8>, attacker: [u8; 4], target: [u8; 4]) -> bool {
    exists|port: u16| #[trigger] udp_frame_from(f, attacker, port, target)
}

/// `f` is a UDP frame from `attacker` and high port `port` to port 53 of `target`.
pub open spec fn udp_frame_from(f: Seq<u8>, attacker: [u8; 4], port: u16, target: [u8; 4]) -> bool {
    port >= 1024 && f == udp_packet_bytes(attacker, target, port, 53)
}

/// An echo request from `attacker` to `target`.
pub open spec fn is_echo_flood_frame(f: Seq<u8>, attacker: [u8; 4], target: [u8; 4]) -> bool {
    f == icmp_packet_bytes(attacker, target)
}

/// The `i`-th attack frame of mixed traffic cycles through a SYN, a UDP
/// and an echo-request frame.
pub open spec fn is_mixed_attack_frame(f: Seq<u8>, i: int, attacker: [u8; 4], target: [u8; 4]) -> bool {
    if i % 3 == 0 {
        is_syn_flood_frame(f, attacker, target)
    } else if i % 3 == 1 {
        is_udp_flood_frame(f, attacker, target)
    } else {
        is_echo_flood_frame(f, attacker, target)
    }
}

/// How many normal frames a mixed tick holds: the packets per tick less
/// the attack packets, none when there are more attack packets.
pub open spec fn normal_count(config: ScenarioConfig) -> int {
    if config.packets_per_tick > config.attack_count {
        config.packets_per_tick - config.attack_count
    } else {
        0
    }
}

/// The frames of a tick, frame by frame.
pub open spec fn tick_frames_ok(config: ScenarioConfig, batch: Seq<Seq<u8>>) -> bool {
    let n = config.packets_per_tick as int;
    let attackers = config.attack_count as int;
    let normals = normal_count(config);
    match config.scenario {
        Scenario::Normal => batch.len() == n && forall|i: int|
            0 <= i < n ==> #[trigger] is_normal_frame(batch[i], config.target_ip),
        Scenario::SynFlood => batch.len() == n && forall|i: int|
            0 <= i < n ==> #[trigger] is_syn_flood_frame(batch[i], config.attacker_ip, config.target_ip),
        Scenario::UdpFlood => batch.len() == n && forall|i: int|
            0 <= i < n ==> #[trigger] is_udp_flood_frame(batch[i], config.attacker_ip, config.target_ip),
        Scenario::Mixed => {
            &&& batch.len() == normals + attackers
            &&& forall|i: int| 0 <= i < normals ==> #[trigger] is_normal_frame(batch[i], config.target_ip)
            &&& forall|i: int|
                0 <= i < attackers ==> #[trigger] is_mixed_attack_frame(
                    batch[normal_count(config) + i],
                    i,
                    config.attacker_ip,
                    config.target_ip,
                )
        },
        _ => batch.len() == n && forall|i: int|
            0 <= i < n ==> #[trigger] is_echo_flood_frame(batch[i], config.attacker_ip, config.target_ip),
    }
}

/// The normal frame that draw `choice` selects.
pub open spec fn normal_frame_of_draw(src: [u8; 4], target: [u8; 4], port: u16, choice: u32) -> Seq<u8> {
    if choice < 6 {
        tcp_packet_bytes(src, target, port, 80, 0x10)
    } else if choice < 9 {
        udp_packet_bytes(src, target, port, 53)
    } else {
        icmp_packet_bytes(src, target)
    }
}

/// The normal frame of a draw `choice` out of 0..10: a TCP ACK to port 80
/// below 6, a UDP datagram to port 53 below 9, an echo request otherwise;
/// so six in ten normal frames are TCP ACKs, three UDP queries, one a ping.
pub fn build_normal_frame(src: [u8; 4], target: [u8; 4], port: u16, choice: u32) -> (pkt: Vec<u8>)
    ensures
        pkt@ == normal_frame_of_draw(src, target, port, choice),
        is_normal_ip(src) && port >= 1024 ==> is_normal_frame(pkt@, target),
{
    let pkt = if choice < 6 {
        // TCP ACK (normal established connection)
        build_tcp_packet(src, target, port, 80, 0x10)
    } else if choice < 9 {
        // UDP DNS query
        build_udp_packet(src, target, port, 53)
    } else {
        // ping
        build_icmp_packet(src, target)
    };
    proof {
        if is_normal_ip(src) && port >= 1024 {
            assert(normal_frame_from(pkt@, src, port, target));
        }
    }
    pkt
}

/// Every kind of normal frame comes from some draw out of 0..10: draws 0
/// to 5 give a TCP ACK to port 80, 6 to 8 a UDP datagram to port 53, and 9
/// an echo request; no draw out of that range gives anything else.
pub proof fn lemma_normal_kinds_reachable(src: [u8; 4], target: [u8; 4], port: u16)
    ensures
        forall|c: u32| c < 6 ==> #[trigger] normal_frame_of_draw(src, target, port, c) == tcp_packet_bytes(src, target, port, 80, 0x10),
        forall|c: u32| 6 <= c < 9 ==> #[trigger] normal_frame_of_draw(src, target, port, c) == udp_packet_bytes(src, target, port, 53),
        normal_frame_of_draw(src, target, port, 9) == icmp_packet_bytes(src, target),
        exists|c: u32| c < 10 && #[trigger] normal_frame_of_draw(src, target, port, c) == udp_packet_bytes(src, target, port, 53),
        exists|c: u32| c < 10 && #[trigger] normal_frame_of_draw(src, target, port, c) == icmp_packet_bytes(src, target),
        exists|c: u32| c < 10 && #[trigger] normal_frame_of_draw(src, target, port, c) == tcp_packet_bytes(src, target, port, 80, 0x10),
{
    assert(normal_frame_of_draw(src, target, port, 6) == udp_packet_bytes(src, target, port, 53));
    assert(normal_frame_of_draw(src, target, port, 9) == icmp_packet_bytes(src, target));
    assert(normal_frame_of_draw(src, target, port, 0) == tcp_packet_bytes(src, target, port, 80, 0x10));
}

fn generate_normal_traffic(batch: &mut Vec<Vec<u8>>, count: usize, config: &ScenarioConfig, rng: &mut ThreadRng)
    ensures
        frames(final(batch)@).len() == frames(old(batch)@).len() + count,
        frames(final(batch)@).take(old(batch)@.len() as int) == frames(old(batch)@),
        forall|i: int|
            old(batch)@.len() <= i < final(batch)@.len() ==> #[trigger] is_normal_frame(
                frames(final(batch)@)[i],
                config.target_ip,
            ),
{
    let ghost start = frames(batch@);
    let mut k: usize = 0;
    while k < count
        invariant
            k <= count,
            frames(batch@).len() == start.len() + k,
            frames(batch@).take(start.len() as int) == start,
            forall|i: int| start.len() <= i < frames(batch@).len() ==> #[trigger] is_normal_frame(
                frames(batch@)[i],
                config.target_ip,
            ),
        decreases count - k,
    {
        let src = random_normal_ip(rng);
        let choice = gen_u32_below(rng, 0, 10);
        let port = random_src_port(rng);
        let pkt = build_normal_frame(src, config.target_ip, port, choice);
        let ghost before = frames(batch@);
        batch.push(pkt);
        proof {
            assert(frames(batch@) =~= before.push(pkt@));
            assert(frames(batch@).take(start.len() as int) =~= before.take(start.len() as int));
            assert(is_normal_frame(pkt@, config.target_ip));
            assert forall|i: int| start.len() <= i < frames(batch@).len() implies #[trigger] is_normal_frame(
                frames(batch@)[i],
                config.target_ip,
            ) by {
                if i < before.len() {
                    assert(frames(batch@)[i] == before[i]);
                }
            }
        }
        k = k + 1;
    }
}

fn generate_syn_flood(batch: &mut Vec<Vec<u8>>, count: usize, config: &ScenarioConfig, rng: &mut ThreadRng)
    ensures
        frames(final(batch)@).len() == frames(old(batch)@).len() + count,
        frames(final(batch)@).take(old(batch)@.len() as int) == frames(old(batch)@),
        forall|i: int|
            old(batch)@.len() <= i < final(batch)@.len() ==> #[trigger] is_syn_flood_frame(
                frames(final(batch)@)[i],
                config.attacker_ip,
                config.target_ip,
            ),
{
    let ghost start = frames(batch@);
    let mut k: usize = 0;
    while k < count
        invariant
            k <= count,
            frames(batch@).len() == start.len() + k,
            frames(batch@).take(start.len() as int) == start,
            forall|i: int| start.len() <= i < frames(batch@).len() ==> #[trigger] is_syn_flood_frame(
                frames(batch@)[i],
                config.attacker_ip,
                config.target_ip,
            ),
        decreases count - k,
    {
        let port = random_src_port(rng);
        let pkt = build_tcp_packet(config.attacker_ip, config.target_ip, port, 80, 0x02);
        let ghost before = frames(batch@);
        batch.push(pkt);
        proof {
            assert(frames(batch@) =~= before.push(pkt@));
            assert(frames(batch@).take(start.len() as int) =~= before.take(start.len() as int));
            assert(syn_frame_from(pkt@, config.attacker_ip, port, config.target_ip));
            assert forall|i: int| start.len() <= i < frames(batch@).len() implies #[trigger] is_syn_flood_frame(
                frames(batch@)[i],
                config.attacker_ip,
                config.target_ip,
            ) by {
                if i < before.len() {
                    assert(frames(batch@)[i] == before[i]);
                }
            }
        }
        k = k + 1;
    }
}

fn generate_udp_flood(batch: &mut Vec<Vec<u8>>, count: usize, config: &ScenarioConfig, rng: &mut ThreadRng)
    ensures
        frames(final(batch)@).len() == frames(old(batch)@).len() + count,
        frames(final(batch)@).take(old(batch)@.len() as int) == frames(old(batch)@),
        forall|i: int|
            old(batch)@.len() <= i < final(batch)@.len() ==> #[trigger] is_udp_flood_frame(
                frames(final(batch)@)[i],
                config.attacker_ip,
                config.target_ip,
            ),
{
    let ghost start = frames(batch@);
    let mut k: usize = 0;
    while k < count
        invariant
            k <= count,
            frames(batch@).len() == start.len() + k,
            frames(batch@).take(start.len() as int) == start,
            forall|i: int| start.len() <= i < frames(batch@).len() ==> #[trigger] is_udp_flood_frame(
                frames(batch@)[i],
                config.attacker_ip,
                config.target_ip,
            ),
        decreases count - k,
    {
        let port = random_src_port(rng);
        let pkt = build_udp_packet(config.attacker_ip, config.target_ip, port, 53);
        let ghost before = frames(batch@);
        batch.push(pkt);
        proof {
            assert(frames(batch@) =~= before.push(pkt@));
            assert(frames(batch@).take(start.len() as int) =~= before.take(start.len() as int));
            assert(udp_frame_from(pkt@, config.attacker_ip, port, config.target_ip));
            assert forall|i: int| start.len() <= i < frames(batch@).len() implies #[trigger] is_udp_flood_frame(
                frames(batch@)[i],
                config.attacker_ip,
                config.target_ip,
            ) by {
                if i < before.len() {
                    assert(frames(batch@)[i] == before[i]);
                }
            }
        }
        k = k + 1;
    }
}

fn generate_echo_flood(batch: &mut Vec<Vec<u8>>, count: usize, config: &ScenarioConfig)
    ensures
        frames(final(batch)@).len() == frames(old(batch)@).len() + count,
        forall|i: int|
            0 <= i < old(batch)@.len() ==> #[trigger] frames(final(batch)@)[i] == frames(old(batch)@)[i],
        forall|i: int|
            old(batch)@.len() <= i < final(batch)@.len() ==> #[trigger] is_echo_flood_frame(
                frames(final(batch)@)[i],
                config.attacker_ip,
                config.target_ip,
            ),
{
    let ghost start = frames(batch@);
    let mut k: usize = 0;
    while k < count
        invariant
            k <= count,
            frames(batch@).len() == start.len() + k,
            forall|i: int| 0 <= i < start.len() ==> #[trigger] frames(batch@)[i] == start[i],
            forall|i: int| start.len() <= i < frames(batch@).len() ==> #[trigger] is_echo_flood_frame(
                frames(batch@)[i],
                config.attacker_ip,
                config.target_ip,
            ),
        decreases count - k,
    {
        let pkt = build_icmp_packet(config.attacker_ip, config.target_ip);
        let ghost before = frames(batch@);
        batch.push(pkt);
        proof {
            assert(frames(batch@) =~= before.push(pkt@));
        }
        k = k + 1;
    }
}

/// `is_mixed_attack_frame` at an index held as a `usize`.
pub open spec fn attack_frame_ok(f: Seq<u8>, i: usize, attacker: [u8; 4], target: [u8; 4]) -> bool {
    is_mixed_attack_frame(f, i as int, attacker, target)
}

/// The `i`-th attack frame of mixed traffic: SYN, UDP and ICMP in turn.
fn build_attack_frame(i: usize, config: &ScenarioConfig, rng: &mut ThreadRng) -> (pkt: Vec<u8>)
    ensures
        attack_frame_ok(pkt@, i, config.attacker_ip, config.target_ip),
{
    let turn = i % 3;
    if turn == 0 {
        let port = random_src_port(rng);
        let pkt = build_tcp_packet(config.attacker_ip, config.target_ip, port, 80, 0x02);
        assert(syn_frame_from(pkt@, config.attacker_ip, port, config.target_ip));
        pkt
    } else if turn == 1 {
        let port = random_src_port(rng);
        let pkt = build_udp_packet(config.attacker_ip, config.target_ip, port, 53);
        assert(udp_frame_from(pkt@, config.attacker_ip, port, config.target_ip));
        pkt
    } else {
        build_icmp_packet(config.attacker_ip, config.target_ip)
    }
}

fn generate_mixed_traffic(batch: &mut Vec<Vec<u8>>, count: usize, config: &ScenarioConfig, rng: &mut ThreadRng)
    requires
        old(batch)@.len() == 0,
        config.scenario == Scenario::Mixed,
        count == config.packets_per_tick,
    ensures
        tick_frames_ok(*config, frames(final(batch)@)),
{
    let attack_count = config.attack_count;
    let normal_count = if count > attack_count { count - attack_count } else { 0 };
    // Normal background traffic.
    generate_normal_traffic(batch, normal_count, config, rng);
    let ghost normals = frames(batch@);
    // Attack traffic, cycling through the attack types.
    let mut i: usize = 0;
    while i < attack_count
        invariant
            i <= attack_count,
            attack_count == config.attack_count,
            normals.len() == normal_count,
            frames(batch@).len() == normal_count + i,
            forall|j: int| 0 <= j < normal_count ==> #[trigger] frames(batch@)[j] == normals[j],
            forall|j: int| 0 <= j < normal_count ==> #[trigger] is_normal_frame(normals[j], config.target_ip),
            forall|j: int|
                0 <= j < i ==> #[trigger] is_mixed_attack_frame(
                    frames(batch@)[normal_count + j],
                    j,
                    config.attacker_ip,
                    config.target_ip,
                ),
        decreases attack_count - i,
    {
        let pkt = build_attack_frame(i, config, rng);
        let ghost before = frames(batch@);
        batch.push(pkt);
        proof {
            assert(frames(batch@) =~= before.push(pkt@));
            assert forall|j: int| 0 <= j < i + 1 implies #[trigger] is_mixed_attack_frame(
                frames(batch@)[normal_count + j],
                j,
                config.attacker_ip,
                config.target_ip,
            ) by {
                if j < i {
                    assert(frames(batch@)[normal_count + j] == before[normal_count + j]);
                }
            }
        }
        i = i + 1;
    }
    proof {
        assert forall|j: int| 0 <= j < normal_count implies #[trigger] is_normal_frame(
            frames(batch@)[j],
            config.target_ip,
        ) by {
            assert(frames(batch@)[j] == normals[j]);
        }
        let n = config.packets_per_tick as int;
        let attackers = config.attack_count as int;
        let normals_n = if n > attackers { n - attackers } else { 0 };
        assert(normals_n == normal_count);
        assert forall|j: int| 0 <= j < attackers implies #[trigger] is_mixed_attack_frame(
            frames(batch@)[normals_n + j],
            j,
            config.attacker_ip,
            config.target_ip,
        ) by {
            assert(is_mixed_attack_frame(frames(batch@)[normal_count + j], j, config.attacker_ip, config.target_ip));
        }
    }
}

/// Number of frames per tick.
fn tick_count(config: &ScenarioConfig) -> (n: usize)
    ensures
        n == config.packets_per_tick,
{
    config.packets_per_tick as usize
}

/// Generate the raw frames of one tick of the configured scenario.
pub fn generate_tick(config: &ScenarioConfig, rng: &mut ThreadRng) -> (batch: Vec<Vec<u8>>)
    ensures
        tick_frames_ok(*config, frames(batch@)),
{
    let count = tick_count(config);
    let mut batch: Vec<Vec<u8>> = Vec::with_capacity(count);
    assert(frames(batch@).len() == 0);
    match config.scenario {
        Scenario::Normal => generate_normal_traffic(&mut batch, count, config, rng),
        Scenario::SynFlood => generate_syn_flood(&mut batch, count, config, rng),
        Scenario::UdpFlood => generate_udp_flood(&mut batch, count, config, rng),
        Scenario::IcmpFlood => generate_echo_flood(&mut batch, count, config),
        Scenario::Mixed => generate_mixed_traffic(&mut batch, count, config, rng),
    }
    batch
}

} // verus!
