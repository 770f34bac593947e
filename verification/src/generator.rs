use vstd::prelude::*;

use crate::packet::{tcp_flags_of, PacketMetadata};
use crate::parser::{be16, parse_error, parsed_metadata};
use crate::protocol::Protocol;

verus! {

/// The high byte of a 16-bit value.
pub open spec fn hi_byte(v: u16) -> u8 {
    (v / 256) as u8
}

/// The low byte of a 16-bit value.
pub open spec fn lo_byte(v: u16) -> u8 {
    (v % 256) as u8
}

/// An Ethernet header (zero destination MAC, source MAC of six `mac`
/// bytes, IPv4 EtherType) followed by a 20-byte IPv4 header with the given
/// total length and protocol number, TTL 64 and zero checksum.
pub open spec fn eth_ipv4_header(mac: u8, total_len: u16, ip_proto: u8, src_ip: [u8; 4], dst_ip: [u8; 4]) -> Seq<u8> {
    seq![0u8, 0u8, 0u8, 0u8, 0u8, 0u8]
        + seq![mac, mac, mac, mac, mac, mac]
        + seq![0x08u8, 0x00u8]
        + seq![0x45u8, 0x00u8, hi_byte(total_len), lo_byte(total_len), 0u8, 0u8, 0u8, 0u8, 64u8, ip_proto, 0u8, 0u8]
        + src_ip@
        + dst_ip@
}

/// The bytes of a TCP frame as `build_tcp_packet` lays them out.
pub open spec fn tcp_packet_bytes(src_ip: [u8; 4], dst_ip: [u8; 4], src_port: u16, dst_port: u16, tcp_flags: u8) -> Seq<u8> {
    eth_ipv4_header(0xAA, 40, 6, src_ip, dst_ip)
        + seq![hi_byte(src_port), lo_byte(src_port), hi_byte(dst_port), lo_byte(dst_port)]
        + seq![0u8, 0u8, 0u8, 0u8, 0u8, 0u8, 0u8, 0u8]
        + seq![0x50u8, tcp_flags, 0xFFu8, 0xFFu8, 0u8, 0u8, 0u8, 0u8]
}

/// The bytes of a UDP frame as `build_udp_packet` lays them out.
pub open spec fn udp_packet_bytes(src_ip: [u8; 4], dst_ip: [u8; 4], src_port: u16, dst_port: u16) -> Seq<u8> {
    eth_ipv4_header(0xBB, 28, 17, src_ip, dst_ip)
        + seq![hi_byte(src_port), lo_byte(src_port), hi_byte(dst_port), lo_byte(dst_port)]
        + seq![0u8, 8u8, 0u8, 0u8]
}

/// The bytes of an ICMP echo-request frame as `build_icmp_packet` lays them out.
pub open spec fn icmp_packet_bytes(src_ip: [u8; 4], dst_ip: [u8; 4]) -> Seq<u8> {
    eth_ipv4_header(0xCC, 28, 1, src_ip, dst_ip) + seq![8u8, 0u8, 0u8, 0u8, 0u8, 0u8, 0u8, 0u8]
}

fn push_repeated(pkt: &mut Vec<u8>, byte: u8, n: usize)
    ensures
        final(pkt)@ == old(pkt)@ + Seq::new(n as nat, |i: int| byte),
{
    let ghost start = pkt@;
    let mut i: usize = 0;
    while i < n
        invariant
            i <= n,
            pkt@ == start + Seq::new(i as nat, |j: int| byte),
        decreases n - i,
    {
        pkt.push(byte);
        i = i + 1;
        assert(pkt@ =~= start + Seq::new(i as nat, |j: int| byte));
    }
}

fn push_be16(pkt: &mut Vec<u8>, v: u16)
    ensures
        final(pkt)@ == old(pkt)@ + seq![hi_byte(v), lo_byte(v)],
{
    pkt.push((v / 256) as u8);
    pkt.push((v % 256) as u8);
    assert(pkt@ =~= old(pkt)@ + seq![hi_byte(v), lo_byte(v)]);
}

fn push_ipv4(pkt: &mut Vec<u8>, ip: [u8; 4])
    ensures
        final(pkt)@ == old(pkt)@ + ip@,
{
    pkt.push(ip[0]);
    pkt.push(ip[1]);
    pkt.push(ip[2]);
    pkt.push(ip[3]);
    assert(pkt@ =~= old(pkt)@ + ip@);
}

/// Ethernet header then IPv4 header, as in `eth_ipv4_header`.
fn push_eth_ipv4_header(pkt: &mut Vec<u8>, mac: u8, total_len: u16, ip_proto: u8, src_ip: [u8; 4], dst_ip: [u8; 4])
    ensures
        final(pkt)@ == old(pkt)@ + eth_ipv4_header(mac, total_len, ip_proto, src_ip, dst_ip),
{
    // Ethernet (14 bytes)
    push_repeated(pkt, 0x00, 6);  // dst MAC
    push_repeated(pkt, mac, 6);  // src MAC
    pkt.push(0x08);  // IPv4
    pkt.push(0x00);
    // IPv4 (20 bytes)
    pkt.push(0x45);
    pkt.push(0x00);
    push_be16(pkt, total_len);
    push_repeated(pkt, 0x00, 4);  // id + flags + frag
    pkt.push(64);  // TTL
    pkt.push(ip_proto);
    push_repeated(pkt, 0x00, 2);  // checksum
    push_ipv4(pkt, src_ip);
    push_ipv4(pkt, dst_ip);
    assert(Seq::new(6, |i: int| 0u8) =~= seq![0u8, 0u8, 0u8, 0u8, 0u8, 0u8]);
    assert(Seq::new(6, |i: int| mac) =~= seq![mac, mac, mac, mac, mac, mac]);
    assert(Seq::new(4, |i: int| 0u8) =~= seq![0u8, 0u8, 0u8, 0u8]);
    assert(Seq::new(2, |i: int| 0u8) =~= seq![0u8, 0u8]);
    assert(pkt@ =~= old(pkt)@ + eth_ipv4_header(mac, total_len, ip_proto, src_ip, dst_ip));
}

/// Build a raw Ethernet + IPv4 + TCP frame (54 bytes).
pub fn build_tcp_packet(src_ip: [u8; 4], dst_ip: [u8; 4], src_port: u16, dst_port: u16, tcp_flags: u8) -> (pkt: Vec<u8>)
    ensures
        pkt@ == tcp_packet_bytes(src_ip, dst_ip, src_port, dst_port, tcp_flags),
{
    let mut pkt: Vec<u8> = Vec::with_capacity(54);
    push_eth_ipv4_header(&mut pkt, 0xAA, 40, 6, src_ip, dst_ip);
    // TCP (20 bytes)
    push_be16(&mut pkt, src_port);
    push_be16(&mut pkt, dst_port);
    push_repeated(&mut pkt, 0x00, 4);  // seq
    push_repeated(&mut pkt, 0x00, 4);  // ack
    pkt.push(0x50);  // data offset
    pkt.push(tcp_flags);
    pkt.push(0xFF);  // window
    pkt.push(0xFF);
    push_repeated(&mut pkt, 0x00, 2);  // checksum
    push_repeated(&mut pkt, 0x00, 2);  // urgent
    assert(Seq::new(4, |i: int| 0u8) =~= seq![0u8, 0u8, 0u8, 0u8]);
    assert(Seq::new(2, |i: int| 0u8) =~= seq![0u8, 0u8]);
    assert(pkt@ =~= tcp_packet_bytes(src_ip, dst_ip, src_port, dst_port, tcp_flags));
    pkt
}

/// Build a raw Ethernet + IPv4 + UDP frame (42 bytes).
pub fn build_udp_packet(src_ip: [u8; 4], dst_ip: [u8; 4], src_port: u16, dst_port: u16) -> (pkt: Vec<u8>)
    ensures
        pkt@ == udp_packet_bytes(src_ip, dst_ip, src_port, dst_port),
{
    let mut pkt: Vec<u8> = Vec::with_capacity(42);
    push_eth_ipv4_header(&mut pkt, 0xBB, 28, 17, src_ip, dst_ip);
    // UDP (8 bytes)
    push_be16(&mut pkt, src_port);
    push_be16(&mut pkt, dst_port);
    push_be16(&mut pkt, 8);  // length
    push_repeated(&mut pkt, 0x00, 2);  // checksum
    assert(Seq::new(2, |i: int| 0u8) =~= seq![0u8, 0u8]);
    assert(pkt@ =~= udp_packet_bytes(src_ip, dst_ip, src_port, dst_port));
    pkt
}

/// Build a raw Ethernet + IPv4 + ICMP echo-request frame (42 bytes).
pub fn build_icmp_packet(src_ip: [u8; 4], dst_ip: [u8; 4]) -> (pkt: Vec<u8>)
    ensures
        pkt@ == icmp_packet_bytes(src_ip, dst_ip),
{
    let mut pkt: Vec<u8> = Vec::with_capacity(42);
    push_eth_ipv4_header(&mut pkt, 0xCC, 28, 1, src_ip, dst_ip);
    // ICMP echo request (8 bytes)
    pkt.push(8);  // type
    pkt.push(0);  // code
    push_repeated(&mut pkt, 0x00, 2);  // checksum
    push_repeated(&mut pkt, 0x00, 4);  // id + seq
    assert(Seq::new(2, |i: int| 0u8) =~= seq![0u8, 0u8]);
    assert(Seq::new(4, |i: int| 0u8) =~= seq![0u8, 0u8, 0u8, 0u8]);
    assert(pkt@ =~= icmp_packet_bytes(src_ip, dst_ip));
    pkt
}

proof fn lemma_be16_bytes(v: u16)
    ensures
        be16(hi_byte(v), lo_byte(v)) == v,
{
}

proof fn lemma_header_fields(mac: u8, total_len: u16, ip_proto: u8, src_ip: [u8; 4], dst_ip: [u8; 4], rest: Seq<u8>)
    ensures
        ({
            let b = eth_ipv4_header(mac, total_len, ip_proto, src_ip, dst_ip) + rest;
            &&& b.len() == 34 + rest.len()
            &&& b.subrange(0, 6) == seq![0u8, 0u8, 0u8, 0u8, 0u8, 0u8]
            &&& b.subrange(6, 12) == seq![mac, mac, mac, mac, mac, mac]
            &&& be16(b[12], b[13]) == 0x0800
            &&& b[14] == 0x45
            &&& be16(b[16], b[17]) == total_len
            &&& b[23] == ip_proto
            &&& b.subrange(26, 30) == src_ip@
            &&& b.subrange(30, 34) == dst_ip@
            &&& b.subrange(34, b.len() as int) == rest
        }),
{
    let b = eth_ipv4_header(mac, total_len, ip_proto, src_ip, dst_ip) + rest;
    assert(b.subrange(0, 6) =~= seq![0u8, 0u8, 0u8, 0u8, 0u8, 0u8]);
    assert(b.subrange(6, 12) =~= seq![mac, mac, mac, mac, mac, mac]);
    assert(b.subrange(26, 30) =~= src_ip@);
    assert(b.subrange(30, 34) =~= dst_ip@);
    assert(b.subrange(34, b.len() as int) =~= rest);
    lemma_be16_bytes(total_len);
}

proof fn lemma_ihl_five()
    ensures
        0x45u8 & 0x0Fu8 == 5u8,
{
    assert(0x45u8 & 0x0Fu8 == 5u8) by (bit_vector);
}

/// A TCP frame built by `build_tcp_packet` parses, and what it parses to
/// is exactly what it was built from: the addresses, ports and flags given,
/// protocol TCP, total length 40, EtherType IPv4 and the builder's MACs.
pub proof fn lemma_tcp_packet_parses(
    src_ip: [u8; 4],
    dst_ip: [u8; 4],
    src_port: u16,
    dst_port: u16,
    tcp_flags: u8,
    timestamp_ns: u64,
    m: PacketMetadata,
)
    ensures
        parse_error(tcp_packet_bytes(src_ip, dst_ip, src_port, dst_port, tcp_flags)) is None,
        parsed_metadata(tcp_packet_bytes(src_ip, dst_ip, src_port, dst_port, tcp_flags), timestamp_ns, m)
            <==> {
            &&& m.timestamp_ns == timestamp_ns
            &&& m.dst_mac@ == seq![0u8, 0u8, 0u8, 0u8, 0u8, 0u8]
            &&& m.src_mac@ == seq![0xAAu8, 0xAAu8, 0xAAu8, 0xAAu8, 0xAAu8, 0xAAu8]
            &&& m.ether_type == 0x0800
            &&& m.src_ip == src_ip
            &&& m.dst_ip == dst_ip
            &&& m.protocol == Protocol::Tcp
            &&& m.packet_len == 40
            &&& m.src_port == src_port
            &&& m.dst_port == dst_port
            &&& m.tcp_flags == Some(tcp_flags_of(tcp_flags))
        },
{
    let rest = seq![hi_byte(src_port), lo_byte(src_port), hi_byte(dst_port), lo_byte(dst_port)]
        + seq![0u8, 0u8, 0u8, 0u8, 0u8, 0u8, 0u8, 0u8]
        + seq![0x50u8, tcp_flags, 0xFFu8, 0xFFu8, 0u8, 0u8, 0u8, 0u8];
    let b = tcp_packet_bytes(src_ip, dst_ip, src_port, dst_port, tcp_flags);
    assert(b =~= eth_ipv4_header(0xAA, 40, 6, src_ip, dst_ip) + rest);
    lemma_header_fields(0xAA, 40, 6, src_ip, dst_ip, rest);
    lemma_ihl_five();
    lemma_be16_bytes(src_port);
    lemma_be16_bytes(dst_port);
    assert(b[34] == rest[0]);
    assert(b[35] == rest[1]);
    assert(b[36] == rest[2]);
    assert(b[37] == rest[3]);
    assert(b[47] == rest[13]);
    if m.src_ip@ == src_ip@ {
        assert(m.src_ip == src_ip);
    }
    if m.dst_ip@ == dst_ip@ {
        assert(m.dst_ip == dst_ip);
    }
}

/// A UDP frame built by `build_udp_packet` parses, and what it parses to
/// is exactly what it was built from: the addresses and ports given,
/// protocol UDP, total length 28, no TCP flags, EtherType IPv4 and the
/// builder's MACs.
pub proof fn lemma_udp_packet_parses(
    src_ip: [u8; 4],
    dst_ip: [u8; 4],
    src_port: u16,
    dst_port: u16,
    timestamp_ns: u64,
    m: PacketMetadata,
)
    ensures
        parse_error(udp_packet_bytes(src_ip, dst_ip, src_port, dst_port)) is None,
        parsed_metadata(udp_packet_bytes(src_ip, dst_ip, src_port, dst_port), timestamp_ns, m) <==> {
            &&& m.timestamp_ns == timestamp_ns
            &&& m.dst_mac@ == seq![0u8, 0u8, 0u8, 0u8, 0u8, 0u8]
            &&& m.src_mac@ == seq![0xBBu8, 0xBBu8, 0xBBu8, 0xBBu8, 0xBBu8, 0xBBu8]
            &&& m.ether_type == 0x0800
            &&& m.src_ip == src_ip
            &&& m.dst_ip == dst_ip
            &&& m.protocol == Protocol::Udp
            &&& m.packet_len == 28
            &&& m.src_port == src_port
            &&& m.dst_port == dst_port
            &&& m.tcp_flags is None
        },
{
    let rest = seq![hi_byte(src_port), lo_byte(src_port), hi_byte(dst_port), lo_byte(dst_port)]
        + seq![0u8, 8u8, 0u8, 0u8];
    let b = udp_packet_bytes(src_ip, dst_ip, src_port, dst_port);
    assert(b =~= eth_ipv4_header(0xBB, 28, 17, src_ip, dst_ip) + rest);
    lemma_header_fields(0xBB, 28, 17, src_ip, dst_ip, rest);
    lemma_ihl_five();
    lemma_be16_bytes(src_port);
    lemma_be16_bytes(dst_port);
    assert(b[34] == rest[0]);
    assert(b[35] == rest[1]);
    assert(b[36] == rest[2]);
    assert(b[37] == rest[3]);
    if m.src_ip@ == src_ip@ {
        assert(m.src_ip == src_ip);
    }
    if m.dst_ip@ == dst_ip@ {
        assert(m.dst_ip == dst_ip);
    }
}

/// An ICMP frame built by `build_icmp_packet` parses, and what it parses
/// to is exactly what it was built from: the addresses given, protocol
/// ICMP, total length 28, zero ports, no TCP flags, EtherType IPv4 and the
/// builder's MACs.
pub proof fn lemma_icmp_packet_parses(src_ip: [u8; 4], dst_ip: [u8; 4], timestamp_ns: u64, m: PacketMetadata)
    ensures
        parse_error(icmp_packet_bytes(src_ip, dst_ip)) is None,
        parsed_metadata(icmp_packet_bytes(src_ip, dst_ip), timestamp_ns, m) <==> {
            &&& m.timestamp_ns == timestamp_ns
            &&& m.dst_mac@ == seq![0u8, 0u8, 0u8, 0u8, 0u8, 0u8]
            &&& m.src_mac@ == seq![0xCCu8, 0xCCu8, 0xCCu8, 0xCCu8, 0xCCu8, 0xCCu8]
            &&& m.ether_type == 0x0800
            &&& m.src_ip == src_ip
            &&& m.dst_ip == dst_ip
            &&& m.protocol == Protocol::Icmp
            &&& m.packet_len == 28
            &&& m.src_port == 0
            &&& m.dst_port == 0
            &&& m.tcp_flags is None
        },
{
    let rest = seq![8u8, 0u8, 0u8, 0u8, 0u8, 0u8, 0u8, 0u8];
    let b = icmp_packet_bytes(src_ip, dst_ip);
    assert(b =~= eth_ipv4_header(0xCC, 28, 1, src_ip, dst_ip) + rest);
    lemma_header_fields(0xCC, 28, 1, src_ip, dst_ip, rest);
    lemma_ihl_five();
    if m.src_ip@ == src_ip@ {
        assert(m.src_ip == src_ip);
    }
    if m.dst_ip@ == dst_ip@ {
        assert(m.dst_ip == dst_ip);
    }
}

} // verus!
