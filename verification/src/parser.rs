use vstd::prelude::*;

use crate::error::NetShieldError;
use crate::packet::{tcp_flags_of, PacketMetadata, TcpFlags};
use crate::protocol::{protocol_of, Protocol};

verus! {

/// Minimum sizes for protocol headers.
pub const ETH_HEADER_LEN: usize = 14;
pub const IPV4_HEADER_LEN: usize = 20;
pub const TCP_HEADER_LEN: usize = 20;
pub const UDP_HEADER_LEN: usize = 8;
pub const ICMP_HEADER_LEN: usize = 8;

pub const ETHERTYPE_IPV4: u16 = 0x0800;

/// A big-endian 16-bit value from two bytes.
pub open spec fn be16(hi: u8, lo: u8) -> u16 {
    (hi as int * 256 + lo as int) as u16
}

/// The IPv4 header length in bytes that the first header byte announces.
pub open spec fn ipv4_ihl(first: u8) -> int {
    (first & 0x0F) as int * 4
}

/// Where the layer-4 header of an IPv4-in-Ethernet frame starts.
pub open spec fn l4_start_of(raw: Seq<u8>) -> int {
    ETH_HEADER_LEN + ipv4_ihl(raw[ETH_HEADER_LEN as int])
}

/// Why a layer-4 header starting at `start` cannot be read, if it cannot.
pub open spec fn l4_error(raw: Seq<u8>, start: int, protocol: Protocol) -> Option<&'static str> {
    match protocol {
        Protocol::Tcp => if raw.len() < start + TCP_HEADER_LEN {
            Some("packet shorter than TCP header")
        } else {
            None
        },
        Protocol::Udp => if raw.len() < start + UDP_HEADER_LEN {
            Some("packet shorter than UDP header")
        } else {
            None
        },
        Protocol::Icmp => if raw.len() < start + ICMP_HEADER_LEN {
            Some("packet shorter than ICMP header")
        } else {
            None
        },
        Protocol::Other => None,
    }
}

/// Why a frame is rejected, checked in this order: too short for Ethernet,
/// not IPv4, too short for an IPv4 header, a bad header length, too short
/// for the layer-4 header; `None` for a frame that parses.
pub open spec fn parse_error(raw: Seq<u8>) -> Option<&'static str> {
    if raw.len() < ETH_HEADER_LEN {
        Some("packet shorter than Ethernet header")
    } else if be16(raw[12], raw[13]) != ETHERTYPE_IPV4 {
        Some("unsupported EtherType (only IPv4)")
    } else if raw.len() < ETH_HEADER_LEN + IPV4_HEADER_LEN {
        Some("packet shorter than IPv4 header")
    } else if ipv4_ihl(raw[14]) < IPV4_HEADER_LEN || raw.len() < l4_start_of(raw) {
        Some("invalid IPv4 IHL")
    } else {
        l4_error(raw, l4_start_of(raw), protocol_of(raw[23]))
    }
}

/// The ports and TCP flags read from a layer-4 header at `start`: the
/// ports of TCP and UDP, the flags of TCP, zeros and no flags otherwise.
pub open spec fn l4_fields(raw: Seq<u8>, start: int, protocol: Protocol) -> (u16, u16, Option<TcpFlags>) {
    match protocol {
        Protocol::Tcp => (
            be16(raw[start], raw[start + 1]),
            be16(raw[start + 2], raw[start + 3]),
            Some(tcp_flags_of(raw[start + 13])),
        ),
        Protocol::Udp => (be16(raw[start], raw[start + 1]), be16(raw[start + 2], raw[start + 3]), None),
        _ => (0u16, 0u16, None),
    }
}

/// `l4_error` at an index held as a `usize`.
pub open spec fn l4_error_at(raw: Seq<u8>, start: usize, protocol: Protocol) -> Option<&'static str> {
    l4_error(raw, start as int, protocol)
}

/// `l4_fields` at an index held as a `usize`.
pub open spec fn l4_fields_at(raw: Seq<u8>, start: usize, protocol: Protocol) -> (u16, u16, Option<TcpFlags>) {
    l4_fields(raw, start as int, protocol)
}

/// `m` is what a frame that parses yields: the MAC addresses, EtherType,
/// IPv4 addresses, protocol and total length from the headers, and the
/// ports and flags of the layer-4 header.
pub open spec fn parsed_metadata(raw: Seq<u8>, timestamp_ns: u64, m: PacketMetadata) -> bool {
    let start = l4_start_of(raw);
    let protocol = protocol_of(raw[23]);
    &&& m.timestamp_ns == timestamp_ns
    &&& m.dst_mac@ == raw.subrange(0, 6)
    &&& m.src_mac@ == raw.subrange(6, 12)
    &&& m.ether_type == be16(raw[12], raw[13])
    &&& m.src_ip@ == raw.subrange(26, 30)
    &&& m.dst_ip@ == raw.subrange(30, 34)
    &&& m.protocol == protocol
    &&& m.packet_len == be16(raw[16], raw[17])
    &&& (m.src_port, m.dst_port, m.tcp_flags) == l4_fields(raw, start, protocol)
}

/// What a parsed frame's metadata holds, byte by byte: the destination MAC
/// is bytes 0-5 and the source MAC bytes 6-11; the EtherType is bytes
/// 12-13 and the IPv4 total length bytes 16-17, both big-endian; the
/// protocol is TCP, UDP or ICMP for protocol numbers 6, 17 and 1 at byte
/// 23; the addresses are bytes 26-29 and 30-33; and a TCP or UDP frame's
/// ports are the first two big-endian 16-bit values of its layer-4 header,
/// which starts after the 14-byte Ethernet header and the IPv4 header of
/// four times the low nibble of byte 14 bytes.
pub proof fn lemma_parsed_fields(raw: Seq<u8>, timestamp_ns: u64, m: PacketMetadata)
    requires
        parse_error(raw) is None,
        parsed_metadata(raw, timestamp_ns, m),
    ensures
        m.timestamp_ns == timestamp_ns,
        forall|i: int| 0 <= i < 6 ==> m.dst_mac@[i] == raw[i] && m.src_mac@[i] == raw[6 + i],
        m.ether_type == raw[12] * 256 + raw[13],
        m.packet_len == raw[16] * 256 + raw[17],
        raw[23] == 6 <==> m.protocol == Protocol::Tcp,
        raw[23] == 17 <==> m.protocol == Protocol::Udp,
        raw[23] == 1 <==> m.protocol == Protocol::Icmp,
        forall|i: int| 0 <= i < 4 ==> m.src_ip@[i] == raw[26 + i] && m.dst_ip@[i] == raw[30 + i],
        ({
            let start = 14 + (raw[14] % 16) * 4;
            (raw[23] == 6 || raw[23] == 17) ==> m.src_port == raw[start] * 256 + raw[start + 1] && m.dst_port
                == raw[start + 2] * 256 + raw[start + 3]
        }),
        raw[23] == 6 ==> m.tcp_flags == Some(tcp_flags_of(raw[14 + (raw[14] % 16) * 4 + 13])),
        raw[23] != 6 ==> m.tcp_flags is None,
        raw[23] != 6 && raw[23] != 17 ==> m.src_port == 0 && m.dst_port == 0,
{
    assert(m.dst_mac@ == raw.subrange(0, 6));
    assert(m.src_mac@ == raw.subrange(6, 12));
    assert(m.src_ip@ == raw.subrange(26, 30));
    assert(m.dst_ip@ == raw.subrange(30, 34));
    let b14 = raw[14];
    assert((b14 & 0x0F) == b14 % 16) by (bit_vector);
    let b12 = raw[12];
    let b13 = raw[13];
    assert(be16(b12, b13) == b12 * 256 + b13);
    let b16 = raw[16];
    let b17 = raw[17];
    assert(be16(b16, b17) == b16 * 256 + b17);
    let start = l4_start_of(raw);
    if raw[23] == 6 || raw[23] == 17 {
        let p0 = raw[start];
        let p1 = raw[start + 1];
        let p2 = raw[start + 2];
        let p3 = raw[start + 3];
        assert(be16(p0, p1) == p0 * 256 + p1);
        assert(be16(p2, p3) == p2 * 256 + p3);
    }
}

fn read_be16(raw: &[u8], at: usize) -> (v: u16)
    requires
        at + 1 < raw@.len(),
    ensures
        v == be16(raw@[at as int], raw@[at + 1]),
{
    (raw[at] as u16) * 256 + (raw[at + 1] as u16)
}

/// Parse a raw Ethernet frame into structured packet metadata.
///
/// Fails with `NetShieldError::PacketParse` when the frame is too short for
/// one of its headers, is not IPv4, or announces a bad IPv4 header length.
pub fn parse_packet(raw: &[u8], timestamp_ns: u64) -> (r: Result<PacketMetadata, NetShieldError>)
    ensures
        match r {
            Ok(m) => parse_error(raw@) is None && parsed_metadata(raw@, timestamp_ns, m),
            Err(e) => parse_error(raw@) matches Some(msg) && e == NetShieldError::PacketParse(msg),
        },
{
    if raw.len() < ETH_HEADER_LEN {
        return Err(NetShieldError::PacketParse("packet shorter than Ethernet header"));
    }
    let dst_mac = [raw[0], raw[1], raw[2], raw[3], raw[4], raw[5]];
    let src_mac = [raw[6], raw[7], raw[8], raw[9], raw[10], raw[11]];
    let ether_type = read_be16(raw, 12);

    if ether_type != ETHERTYPE_IPV4 {
        return Err(NetShieldError::PacketParse("unsupported EtherType (only IPv4)"));
    }

    let ip_start = ETH_HEADER_LEN;
    if raw.len() < ip_start + IPV4_HEADER_LEN {
        return Err(NetShieldError::PacketParse("packet shorter than IPv4 header"));
    }

    let ihl = ((raw[ip_start] & 0x0F) as usize) * 4;
    if ihl < IPV4_HEADER_LEN || raw.len() < ip_start + ihl {
        return Err(NetShieldError::PacketParse("invalid IPv4 IHL"));
    }

    let src_ip = [raw[ip_start + 12], raw[ip_start + 13], raw[ip_start + 14], raw[ip_start + 15]];
    let dst_ip = [raw[ip_start + 16], raw[ip_start + 17], raw[ip_start + 18], raw[ip_start + 19]];
    let protocol = Protocol::from_ip_protocol(raw[ip_start + 9]);
    let total_len = read_be16(raw, ip_start + 2);

    let l4_start = ip_start + ihl;
    let (src_port, dst_port, tcp_flags) = match parse_l4(raw, l4_start, protocol) {
        Ok(fields) => fields,
        Err(e) => return Err(e),
    };
    let m = PacketMetadata {
        timestamp_ns,
        src_mac,
        dst_mac,
        ether_type,
        src_ip,
        dst_ip,
        protocol,
        src_port,
        dst_port,
        packet_len: total_len,
        tcp_flags,
    };
    assert(m.dst_mac@ =~= raw@.subrange(0, 6));
    assert(m.src_mac@ =~= raw@.subrange(6, 12));
    assert(m.src_ip@ =~= raw@.subrange(26, 30));
    assert(m.dst_ip@ =~= raw@.subrange(30, 34));
    Ok(m)
}

/// Parse the layer-4 header at `l4_start` to extract ports and TCP flags.
pub fn parse_l4(raw: &[u8], l4_start: usize, protocol: Protocol) -> (r: Result<
    (u16, u16, Option<TcpFlags>),
    NetShieldError,
>)
    requires
        protocol == Protocol::Tcp ==> l4_start + TCP_HEADER_LEN <= usize::MAX,
        protocol == Protocol::Udp ==> l4_start + UDP_HEADER_LEN <= usize::MAX,
        protocol == Protocol::Icmp ==> l4_start + ICMP_HEADER_LEN <= usize::MAX,
    ensures
        match r {
            Ok(fields) => l4_error_at(raw@, l4_start, protocol) is None && fields == l4_fields_at(
                raw@,
                l4_start,
                protocol,
            ),
            Err(e) => l4_error_at(raw@, l4_start, protocol) matches Some(msg) && e
                == NetShieldError::PacketParse(msg),
        },
{
    match protocol {
        Protocol::Tcp => {
            if raw.len() < l4_start + TCP_HEADER_LEN {
                return Err(NetShieldError::PacketParse("packet shorter than TCP header"));
            }
            let src_port = read_be16(raw, l4_start);
            let dst_port = read_be16(raw, l4_start + 2);
            let flags = TcpFlags::from_raw(raw[l4_start + 13]);
            Ok((src_port, dst_port, Some(flags)))
        },
        Protocol::Udp => {
            if raw.len() < l4_start + UDP_HEADER_LEN {
                return Err(NetShieldError::PacketParse("packet shorter than UDP header"));
            }
            let src_port = read_be16(raw, l4_start);
            let dst_port = read_be16(raw, l4_start + 2);
            Ok((src_port, dst_port, None))
        },
        Protocol::Icmp => {
            if raw.len() < l4_start + ICMP_HEADER_LEN {
                return Err(NetShieldError::PacketParse("packet shorter than ICMP header"));
            }
            Ok((0, 0, None))
        },
        Protocol::Other => Ok((0, 0, None)),
    }
}

} // verus!
