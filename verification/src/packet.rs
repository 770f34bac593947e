use vstd::prelude::*;

use crate::protocol::Protocol;

verus! {

/// TCP flag bits extracted from the TCP header.
#[derive(Debug, Clone, Copy, PartialEq, Eq, Structural)]
pub struct TcpFlags {
    pub syn: bool,
    pub ack: bool,
    pub fin: bool,
    pub rst: bool,
    pub psh: bool,
}

/// The flags that a raw TCP flags byte carries: FIN is bit 0, SYN bit 1,
/// RST bit 2, PSH bit 3 and ACK bit 4.
pub open spec fn tcp_flags_of(raw: u8) -> TcpFlags {
    TcpFlags {
        fin: raw & 0x01 != 0,
        syn: raw & 0x02 != 0,
        rst: raw & 0x04 != 0,
        psh: raw & 0x08 != 0,
        ack: raw & 0x10 != 0,
    }
}

impl TcpFlags {
    /// Parse TCP flags from the raw flags byte.
    pub fn from_raw(raw: u8) -> (flags: TcpFlags)
        ensures
            flags == tcp_flags_of(raw),
    {
        TcpFlags {
            fin: raw & 0x01 != 0,
            syn: raw & 0x02 != 0,
            rst: raw & 0x04 != 0,
            psh: raw & 0x08 != 0,
            ack: raw & 0x10 != 0,
        }
    }
}

/// Metadata extracted from a parsed network packet.  IPv4 addresses are
/// held as their four octets in network order.
#[derive(Debug, Clone, Copy)]
pub struct PacketMetadata {
    pub timestamp_ns: u64,
    pub src_mac: [u8; 6],
    pub dst_mac: [u8; 6],
    pub ether_type: u16,
    pub src_ip: [u8; 4],
    pub dst_ip: [u8; 4],
    pub protocol: Protocol,
    pub src_port: u16,
    pub dst_port: u16,
    pub packet_len: u16,
    pub tcp_flags: Option<TcpFlags>,
}

/// The 32-bit value of an IPv4 address, first octet most significant.
pub open spec fn ipv4_value(ip: [u8; 4]) -> u32 {
    (ip[0] as int * 0x1000000 + ip[1] as int * 0x10000 + ip[2] as int * 0x100 + ip[3] as int) as u32
}

/// The 32-bit value of an IPv4 address, first octet most significant
/// (`u32::from(Ipv4Addr)`); two addresses have the same value exactly when
/// their octets agree.
pub fn ipv4_to_u32(ip: [u8; 4]) -> (v: u32)
    ensures
        v == ipv4_value(ip),
{
    (ip[0] as u32) * 0x1000000 + (ip[1] as u32) * 0x10000 + (ip[2] as u32) * 0x100 + (ip[3] as u32)
}

/// The address whose 32-bit value is `v`.
pub fn ipv4_from_u32(v: u32) -> (ip: [u8; 4])
    ensures
        ipv4_value(ip) == v,
{
    let ip = [(v / 0x1000000) as u8, ((v / 0x10000) % 0x100) as u8, ((v / 0x100) % 0x100) as u8, (v % 0x100) as u8];
    assert(ipv4_value(ip) == v);
    ip
}

/// Two addresses with the same value are the same address.
pub proof fn lemma_ipv4_value_injective(a: [u8; 4], b: [u8; 4])
    requires
        ipv4_value(a) == ipv4_value(b),
    ensures
        a == b,
{
    lemma_octets(a[0], a[1], a[2], a[3], ipv4_value(a) as int);
    lemma_octets(b[0], b[1], b[2], b[3], ipv4_value(b) as int);
    assert(a@ =~= b@);
}

proof fn lemma_octets(a0: u8, a1: u8, a2: u8, a3: u8, v: int)
    by (nonlinear_arith)
    requires
        v == a0 as int * 0x1000000 + a1 as int * 0x10000 + a2 as int * 0x100 + a3 as int,
    ensures
        a3 == v % 0x100,
        a2 == (v / 0x100) % 0x100,
        a1 == (v / 0x10000) % 0x100,
        a0 == v / 0x1000000,
{
}

} // verus!
