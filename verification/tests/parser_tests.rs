use netshield::error::NetShieldError;
use netshield::generator::{build_icmp_packet, build_tcp_packet, build_udp_packet};
use netshield::parser::{parse_l4, parse_packet};
use netshield::protocol::Protocol;

fn make_tcp_syn_packet(src_ip: [u8; 4], dst_ip: [u8; 4], src_port: u16, dst_port: u16) -> Vec<u8> {
    let mut pkt = Vec::with_capacity(54);
    pkt.extend_from_slice(&[0x00; 6]);
    pkt.extend_from_slice(&[0xAA; 6]);
    pkt.extend_from_slice(&[0x08, 0x00]);
    pkt.push(0x45);
    pkt.push(0x00);
    pkt.extend_from_slice(&40u16.to_be_bytes());
    pkt.extend_from_slice(&[0x00; 4]);
    pkt.push(64);
    pkt.push(6);
    pkt.extend_from_slice(&[0x00; 2]);
    pkt.extend_from_slice(&src_ip);
    pkt.extend_from_slice(&dst_ip);
    pkt.extend_from_slice(&src_port.to_be_bytes());
    pkt.extend_from_slice(&dst_port.to_be_bytes());
    pkt.extend_from_slice(&[0x00; 4]);
    pkt.extend_from_slice(&[0x00; 4]);
    pkt.push(0x50);
    pkt.push(0x02);
    pkt.extend_from_slice(&[0xFF, 0xFF]);
    pkt.extend_from_slice(&[0x00; 2]);
    pkt.extend_from_slice(&[0x00; 2]);
    pkt
}

fn make_udp_packet(src_ip: [u8; 4], dst_ip: [u8; 4], src_port: u16, dst_port: u16) -> Vec<u8> {
    let mut pkt = Vec::with_capacity(42);
    pkt.extend_from_slice(&[0x00; 6]);
    pkt.extend_from_slice(&[0xBB; 6]);
    pkt.extend_from_slice(&[0x08, 0x00]);
    pkt.push(0x45);
    pkt.push(0x00);
    pkt.extend_from_slice(&28u16.to_be_bytes());
    pkt.extend_from_slice(&[0x00; 4]);
    pkt.push(64);
    pkt.push(17);
    pkt.extend_from_slice(&[0x00; 2]);
    pkt.extend_from_slice(&src_ip);
    pkt.extend_from_slice(&dst_ip);
    pkt.extend_from_slice(&src_port.to_be_bytes());
    pkt.extend_from_slice(&dst_port.to_be_bytes());
    pkt.extend_from_slice(&8u16.to_be_bytes());
    pkt.extend_from_slice(&[0x00; 2]);
    pkt
}

fn parse_message(raw: &[u8]) -> &'static str {
    match parse_packet(raw, 0) {
        Err(NetShieldError::PacketParse(msg)) => msg,
        _ => panic!("expected a parse error"),
    }
}

#[test]
fn parse_tcp_syn() {
    let pkt = make_tcp_syn_packet([10, 0, 0, 1], [10, 0, 0, 2], 12345, 80);
    let meta = parse_packet(&pkt, 1000).unwrap();

    assert_eq!(meta.src_ip, [10, 0, 0, 1]);
    assert_eq!(meta.dst_ip, [10, 0, 0, 2]);
    assert_eq!(meta.protocol, Protocol::Tcp);
    assert_eq!(meta.src_port, 12345);
    assert_eq!(meta.dst_port, 80);

    let flags = meta.tcp_flags.unwrap();
    assert!(flags.syn);
    assert!(!flags.ack);
}

#[test]
fn parse_udp() {
    let pkt = make_udp_packet([192, 168, 1, 1], [8, 8, 8, 8], 5000, 53);
    let meta = parse_packet(&pkt, 2000).unwrap();

    assert_eq!(meta.protocol, Protocol::Udp);
    assert_eq!(meta.src_port, 5000);
    assert_eq!(meta.dst_port, 53);
    assert!(meta.tcp_flags.is_none());
}

#[test]
fn reject_too_short() {
    let result = parse_packet(&[0u8; 10], 0);
    assert!(result.is_err());
}

#[test]
fn reject_non_ipv4_ethertype() {
    let mut pkt = vec![0u8; 14];
    pkt[12] = 0x86;
    pkt[13] = 0xDD;
    let result = parse_packet(&pkt, 0);
    assert!(result.is_err());
}

#[test]
fn parse_reports_every_error_kind() {
    assert_eq!(parse_message(&[0u8; 10]), "packet shorter than Ethernet header");
    let mut v6 = vec![0u8; 14];
    v6[12] = 0x86;
    v6[13] = 0xDD;
    assert_eq!(parse_message(&v6), "unsupported EtherType (only IPv4)");
    let tcp = build_tcp_packet([1, 2, 3, 4], [5, 6, 7, 8], 1, 2, 0x02);
    assert_eq!(parse_message(&tcp[..30]), "packet shorter than IPv4 header");
    let mut bad_ihl = tcp.clone();
    bad_ihl[14] = 0x44;
    assert_eq!(parse_message(&bad_ihl), "invalid IPv4 IHL");
    let mut long_ihl = tcp.clone();
    long_ihl[14] = 0x4F; // 60-byte header, longer than the frame
    assert_eq!(parse_message(&long_ihl), "invalid IPv4 IHL");
    assert_eq!(parse_message(&tcp[..50]), "packet shorter than TCP header");
    let udp = build_udp_packet([1, 2, 3, 4], [5, 6, 7, 8], 1, 2);
    assert_eq!(parse_message(&udp[..40]), "packet shorter than UDP header");
    let icmp = build_icmp_packet([1, 2, 3, 4], [5, 6, 7, 8]);
    assert_eq!(parse_message(&icmp[..41]), "packet shorter than ICMP header");
}

#[test]
fn parse_other_protocol_has_no_ports() {
    let mut gre = build_udp_packet([1, 2, 3, 4], [5, 6, 7, 8], 1, 2);
    gre[23] = 47;
    let meta = parse_packet(&gre[..34], 7).unwrap();
    assert_eq!(meta.protocol, Protocol::Other);
    assert_eq!((meta.src_port, meta.dst_port), (0, 0));
    assert!(meta.tcp_flags.is_none());
    assert_eq!(meta.timestamp_ns, 7);
}

#[test]
fn parse_honours_ip_options() {
    // IHL 6: a 24-byte IPv4 header; the TCP header starts four bytes later.
    let base = build_tcp_packet([1, 2, 3, 4], [5, 6, 7, 8], 0x0102, 0x0304, 0x10);
    let mut pkt = base[..34].to_vec();
    pkt[14] = 0x46;
    pkt.extend_from_slice(&[0, 0, 0, 0]);
    pkt.extend_from_slice(&base[34..]);
    let meta = parse_packet(&pkt, 0).unwrap();
    assert_eq!(meta.src_port, 0x0102);
    assert_eq!(meta.dst_port, 0x0304);
    assert!(meta.tcp_flags.unwrap().ack);
}

#[test]
fn built_frames_parse_back() {
    let tcp = parse_packet(&build_tcp_packet([10, 0, 0, 9], [10, 0, 0, 100], 40001, 80, 0x02), 5).unwrap();
    assert_eq!(tcp.src_mac, [0xAA; 6]);
    assert_eq!(tcp.dst_mac, [0; 6]);
    assert_eq!(tcp.ether_type, 0x0800);
    assert_eq!(tcp.packet_len, 40);
    assert_eq!((tcp.src_port, tcp.dst_port), (40001, 80));
    let udp = parse_packet(&build_udp_packet([10, 0, 0, 9], [10, 0, 0, 100], 6001, 53), 5).unwrap();
    assert_eq!(udp.packet_len, 28);
    assert_eq!(udp.src_ip, [10, 0, 0, 9]);
    let icmp = parse_packet(&build_icmp_packet([10, 0, 0, 9], [10, 0, 0, 100]), 5).unwrap();
    assert_eq!(icmp.protocol, Protocol::Icmp);
    assert_eq!(icmp.dst_ip, [10, 0, 0, 100]);
}

#[test]
fn parse_l4_past_the_end() {
    let raw = [0u8; 10];
    assert!(matches!(parse_l4(&raw, 50, Protocol::Tcp), Err(NetShieldError::PacketParse("packet shorter than TCP header"))));
    assert!(matches!(parse_l4(&raw, 50, Protocol::Udp), Err(NetShieldError::PacketParse("packet shorter than UDP header"))));
    assert!(matches!(parse_l4(&raw, 50, Protocol::Icmp), Err(NetShieldError::PacketParse("packet shorter than ICMP header"))));
    assert!(matches!(parse_l4(&raw, 50, Protocol::Other), Ok((0, 0, None))));
}
