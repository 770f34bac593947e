use netshield::generator::{build_icmp_packet, build_tcp_packet, build_udp_packet};
use netshield::mock::{generate_batch, normal_ip, MockSource, PacketSource};
use netshield::server_traffic;

#[test]
fn mock_source_generates_packets() {
    let batch = generate_batch(1);
    assert!(!batch.is_empty());
    // At minimum: 10 TCP + 4 UDP + 1 ICMP = 15
    assert!(batch.len() >= 15);
}

#[test]
fn mock_source_trait_works() {
    fn assert_source<T: PacketSource>(_s: &T) {}
    let src = MockSource::new();
    assert_source(&src);
}

#[test]
fn tcp_packet_valid_ethernet() {
    let pkt = build_tcp_packet([10, 0, 0, 1], [10, 0, 0, 2], 1234, 80, 0x02);
    assert_eq!(pkt.len(), 54);
    assert_eq!(&pkt[12..14], &[0x08, 0x00]);
    assert_eq!(pkt[23], 6);
}

#[test]
fn udp_packet_valid_ethernet() {
    let pkt = build_udp_packet([10, 0, 0, 1], [10, 0, 0, 2], 5000, 53);
    assert_eq!(pkt.len(), 42);
    assert_eq!(pkt[23], 17);
}

#[test]
fn icmp_packet_valid_ethernet() {
    let pkt = build_icmp_packet([10, 0, 0, 1], [10, 0, 0, 2]);
    assert_eq!(pkt.len(), 42);
    assert_eq!(pkt[23], 1);
}

#[test]
fn tcp_packet_has_correct_length() {
    let pkt = build_tcp_packet([10, 0, 0, 1], [10, 0, 0, 2], 1234, 80, 0x02);
    assert_eq!(pkt.len(), 54);
}

#[test]
fn udp_packet_has_correct_length() {
    let pkt = build_udp_packet([10, 0, 0, 1], [10, 0, 0, 2], 5000, 53);
    assert_eq!(pkt.len(), 42);
}

#[test]
fn icmp_packet_has_correct_length() {
    let pkt = build_icmp_packet([10, 0, 0, 1], [10, 0, 0, 2]);
    assert_eq!(pkt.len(), 42);
}

#[test]
fn tcp_packet_exact_bytes() {
    let pkt = build_tcp_packet([10, 0, 0, 1], [10, 0, 0, 2], 0x1234, 80, 0x12);
    let expected: Vec<u8> = vec![
        0, 0, 0, 0, 0, 0, 0xAA, 0xAA, 0xAA, 0xAA, 0xAA, 0xAA, 0x08, 0x00, // Ethernet
        0x45, 0x00, 0, 40, 0, 0, 0, 0, 64, 6, 0, 0, 10, 0, 0, 1, 10, 0, 0, 2, // IPv4
        0x12, 0x34, 0, 80, 0, 0, 0, 0, 0, 0, 0, 0, 0x50, 0x12, 0xFF, 0xFF, 0, 0, 0, 0, // TCP
    ];
    assert_eq!(pkt, expected);
}

#[test]
fn udp_and_icmp_exact_bytes() {
    let udp = build_udp_packet([192, 168, 1, 1], [8, 8, 8, 8], 5000, 53);
    assert_eq!(&udp[6..12], &[0xBB; 6]);
    assert_eq!(&udp[16..18], &[0, 28]);
    assert_eq!(&udp[34..42], &[0x13, 0x88, 0, 53, 0, 8, 0, 0]);
    let icmp = build_icmp_packet([192, 168, 1, 1], [8, 8, 8, 8]);
    assert_eq!(&icmp[6..12], &[0xCC; 6]);
    assert_eq!(&icmp[34..42], &[8, 0, 0, 0, 0, 0, 0, 0]);
}

#[test]
fn normal_ip_cycles_through_twenty_hosts() {
    assert_eq!(normal_ip(0, 0), [192, 168, 1, 1]);
    assert_eq!(normal_ip(19, 0), [192, 168, 1, 20]);
    assert_eq!(normal_ip(15, 10), [192, 168, 1, 6]);
}

#[test]
fn capture_batch_bursts_follow_schedule() {
    // cycle 1: normal 15 + SYN from .50 (50) + UDP from .22 (30) + ICMP flood (40)
    assert_eq!(generate_batch(1).len(), 15 + 50 + 30 + 40);
    // cycle 80: SYN from .50 and .51, no UDP, no ICMP flood
    assert_eq!(generate_batch(80).len(), 15 + 100);
    // cycle 260: UDP from .23 only; 260 % 300 = 260, 260 % 400 = 260
    assert_eq!(generate_batch(260).len(), 15 + 30);
    let b = generate_batch(80);
    assert_eq!(&b[15][26..30], &[10, 0, 0, 50]);
    assert_eq!(b[15][47], 0x02);
    assert_eq!(&b[65][26..30], &[10, 0, 0, 51]);
}

#[test]
fn mock_source_advances_cycle() {
    let mut src = MockSource::new();
    let first = src.recv_batch(32);
    assert_eq!(first, generate_batch(1)[..32].to_vec());
    let second = src.next_batch();
    assert_eq!(second, generate_batch(2));
}

#[test]
fn server_batch_has_single_syn_attacker() {
    let b = server_traffic::generate_batch(1);
    assert_eq!(b.len(), 15 + 50 + 30);
    let quiet = server_traffic::generate_batch(150);
    assert_eq!(quiet.len(), 15);
}

#[test]
fn recv_batch_returns_at_most_max_batch() {
    let mut src = MockSource::new();
    assert!(src.recv_batch(0).is_empty());
    assert_eq!(src.recv_batch(1000), generate_batch(2));
    assert_eq!(src.recv_batch(5), generate_batch(3)[..5].to_vec());
}

#[test]
fn batches_near_the_end_of_the_cycle_range() {
    // The largest cycles are handled like any other.
    let last = generate_batch(u64::MAX);
    assert!(last.len() >= 15);
    assert_eq!(normal_ip(u64::MAX, 13), [192, 168, 1, ((u64::MAX % 20 + 13) % 20 + 1) as u8]);
    assert_eq!(server_traffic::generate_batch(u64::MAX - 5).len() % 5, 0);
}

#[test]
fn capture_batches_repeat_every_6000_cycles() {
    for c in [0u64, 1, 77, 299, 4321] {
        assert_eq!(generate_batch(c + 6000), generate_batch(c));
    }
}
