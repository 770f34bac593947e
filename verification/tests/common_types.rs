use netshield::alert::{AlertSeverity, AttackType};
use netshield::config::DetectionConfig;
use netshield::packet::TcpFlags;
use netshield::protocol::Protocol;
use netshield::stats::StatsAccumulator;

#[test]
fn severity_ordering() {
    assert!(AlertSeverity::Low < AlertSeverity::Medium);
    assert!(AlertSeverity::Medium < AlertSeverity::High);
    assert!(AlertSeverity::High < AlertSeverity::Critical);
}

#[test]
fn attack_type_display() {
    assert_eq!(AttackType::SynFlood.to_string(), "SYN Flood");
    assert_eq!(AttackType::DnsAmplification.to_string(), "DNS Amplification");
}

#[test]
fn attack_type_display_all_variants() {
    assert_eq!(AttackType::UdpFlood.to_string(), "UDP Flood");
    assert_eq!(AttackType::IcmpFlood.to_string(), "ICMP Flood");
}

#[test]
fn default_config_has_sane_values() {
    let cfg = DetectionConfig::default();
    assert_eq!(cfg.syn_flood_threshold_pps, 1_000);
    assert_eq!(cfg.detection_window_seconds, 10);
}

#[test]
fn default_config_all_fields() {
    let cfg = DetectionConfig::default();
    assert_eq!(cfg.udp_flood_threshold_pps, 5_000);
    assert_eq!(cfg.icmp_flood_threshold_pps, 2_000);
    assert_eq!(cfg.dns_amplification_threshold_pps, 500);
    assert_eq!(cfg.alert_cooldown_seconds, 30);
}

#[test]
fn tcp_flags_syn_only() {
    let flags = TcpFlags::from_raw(0x02);
    assert!(flags.syn);
    assert!(!flags.ack);
    assert!(!flags.fin);
    assert!(!flags.rst);
    assert!(!flags.psh);
}

#[test]
fn tcp_flags_syn_ack() {
    let flags = TcpFlags::from_raw(0x12);
    assert!(flags.syn);
    assert!(flags.ack);
}

#[test]
fn tcp_flags_each_bit() {
    assert!(TcpFlags::from_raw(0x01).fin);
    assert!(TcpFlags::from_raw(0x04).rst);
    assert!(TcpFlags::from_raw(0x08).psh);
    assert!(TcpFlags::from_raw(0x10).ack);
    let none = TcpFlags::from_raw(0xE0);
    assert!(!none.fin && !none.syn && !none.rst && !none.psh && !none.ack);
}

#[test]
fn from_ip_protocol_maps_correctly() {
    assert_eq!(Protocol::from_ip_protocol(6), Protocol::Tcp);
    assert_eq!(Protocol::from_ip_protocol(17), Protocol::Udp);
    assert_eq!(Protocol::from_ip_protocol(1), Protocol::Icmp);
    assert_eq!(Protocol::from_ip_protocol(47), Protocol::Other);
}

#[test]
fn display_is_lowercase() {
    assert_eq!(Protocol::Tcp.to_string(), "tcp");
    assert_eq!(Protocol::Udp.to_string(), "udp");
}

#[test]
fn display_names_icmp_and_other() {
    assert_eq!(Protocol::Icmp.to_string(), "icmp");
    assert_eq!(Protocol::Other.to_string(), "other");
}

#[test]
fn accumulator_records_packets() {
    let mut acc = StatsAccumulator::default();
    acc.record_packet(Protocol::Tcp, 100);
    acc.record_packet(Protocol::Tcp, 200);
    acc.record_packet(Protocol::Udp, 150);

    assert_eq!(acc.total_packets, 3);
    assert_eq!(acc.total_bytes, 450);
    assert_eq!(acc.protocol_counts.get(Protocol::Tcp), 2);
    assert_eq!(acc.protocol_counts.get(Protocol::Udp), 1);
}

#[test]
fn accumulator_totals_equal_protocol_sums() {
    let mut acc = StatsAccumulator::default();
    acc.record_packet(Protocol::Tcp, 100);
    acc.record_packet(Protocol::Udp, 100);
    acc.record_packet(Protocol::Icmp, 100);
    acc.record_packet(Protocol::Other, 100);
    let all = [Protocol::Tcp, Protocol::Udp, Protocol::Icmp, Protocol::Other];
    assert_eq!(all.iter().map(|p| acc.protocol_counts.get(*p)).sum::<u64>(), acc.total_packets);
    assert_eq!(all.iter().map(|p| acc.protocol_bytes.get(*p)).sum::<u64>(), acc.total_bytes);
    assert_eq!(acc.protocol_bytes.get(Protocol::Icmp), 100);
}

#[test]
fn accumulator_can_record_refuses_overflow() {
    let mut acc = StatsAccumulator::default();
    assert!(acc.can_record(Protocol::Tcp, 64));
    acc.total_packets = u64::MAX;
    assert!(!acc.can_record(Protocol::Tcp, 64));
}

#[test]
fn zero_accumulator_counts_nothing() {
    let acc = StatsAccumulator::zero();
    assert_eq!((acc.total_packets, acc.total_bytes), (0, 0));
    for p in [Protocol::Tcp, Protocol::Udp, Protocol::Icmp, Protocol::Other] {
        assert_eq!(acc.protocol_counts.get(p), 0);
        assert_eq!(acc.protocol_bytes.get(p), 0);
    }
}
