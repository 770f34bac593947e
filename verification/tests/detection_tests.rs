use netshield::alert::{format_alert_id, AlertSeverity, AlertStatus, AttackType};
use netshield::config::DetectionConfig;
use netshield::engine::DetectionEngine;
use netshield::packet::{PacketMetadata, TcpFlags};
use netshield::protocol::Protocol;
use netshield::rate_tracker::{PacketRate, RateTracker};

/// A reading of the monotonic clock, in nanoseconds, to start from.
const START: u64 = 1_000_000_000_000;
const MS: u64 = 1_000_000;
const SEC: u64 = 1_000_000_000;

fn pps(rate: PacketRate) -> f64 {
    rate.packets as f64 / rate.seconds as f64
}

fn syn_packet(src_ip: [u8; 4]) -> PacketMetadata {
    PacketMetadata {
        timestamp_ns: 0,
        src_mac: [0; 6],
        dst_mac: [0; 6],
        ether_type: 0x0800,
        src_ip,
        dst_ip: [10, 0, 0, 100],
        protocol: Protocol::Tcp,
        src_port: 54321,
        dst_port: 80,
        packet_len: 64,
        tcp_flags: Some(TcpFlags { syn: true, ack: false, fin: false, rst: false, psh: false }),
    }
}

fn udp_packet(src_ip: [u8; 4]) -> PacketMetadata {
    PacketMetadata {
        timestamp_ns: 0,
        src_mac: [0; 6],
        dst_mac: [0; 6],
        ether_type: 0x0800,
        src_ip,
        dst_ip: [10, 0, 0, 100],
        protocol: Protocol::Udp,
        src_port: 5000,
        dst_port: 53,
        packet_len: 512,
        tcp_flags: None,
    }
}

fn icmp_packet(src_ip: [u8; 4]) -> PacketMetadata {
    PacketMetadata {
        timestamp_ns: 0,
        src_mac: [0; 6],
        dst_mac: [0; 6],
        ether_type: 0x0800,
        src_ip,
        dst_ip: [10, 0, 0, 100],
        protocol: Protocol::Icmp,
        src_port: 0,
        dst_port: 0,
        packet_len: 64,
        tcp_flags: None,
    }
}

#[test]
fn detects_syn_flood() {
    let config = DetectionConfig {
        syn_flood_threshold_pps: 10,
        detection_window_seconds: 10,
        ..DetectionConfig::default()
    };
    let mut engine = DetectionEngine::new(config);
    let ip = [10, 0, 0, 50];

    // Send 200 SYN packets: rate = 200/10 = 20 pps > 10 threshold
    let mut alerts = Vec::new();
    for i in 0..200 {
        let result = engine.process_packet(&syn_packet(ip), START + i * MS);
        alerts.extend(result);
    }

    assert!(!alerts.is_empty());
    assert_eq!(alerts[0].attack_type, AttackType::SynFlood);
    assert_eq!(alerts[0].source_ip, ip);
}

#[test]
fn detects_udp_flood() {
    let config = DetectionConfig {
        udp_flood_threshold_pps: 5,
        detection_window_seconds: 10,
        ..DetectionConfig::default()
    };
    let mut engine = DetectionEngine::new(config);
    let ip = [10, 0, 0, 22];

    let mut alerts = Vec::new();
    for i in 0..100 {
        let result = engine.process_packet(&udp_packet(ip), START + i * MS);
        alerts.extend(result);
    }

    assert!(!alerts.is_empty());
    assert_eq!(alerts[0].attack_type, AttackType::UdpFlood);
}

#[test]
fn detects_icmp_flood() {
    let config = DetectionConfig {
        icmp_flood_threshold_pps: 5,
        detection_window_seconds: 10,
        ..DetectionConfig::default()
    };
    let mut engine = DetectionEngine::new(config);
    let ip = [10, 0, 0, 33];

    let mut alerts = Vec::new();
    for i in 0..100 {
        let result = engine.process_packet(&icmp_packet(ip), START + i * MS);
        alerts.extend(result);
    }

    assert!(!alerts.is_empty());
    assert_eq!(alerts[0].attack_type, AttackType::IcmpFlood);
}

#[test]
fn no_alert_below_threshold() {
    let config = DetectionConfig::default(); // syn threshold = 1000 pps
    let mut engine = DetectionEngine::new(config);
    let ip = [10, 0, 0, 1];

    // Only 5 SYN packets in 10 seconds = 0.5 pps
    let mut alerts = Vec::new();
    for i in 0..5 {
        let result = engine.process_packet(&syn_packet(ip), START + i * SEC);
        alerts.extend(result);
    }

    assert!(alerts.is_empty());
}

#[test]
fn resolve_stale_alerts_works() {
    let config = DetectionConfig {
        syn_flood_threshold_pps: 5,
        detection_window_seconds: 10,
        alert_cooldown_seconds: 2,
        ..DetectionConfig::default()
    };
    let mut engine = DetectionEngine::new(config);
    let ip = [10, 0, 0, 50];

    // Trigger an alert
    for i in 0..100 {
        engine.process_packet(&syn_packet(ip), START + i * MS);
    }
    assert!(!engine.active_alerts().is_empty());

    // After cooldown, resolve
    let resolved = engine.resolve_stale_alerts(START + 5 * SEC);
    assert!(!resolved.is_empty());
    assert!(engine.active_alerts().is_empty());
}

#[test]
fn alert_raised_exactly_at_threshold_and_once() {
    let config = DetectionConfig { syn_flood_threshold_pps: 5, detection_window_seconds: 10, ..DetectionConfig::default() };
    let mut engine = DetectionEngine::new(config);
    let ip = [10, 0, 0, 50];
    let mut raised_at = Vec::new();
    for i in 0..60u64 {
        if !engine.process_packet(&syn_packet(ip), START + i * MS).is_empty() {
            raised_at.push(i);
        }
    }
    // 50 packets in the window make 5 pps: the 50th packet raises the alert,
    // and the cooldown keeps later packets from raising it again.
    assert_eq!(raised_at, vec![49]);
    assert_eq!(engine.alert_count(), 1);
    let active = engine.active_alerts();
    assert_eq!(active.len(), 1);
    assert_eq!(active[0].id, "alert-000001");
    assert_eq!(active[0].packets_per_second.packets, 60);
    assert_eq!(active[0].started_at, START + 49 * MS);
    assert_eq!(active[0].last_seen_at, START + 59 * MS);
    assert_eq!(active[0].status, AlertStatus::Active);
    assert_eq!(active[0].severity, AlertSeverity::Medium);
}

#[test]
fn ack_packets_do_not_count_as_syn() {
    let config = DetectionConfig { syn_flood_threshold_pps: 1, detection_window_seconds: 1, ..DetectionConfig::default() };
    let mut engine = DetectionEngine::new(config);
    let mut synack = syn_packet([1, 1, 1, 1]);
    synack.tcp_flags = Some(TcpFlags::from_raw(0x12));
    for i in 0..10 {
        assert!(engine.process_packet(&synack, START + i * MS).is_empty());
    }
    let mut other = udp_packet([1, 1, 1, 1]);
    other.protocol = Protocol::Other;
    assert!(engine.process_packet(&other, START).is_empty());
    assert!(engine.active_alerts().is_empty());
}

#[test]
fn separate_alerts_per_address_and_type() {
    let config = DetectionConfig {
        syn_flood_threshold_pps: 1,
        udp_flood_threshold_pps: 1,
        detection_window_seconds: 1,
        ..DetectionConfig::default()
    };
    let mut engine = DetectionEngine::new(config);
    let a = engine.process_packet(&syn_packet([1, 1, 1, 1]), START);
    let b = engine.process_packet(&udp_packet([1, 1, 1, 1]), START);
    let c = engine.process_packet(&syn_packet([2, 2, 2, 2]), START);
    assert_eq!(a[0].id, "alert-000001");
    assert_eq!(b[0].id, "alert-000002");
    assert_eq!(c[0].id, "alert-000003");
    assert_eq!(engine.active_alerts().len(), 3);
}

#[test]
fn stale_alert_is_not_resolved_within_cooldown() {
    let config = DetectionConfig { syn_flood_threshold_pps: 1, detection_window_seconds: 1, alert_cooldown_seconds: 2, ..DetectionConfig::default() };
    let mut engine = DetectionEngine::new(config);
    engine.process_packet(&syn_packet([1, 1, 1, 1]), START);
    assert!(engine.resolve_stale_alerts(START + 2 * SEC).is_empty());
    assert_eq!(engine.resolve_stale_alerts(START + 2 * SEC + 1), vec!["alert-000001".to_string()]);
}

#[test]
fn classify_severity_thresholds() {
    let r = |packets| PacketRate { packets, seconds: 10 };
    assert_eq!(DetectionEngine::classify_severity(AttackType::SynFlood, r(200_001)), AlertSeverity::Critical);
    assert_eq!(DetectionEngine::classify_severity(AttackType::SynFlood, r(200_000)), AlertSeverity::High);
    assert_eq!(DetectionEngine::classify_severity(AttackType::SynFlood, r(50_000)), AlertSeverity::Medium);
    assert_eq!(DetectionEngine::classify_severity(AttackType::UdpFlood, r(500_001)), AlertSeverity::Critical);
    assert_eq!(DetectionEngine::classify_severity(AttackType::UdpFlood, r(200_001)), AlertSeverity::High);
    assert_eq!(DetectionEngine::classify_severity(AttackType::UdpFlood, r(10)), AlertSeverity::Medium);
    assert_eq!(DetectionEngine::classify_severity(AttackType::IcmpFlood, r(100_001)), AlertSeverity::High);
    assert_eq!(DetectionEngine::classify_severity(AttackType::IcmpFlood, r(50_001)), AlertSeverity::Medium);
    assert_eq!(DetectionEngine::classify_severity(AttackType::IcmpFlood, r(50_000)), AlertSeverity::Low);
    assert_eq!(DetectionEngine::classify_severity(AttackType::DnsAmplification, r(20_001)), AlertSeverity::Critical);
    assert_eq!(DetectionEngine::classify_severity(AttackType::DnsAmplification, r(20_000)), AlertSeverity::High);
}

#[test]
fn alert_ids_are_zero_padded() {
    assert_eq!(format_alert_id(1), "alert-000001");
    assert_eq!(format_alert_id(0), "alert-000000");
    assert_eq!(format_alert_id(123456), "alert-123456");
    assert_eq!(format_alert_id(1234567), "alert-1234567");
    assert_eq!(format_alert_id(u64::MAX), "alert-18446744073709551615");
}

#[test]
fn records_and_counts() {
    let mut tracker = RateTracker::new(10);
    let ip = [10, 0, 0, 1];

    for i in 0..100 {
        tracker.record(ip, START + i * 10 * MS);
    }

    // 100 packets in a 10-second window = 10 pps
    let pps = pps(tracker.rate_pps(ip, START + 999 * MS));
    assert!((pps - 10.0).abs() < 0.01);
}

#[test]
fn evicts_old_entries() {
    let mut tracker = RateTracker::new(5);
    let ip = [10, 0, 0, 2];

    for _ in 0..10 {
        tracker.record(ip, START);
    }

    // After 6 seconds, all should be evicted
    let pps = pps(tracker.rate_pps(ip, START + 6 * SEC));
    assert!(pps < f64::EPSILON);
}

#[test]
fn all_rates_sorted_descending() {
    let mut tracker = RateTracker::new(10);
    let ip1 = [10, 0, 0, 1];
    let ip2 = [10, 0, 0, 2];

    for _ in 0..50 {
        tracker.record(ip1, START);
    }
    for _ in 0..100 {
        tracker.record(ip2, START);
    }

    let rates = tracker.all_rates(START);
    assert_eq!(rates[0].0, ip2);
    assert!(pps(rates[0].1) > pps(rates[1].1));
}

#[test]
fn window_boundary_is_inclusive() {
    let mut tracker = RateTracker::new(1);
    let ip = [1, 2, 3, 4];
    tracker.record(ip, START);
    tracker.record(ip, START + SEC / 2);
    // Exactly one window later the first arrival is still inside.
    assert_eq!(tracker.rate_pps(ip, START + SEC).packets, 2);
    assert_eq!(tracker.rate_pps(ip, START + SEC + 1).packets, 1);
    let r = tracker.rate_pps(ip, START + SEC + SEC / 2);
    assert_eq!((r.packets, r.seconds), (1, 1));
    assert_eq!(tracker.rate_pps(ip, START + SEC + SEC / 2 + 1).packets, 0);
    assert!(tracker.all_rates(START + 3 * SEC).is_empty());
}

#[test]
fn zero_window_divides_by_one_second() {
    let mut tracker = RateTracker::new(0);
    let ip = [1, 2, 3, 4];
    tracker.record(ip, 5);
    tracker.record(ip, 5);
    let r = tracker.rate_pps(ip, 5);
    assert_eq!((r.packets, r.seconds), (2, 1));
    assert_eq!(tracker.rate_pps(ip, 6).packets, 0);
}

#[test]
fn early_clock_readings_evict_nothing() {
    let mut tracker = RateTracker::new(10);
    let ip = [1, 2, 3, 4];
    tracker.record(ip, 0);
    tracker.record(ip, 3 * SEC);
    assert_eq!(tracker.rate_pps(ip, 9 * SEC).packets, 2);
}

#[test]
fn packet_rate_comparisons() {
    let r = PacketRate { packets: 100, seconds: 10 };
    assert!(r.at_least(10));
    assert!(!r.at_least(11));
    assert!(r.exceeds(9));
    assert!(!r.exceeds(10));
}

#[test]
fn alert_ids_differ_for_different_numbers() {
    assert_ne!(format_alert_id(1), format_alert_id(10));
    assert_ne!(format_alert_id(100000), format_alert_id(1000000));
    assert_ne!(format_alert_id(7), format_alert_id(70));
}

#[test]
fn second_resolution_at_same_time_resolves_nothing() {
    let config = DetectionConfig { syn_flood_threshold_pps: 1, detection_window_seconds: 1, alert_cooldown_seconds: 2, ..DetectionConfig::default() };
    let mut engine = DetectionEngine::new(config);
    engine.process_packet(&syn_packet([10, 0, 0, 50]), START);
    engine.process_packet(&udp_packet([10, 0, 0, 51]), START + SEC);
    let first = engine.resolve_stale_alerts(START + 3 * SEC);
    assert_eq!(first, vec!["alert-000001".to_string()]);
    assert!(engine.resolve_stale_alerts(START + 3 * SEC).is_empty());
    assert_eq!(engine.active_alerts().len(), 0);
}

#[test]
fn recorded_packet_counts_at_once() {
    let mut tracker = RateTracker::new(0);
    tracker.record([10, 0, 0, 9], START);
    assert_eq!(tracker.rate_pps([10, 0, 0, 9], START).packets, 1);
    let mut early = RateTracker::new(10);
    early.record([10, 0, 0, 9], 5);
    assert_eq!(early.rate_pps([10, 0, 0, 9], 5).packets, 1);
}

#[test]
fn active_alerts_are_distinct_and_active() {
    let config = DetectionConfig { syn_flood_threshold_pps: 1, udp_flood_threshold_pps: 1, detection_window_seconds: 1, alert_cooldown_seconds: 2, ..DetectionConfig::default() };
    let mut engine = DetectionEngine::new(config);
    assert!(engine.active_alerts().is_empty());
    engine.process_packet(&syn_packet([10, 0, 0, 50]), START);
    engine.process_packet(&udp_packet([10, 0, 0, 50]), START);
    engine.process_packet(&syn_packet([10, 0, 0, 51]), START);
    engine.process_packet(&syn_packet([10, 0, 0, 50]), START + MS);
    let mut active = engine.active_alerts();
    assert_eq!(active.len(), 3);
    assert!(active.iter().all(|a| a.status == AlertStatus::Active));
    active.sort_by(|a, b| a.id.cmp(&b.id));
    let ids: Vec<&str> = active.iter().map(|a| a.id.as_str()).collect();
    assert_eq!(ids, vec!["alert-000001", "alert-000002", "alert-000003"]);
}
