use base64::Engine;
use netshield::alert::AlertStatus;
use netshield::api::{history_response, history_window, push_history, status_filter, AlertsQuery, HealthResponse, HistoryQuery, TopTalkersQuery};
use netshield::config::DetectionConfig;
use netshield::dpdk::{burst_for, check_eal_args, check_port, eal_init_status, port_init_status, DpdkConfig, DpdkError};
use netshield::generator::{build_tcp_packet, build_udp_packet};
use netshield::pipeline::{IngestError, Pipeline};
use std::collections::VecDeque;

const START: u64 = 1_000_000_000_000;
const SEC: u64 = 1_000_000_000;

fn encode(frame: &[u8]) -> String {
    base64::engine::general_purpose::STANDARD.encode(frame)
}

fn flood_config() -> DetectionConfig {
    DetectionConfig { syn_flood_threshold_pps: 1, detection_window_seconds: 1, alert_cooldown_seconds: 2, ..DetectionConfig::default() }
}

#[test]
fn pipeline_counts_and_alerts() {
    let mut p = Pipeline::new(flood_config());
    let syn = build_tcp_packet([10, 0, 0, 50], [10, 0, 0, 100], 40000, 80, 0x02);
    let new = p.process_raw_packet(&syn, 0, START).unwrap();
    assert_eq!(new.len(), 1);
    assert_eq!(p.accumulator_ref().total_packets, 1);
    assert_eq!(p.accumulator_ref().total_bytes, 40);
    assert_eq!(p.alerts().len(), 1);
    assert!(p.process_raw_packet(&[0u8; 5], 0, START).is_none());
    assert_eq!(p.accumulator_ref().total_packets, 1);
}

#[test]
fn pipeline_resolution_marks_logged_alert() {
    let mut p = Pipeline::new(flood_config());
    let syn = build_tcp_packet([10, 0, 0, 50], [10, 0, 0, 100], 40000, 80, 0x02);
    p.process_raw_packet(&syn, 0, START);
    assert!(p.resolve_stale_alerts(START + SEC).is_empty());
    assert_eq!(p.alerts_with_status(Some(AlertStatus::Active)).len(), 1);
    let ids = p.resolve_stale_alerts(START + 3 * SEC);
    assert_eq!(ids, vec!["alert-000001".to_string()]);
    assert_eq!(p.alerts()[0].status, AlertStatus::Resolved);
    assert!(p.alerts_with_status(Some(AlertStatus::Active)).is_empty());
    assert_eq!(p.alerts_with_status(Some(AlertStatus::Resolved)).len(), 1);
    assert_eq!(p.alerts_with_status(None).len(), 1);
}

#[test]
fn ingest_decodes_and_processes() {
    let mut p = Pipeline::new(flood_config());
    let packets = vec![
        encode(&build_tcp_packet([10, 0, 0, 50], [10, 0, 0, 100], 40000, 80, 0x02)),
        encode(&[1, 2, 3]),
        encode(&build_udp_packet([192, 168, 1, 2], [10, 0, 0, 100], 5000, 53)),
    ];
    let resp = p.ingest(&packets, 0, START).unwrap();
    assert_eq!(resp.received, 3);
    assert_eq!(resp.parsed, 2);
    assert_eq!(resp.alerts_generated, 1);
    assert_eq!(p.accumulator_ref().total_packets, 2);
}

#[test]
fn ingest_rejects_invalid_base64() {
    let mut p = Pipeline::new(DetectionConfig::default());
    let packets = vec![
        encode(&build_udp_packet([192, 168, 1, 2], [10, 0, 0, 100], 5000, 53)),
        "not base64!".to_string(),
        encode(&build_udp_packet([192, 168, 1, 3], [10, 0, 0, 100], 5000, 53)),
    ];
    assert_eq!(p.ingest(&packets, 0, START), Err(IngestError::InvalidBase64));
    // The packet before the bad one was processed.
    assert_eq!(p.accumulator_ref().total_packets, 1);
}

#[test]
fn status_filter_reads_query() {
    assert_eq!(status_filter(&Some("active".to_string())), Some(AlertStatus::Active));
    assert_eq!(status_filter(&Some("resolved".to_string())), Some(AlertStatus::Resolved));
    assert_eq!(status_filter(&Some("all".to_string())), None);
    assert_eq!(status_filter(&None), None);
}

#[test]
fn history_window_takes_latest_points() {
    assert_eq!(history_window(1000, None), 700);
    assert_eq!(history_window(100, None), 0);
    assert_eq!(history_window(1000, Some(1)), 940);
    assert_eq!(history_window(1000, Some(0)), 1000);
}

#[test]
fn history_is_bounded() {
    let mut h: VecDeque<u32> = VecDeque::new();
    for i in 0..5 {
        push_history(&mut h, i, 3);
    }
    assert_eq!(h, VecDeque::from(vec![2, 3, 4]));
}

#[test]
fn health_report() {
    let h = HealthResponse::healthy(12, "0.1.0", "mock");
    assert_eq!(h.status, "healthy");
    assert_eq!(h.uptime_seconds, 12);
    assert_eq!(h.dpdk_mode, "mock");
}

#[test]
fn dpdk_checks() {
    let cfg = DpdkConfig::default();
    assert_eq!(cfg.eal_args, vec!["netshield", "-l", "0", "-n", "4"]);
    assert_eq!(cfg.num_rx_desc, 1024);
    assert_eq!(cfg.mempool_size, 8191);
    assert_eq!(cfg.burst_size, 32);
    assert_eq!(check_eal_args(&cfg.eal_args), Ok(()));
    assert_eq!(check_eal_args(&vec!["a\0b".to_string()]), Err(DpdkError::NulArg));
    assert_eq!(eal_init_status(-1), Err(DpdkError::EalInit(-1)));
    assert_eq!(eal_init_status(3), Ok(()));
    assert_eq!(check_port(0, 0), Err(DpdkError::NoPorts));
    assert_eq!(check_port(2, 2), Err(DpdkError::PortNotFound(2, 2)));
    assert_eq!(check_port(1, 2), Ok(()));
    assert_eq!(port_init_status(-5), Err(DpdkError::PortInit(-5)));
    assert_eq!(burst_for(100, 32), 32);
    assert_eq!(burst_for(8, 32), 8);
}

#[test]
fn top_talkers_rank_sources_by_packet_count() {
    let config = DetectionConfig {
        syn_flood_threshold_pps: 1,
        udp_flood_threshold_pps: 2,
        detection_window_seconds: 1,
        alert_cooldown_seconds: 2,
        ..DetectionConfig::default()
    };
    let mut p = Pipeline::new(config);
    let syn = build_tcp_packet([10, 0, 0, 50], [10, 0, 0, 100], 40000, 80, 0x02);
    let udp = build_udp_packet([10, 0, 0, 60], [10, 0, 0, 100], 5000, 53);
    let ack = build_tcp_packet([192, 168, 1, 7], [10, 0, 0, 100], 40000, 80, 0x10);
    assert_eq!(p.process_raw_packet(&syn, 0, START).unwrap().len(), 1);
    assert_eq!(p.process_raw_packet(&udp, 0, START).unwrap().len(), 0);
    assert_eq!(p.process_raw_packet(&udp, 0, START + 1).unwrap().len(), 1);
    for i in 0..3 {
        p.process_raw_packet(&ack, 0, START + i);
    }
    // A frame that does not parse counts for nobody.
    assert!(p.process_raw_packet(&[0u8; 5], 0, START).is_none());

    let all = p.top_talkers(10, START + SEC);
    assert_eq!(all.len(), 3);
    assert_eq!(all[0].source_ip, [192, 168, 1, 7]);
    assert_eq!(all[0].packets_per_second.packets, 3);
    assert_eq!(all[0].packets_per_second.seconds, 60);
    assert!(!all[0].is_flagged);
    assert_eq!(all[1].source_ip, [10, 0, 0, 60]);
    assert_eq!(all[1].packets_per_second.packets, 2);
    assert!(all[1].is_flagged);
    assert_eq!(all[2].source_ip, [10, 0, 0, 50]);
    assert_eq!(all[2].packets_per_second.packets, 1);
    assert!(all[2].is_flagged);

    let first = p.top_talkers(1, START + SEC);
    assert_eq!(first.len(), 1);
    assert_eq!(first[0].source_ip, [192, 168, 1, 7]);
    assert!(p.top_talkers(0, START + SEC).is_empty());

    // Once resolved, the addresses are no longer flagged; after the
    // 60-second window they are no longer listed.
    p.resolve_stale_alerts(START + 3 * SEC);
    let later = p.top_talkers(10, START + 3 * SEC);
    assert_eq!(later.len(), 3);
    assert!(later.iter().all(|t| !t.is_flagged));
    assert!(p.top_talkers(10, START + 61 * SEC).is_empty());
}

#[test]
fn history_response_returns_latest_points() {
    let history: VecDeque<u32> = (0..400).collect();
    let r = history_response(&history, &HistoryQuery { minutes: None });
    assert_eq!(r.interval_seconds, 1);
    assert_eq!(r.data_points.len(), 300);
    assert_eq!(r.data_points[0], 100);
    assert_eq!(r.data_points[299], 399);
    let one = history_response(&history, &HistoryQuery { minutes: Some(1) });
    assert_eq!(one.data_points, (340..400).collect::<Vec<u32>>());
    let short: VecDeque<u32> = (0..5).collect();
    assert_eq!(history_response(&short, &HistoryQuery { minutes: Some(2) }).data_points, vec![0, 1, 2, 3, 4]);
}

#[test]
fn alerts_and_top_talkers_responses() {
    let mut p = Pipeline::new(flood_config());
    let syn = build_tcp_packet([10, 0, 0, 50], [10, 0, 0, 100], 40000, 80, 0x02);
    p.process_raw_packet(&syn, 0, START);
    let all = p.alerts_response(&AlertsQuery { status: None });
    assert_eq!(all.total, 1);
    assert_eq!(all.alerts[0].id, "alert-000001");
    assert_eq!(p.alerts_response(&AlertsQuery { status: Some("resolved".to_string()) }).total, 0);
    assert_eq!(p.alerts_response(&AlertsQuery { status: Some("active".to_string()) }).total, 1);
    let top = p.top_talkers_response(&TopTalkersQuery { limit: None }, START);
    assert_eq!(top.window_seconds, 60);
    assert_eq!(top.top_talkers.len(), 1);
    assert_eq!(top.top_talkers[0].source_ip, [10, 0, 0, 50]);
    assert!(top.top_talkers[0].is_flagged);
    assert!(p.top_talkers_response(&TopTalkersQuery { limit: Some(0) }, START).top_talkers.is_empty());
}
