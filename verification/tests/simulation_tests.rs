use netshield::config::DetectionConfig;
use netshield::generator::{build_tcp_packet, build_udp_packet};
use netshield::simulation::{encode_frames, IngestOutcome, IngestReply, LocalRun, RemoteTally, SimClock};

const START: u64 = 1_000_000_000_000;
const SEC: u64 = 1_000_000_000;

#[test]
fn clock_stops_after_duration() {
    let clock = SimClock::new(START, 30, 5);
    assert!(!clock.finished(START));
    assert!(!clock.finished(START + 30 * SEC - 1));
    assert!(clock.finished(START + 30 * SEC));
    assert!(clock.finished(START + 31 * SEC));
    assert!(!clock.finished(START - 1));
}

#[test]
fn clock_with_zero_duration_runs_forever() {
    let clock = SimClock::new(START, 0, 5);
    assert!(!clock.finished(u64::MAX));
}

#[test]
fn clock_reports_each_interval() {
    let mut clock = SimClock::new(START, 30, 5);
    assert!(!clock.report_due(START + 4 * SEC));
    assert_eq!(clock.last_report, START);
    assert!(clock.report_due(START + 5 * SEC));
    assert_eq!(clock.last_report, START + 5 * SEC);
    assert!(!clock.report_due(START + 9 * SEC));
    assert!(clock.report_due(START + 10 * SEC + 1));
    assert_eq!(clock.last_report, START + 10 * SEC + 1);
}

#[test]
fn local_run_counts_and_detects() {
    let config = DetectionConfig { syn_flood_threshold_pps: 1, detection_window_seconds: 1, alert_cooldown_seconds: 2, ..DetectionConfig::default() };
    let mut run = LocalRun::new(config);
    assert!(run.has_room(3));
    let batch = vec![
        build_tcp_packet([10, 0, 0, 50], [10, 0, 0, 100], 40000, 80, 0x02),
        vec![1, 2, 3],
        build_udp_packet([192, 168, 1, 2], [10, 0, 0, 100], 5000, 53),
        build_tcp_packet([10, 0, 0, 50], [10, 0, 0, 100], 40001, 80, 0x02),
    ];
    let alerts = run.tick(&batch, 0, START);
    assert_eq!(alerts.len(), 1);
    assert_eq!(alerts[0].source_ip, [10, 0, 0, 50]);
    assert_eq!(alerts[0].id, "alert-000001");
    assert_eq!(run.accumulator_ref().total_packets, 3);
    assert_eq!(run.accumulator_ref().total_bytes, 40 + 28 + 40);
    assert_eq!(run.alerts_raised(), 1);

    // Once the alert has gone stale it is resolved, and a new burst raises a new one.
    let quiet: Vec<Vec<u8>> = Vec::new();
    assert!(run.tick(&quiet, 0, START + 3 * SEC).is_empty());
    let again = run.tick(&batch[..1].to_vec(), 0, START + 4 * SEC);
    assert_eq!(again.len(), 1);
    assert_eq!(again[0].id, "alert-000002");
    assert_eq!(run.alerts_raised(), 2);
}

#[test]
fn local_run_room_is_bounded() {
    let run = LocalRun::new(DetectionConfig::default());
    assert!(run.has_room(1000));
    assert!(!run.has_room(u64::MAX));
}

#[test]
fn remote_tally_counts_replies() {
    let mut tally = RemoteTally::new();
    let reply = IngestOutcome::Accepted(Some(IngestReply { parsed: Some(40), alerts_generated: None }));
    assert!(tally.can_record(&reply, 50));
    assert!(!tally.record(&reply, 50));
    assert_eq!((tally.total_sent, tally.total_parsed, tally.total_alerts, tally.send_errors), (50, 40, 0, 0));
    assert!(!tally.record(&IngestOutcome::Accepted(None), 50));
    assert_eq!((tally.total_sent, tally.total_parsed, tally.total_alerts, tally.send_errors), (100, 40, 0, 0));
    let alerts = IngestOutcome::Accepted(Some(IngestReply { parsed: Some(50), alerts_generated: Some(2) }));
    tally.record(&alerts, 50);
    assert_eq!((tally.total_sent, tally.total_parsed, tally.total_alerts), (150, 90, 2));
}

#[test]
fn remote_tally_warns_on_first_three_failures() {
    let mut tally = RemoteTally::new();
    assert!(tally.record(&IngestOutcome::Rejected, 50));
    assert!(tally.record(&IngestOutcome::Unreachable, 50));
    assert!(tally.record(&IngestOutcome::Rejected, 50));
    assert!(!tally.record(&IngestOutcome::Unreachable, 50));
    assert_eq!(tally.send_errors, 4);
    assert_eq!(tally.total_sent, 0);
}

#[test]
fn remote_tally_refuses_overflow() {
    let tally = RemoteTally { total_sent: u64::MAX - 10, total_parsed: 0, total_alerts: 0, send_errors: u64::MAX };
    assert!(tally.can_record(&IngestOutcome::Accepted(None), 10));
    assert!(!tally.can_record(&IngestOutcome::Accepted(None), 11));
    assert!(!tally.can_record(&IngestOutcome::Rejected, 1));
}

#[test]
fn pipeline_room_check() {
    let p = netshield::pipeline::Pipeline::new(DetectionConfig::default());
    assert!(p.has_room(1));
    assert!(!p.has_room(u64::MAX / 2));
}

#[test]
fn encode_frames_gives_base64_of_each_frame() {
    let texts = encode_frames(&vec![vec![1, 2, 3], vec![], vec![0xff]]);
    assert_eq!(texts, vec!["AQID".to_string(), String::new(), "/w==".to_string()]);
    let batch = vec![build_tcp_packet([10, 0, 0, 50], [10, 0, 0, 100], 40000, 80, 0x02)];
    let mut p = netshield::pipeline::Pipeline::new(DetectionConfig::default());
    let resp = p.ingest(&encode_frames(&batch), 0, START).unwrap();
    assert_eq!((resp.received, resp.parsed), (1, 1));
}
