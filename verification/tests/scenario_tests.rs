use netshield::generator::{build_icmp_packet, build_tcp_packet, build_udp_packet};
use netshield::scenarios::build_normal_frame;
use netshield::scenarios::{generate_tick, random_normal_ip, random_src_port, Scenario, ScenarioConfig};

fn config(scenario: Scenario, packets_per_tick: u32, attack_count: usize) -> ScenarioConfig {
    ScenarioConfig {
        scenario,
        packets_per_tick,
        attack_count,
        attacker_ip: [10, 0, 0, 50],
        target_ip: [10, 0, 0, 100],
    }
}

#[test]
fn normal_scenario_generates_correct_count() {
    let config = ScenarioConfig { scenario: Scenario::Normal, packets_per_tick: 100, ..Default::default() };
    let mut rng = rand::thread_rng();
    let batch = generate_tick(&config, &mut rng);
    assert_eq!(batch.len(), 100);
}

#[test]
fn syn_flood_generates_only_syn_packets() {
    let config = ScenarioConfig { scenario: Scenario::SynFlood, packets_per_tick: 50, ..Default::default() };
    let mut rng = rand::thread_rng();
    let batch = generate_tick(&config, &mut rng);
    assert_eq!(batch.len(), 50);
    for pkt in &batch {
        assert_eq!(pkt[23], 6, "expected TCP protocol");
        assert_eq!(pkt[47], 0x02, "expected SYN flag");
    }
}

#[test]
fn mixed_scenario_includes_both_normal_and_attack() {
    // attack ratio 0.3 of 100 packets per tick
    let config = ScenarioConfig { scenario: Scenario::Mixed, packets_per_tick: 100, attack_count: 30, ..Default::default() };
    let mut rng = rand::thread_rng();
    let batch = generate_tick(&config, &mut rng);
    assert_eq!(batch.len(), 100);
}

#[test]
fn mixed_attack_frames_cycle_through_types() {
    let config = config(Scenario::Mixed, 10, 4);
    let mut rng = rand::thread_rng();
    let batch = generate_tick(&config, &mut rng);
    assert_eq!(batch.len(), 10);
    for pkt in &batch[..6] {
        assert_eq!(&pkt[26..29], &[192, 168, 1]);
    }
    let protos: Vec<u8> = batch[6..].iter().map(|p| p[23]).collect();
    assert_eq!(protos, vec![6, 17, 1, 6]);
    for pkt in &batch[6..] {
        assert_eq!(&pkt[26..30], &[10, 0, 0, 50]);
    }
    assert_eq!(batch[6][47], 0x02);
}

#[test]
fn mixed_with_more_attacks_than_packets() {
    let config = config(Scenario::Mixed, 3, 5);
    let mut rng = rand::thread_rng();
    assert_eq!(generate_tick(&config, &mut rng).len(), 5);
}

#[test]
fn flood_scenarios_use_the_attacker() {
    let mut rng = rand::thread_rng();
    for pkt in generate_tick(&config(Scenario::UdpFlood, 20, 0), &mut rng) {
        assert_eq!(pkt[23], 17);
        assert_eq!(&pkt[26..30], &[10, 0, 0, 50]);
        assert_eq!(&pkt[36..38], &[0, 53]);
        assert!(u16::from_be_bytes([pkt[34], pkt[35]]) >= 1024);
    }
    let echo = generate_tick(&config(Scenario::IcmpFlood, 20, 0), &mut rng);
    assert_eq!(echo.len(), 20);
    assert!(echo.iter().all(|p| p[23] == 1 && p[26..30] == [10, 0, 0, 50]));
}

#[test]
fn random_values_stay_in_range() {
    let mut rng = rand::thread_rng();
    for _ in 0..1000 {
        let ip = random_normal_ip(&mut rng);
        assert_eq!(&ip[..3], &[192, 168, 1]);
        assert!(ip[3] >= 1 && ip[3] <= 254);
        assert!(random_src_port(&mut rng) >= 1024);
    }
}

#[test]
fn default_scenario_config() {
    let c = ScenarioConfig::default();
    assert_eq!(c.scenario, Scenario::Mixed);
    assert_eq!(c.packets_per_tick, 50);
    assert_eq!(c.attack_count, 5);
    assert_eq!(c.attacker_ip, [10, 0, 0, 50]);
    assert_eq!(c.target_ip, [10, 0, 0, 100]);
}

#[test]
fn normal_frame_kind_follows_the_draw() {
    let src = [192, 168, 1, 9];
    let dst = [10, 0, 0, 100];
    for choice in 0..6 {
        assert_eq!(build_normal_frame(src, dst, 5000, choice), build_tcp_packet(src, dst, 5000, 80, 0x10));
    }
    for choice in 6..9 {
        assert_eq!(build_normal_frame(src, dst, 5000, choice), build_udp_packet(src, dst, 5000, 53));
    }
    assert_eq!(build_normal_frame(src, dst, 5000, 9), build_icmp_packet(src, dst));
}
