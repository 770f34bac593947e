use vstd::prelude::*;

verus! {

/// Detection engine thresholds and timing configuration.
#[derive(Debug, Clone, Copy, PartialEq, Eq, Structural)]
pub struct DetectionConfig {
    pub syn_flood_threshold_pps: u64,
    pub udp_flood_threshold_pps: u64,
    pub icmp_flood_threshold_pps: u64,
    pub dns_amplification_threshold_pps: u64,
    pub detection_window_seconds: u64,
    pub alert_cooldown_seconds: u64,
}

impl Default for DetectionConfig {
    /// SYN 1000 pps, UDP 5000 pps, ICMP 2000 pps, DNS amplification 500 pps,
    /// a 10-second detection window and a 30-second alert cooldown.
    fn default() -> (cfg: DetectionConfig)
        ensures
            cfg == (DetectionConfig {
                syn_flood_threshold_pps: 1_000,
                udp_flood_threshold_pps: 5_000,
                icmp_flood_threshold_pps: 2_000,
                dns_amplification_threshold_pps: 500,
                detection_window_seconds: 10,
                alert_cooldown_seconds: 30,
            }),
    {
        DetectionConfig {
            syn_flood_threshold_pps: 1_000,
            udp_flood_threshold_pps: 5_000,
            icmp_flood_threshold_pps: 2_000,
            dns_amplification_threshold_pps: 500,
            detection_window_seconds: 10,
            alert_cooldown_seconds: 30,
        }
    }
}

} // verus!
