use redfire_gateway::timing::{StratumLevel, TdmClockQuality, TimingConfig, TimingService};

#[test]
fn test_timing_service_creation() {
    let service = TimingService::new(TimingConfig::default(), 0);
    assert!(!service.is_running);
    assert_eq!(service.get_stratum_level(), StratumLevel::Invalid);
}

#[test]
fn test_clock_source_management() {
    let mut service = TimingService::new(TimingConfig::default(), 0);
    let mut events = Vec::new();
    service.start(1_000, &mut events);
    let sources = service.get_clock_sources();
    assert!(sources.get("internal").is_some());
    service.add_tdmoe_clock_source(1, TdmClockQuality::Primary, 2_000, &mut events);
    let sources = service.get_clock_sources();
    assert!(sources.get("tdmoe-span-1").is_some());
    assert_eq!(service.get_selected_clock(), Some("tdmoe-span-1".to_string()));
    assert_eq!(service.get_stratum_level(), StratumLevel::Stratum1);
    service.stop();
}

#[test]
fn test_stratum_levels() {
    assert!(StratumLevel::Stratum1 < StratumLevel::Stratum2);
    assert!(StratumLevel::Stratum0.max_drift_ns_per_sec() < StratumLevel::Stratum1.max_drift_ns_per_sec());
    assert_eq!(TdmClockQuality::Primary.to_stratum_level(), StratumLevel::Stratum1);
}
