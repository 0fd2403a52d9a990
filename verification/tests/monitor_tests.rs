use redfire_gateway::b2bua::{B2buaConfig, B2buaService};
use redfire_gateway::timing::{TimingConfig, TimingEvent, TimingService};

#[test]
fn a_clock_without_sync_for_five_minutes_holds_over_once() {
    let mut service = TimingService::new(TimingConfig::default(), 0);
    let mut events = Vec::new();
    service.start(1_000, &mut events);
    let first = service.monitor_clock_sources(2_000);
    assert!(first.is_empty());
    let internal = service.clock_sources.get("internal").unwrap();
    assert_eq!(internal.uptime_secs, 10);
    assert!(!internal.is_holdover);
    let second = service.monitor_clock_sources(400_000);
    assert_eq!(second.len(), 1);
    match &second[0] {
        TimingEvent::ClockHoldover { source_id, reason } => {
            assert_eq!(source_id, "internal");
            assert_eq!(reason, "No sync for 5 minutes");
        }
        _ => panic!("expected a holdover report"),
    }
    assert!(service.clock_sources.get("internal").unwrap().is_holdover);
    assert!(service.monitor_clock_sources(500_000).is_empty());
    assert_eq!(service.clock_sources.get("internal").unwrap().uptime_secs, 30);
}

#[test]
fn gps_reports_without_a_receiver_change_nothing() {
    let mut service = TimingService::new(TimingConfig::default(), 0);
    let mut events = Vec::new();
    service.update_gps_receiver(9, redfire_gateway::timing::GpsAntennaStatus::AntennaOk, 5, &mut events);
    assert!(events.is_empty());
    assert!(service.clock_sources.get("gps").is_none());
}

#[test]
fn idle_calls_time_out() {
    let config = B2buaConfig {
        max_concurrent_calls: 10,
        call_timeout: 300,
        media_timeout: 60,
        default_route_gateway: Some("gw.example.com".to_string()),
        enable_media_relay: false,
        enable_codec_transcoding: false,
        routing_table: vec![],
    };
    let mut service = B2buaService::new(config).unwrap();
    let call_id = service.handle_incoming_call("leg-a".to_string(), "sip:1000@a.com", "sip:2000@b.com", 1_000).unwrap();
    assert!(service.expire_idle_calls(200_000).is_empty());
    let expired = service.expire_idle_calls(302_000);
    assert_eq!(expired.len(), 1);
    assert_eq!(expired[0].id, call_id);
    assert!(service.calls.get(&call_id).is_none());
}
