use redfire_gateway::auto_detection::{AutoDetectionConfig, AutoDetectionService};
use redfire_gateway::b2bua::{B2buaConfig, B2buaService};
use redfire_gateway::cdr::{BillingCategory, BillingConfig, BillingInfo, CdrService};
use redfire_gateway::debug::{BChannelState, DebugConfig, DebugService};
use redfire_gateway::interface_testing::{InterfaceTestingService, TestPattern};
use redfire_gateway::media_relay::{MediaProcessingConfig, MediaRelayService};
use redfire_gateway::snmp::{MibAccess, Oid, SnmpConfig, SnmpService};
use redfire_gateway::test_automation::{SessionIssue, SessionTally, TestAutomationService, TestScenario};
use redfire_gateway::GatewayError;
use redfire_gateway::testing::{
    finish_bert_test, finish_loopback_test, record_bert_second, record_loopback_probe, BertConfig, BertPattern, LoopbackConfig,
    LoopbackType, TestStatus, TestingConfig, TestingService,
};
use redfire_gateway::transcoding::{CodecType, TranscodingBackend, TranscodingSessions};

#[test]
fn test_b2bua_service_creation() {
    let config = B2buaConfig {
        max_concurrent_calls: 100,
        call_timeout: 300,
        media_timeout: 60,
        default_route_gateway: None,
        enable_media_relay: true,
        enable_codec_transcoding: false,
        routing_table: vec![],
    };
    let service = B2buaService::new(config);
    assert!(service.is_ok());
}

fn billing_info() -> BillingInfo {
    BillingInfo {
        account_id: "test".to_string(),
        rate_plan: "standard".to_string(),
        rate_per_minute_micro: 100_000,
        currency: "USD".to_string(),
        cost_micro: 0,
        tax_amount_micro: 0,
        billing_increment_seconds: 60,
        minimum_charge_seconds: 60,
        carrier_cost_micro: 70_000,
        margin_micro: 30_000,
        billing_category: BillingCategory::Local,
    }
}

#[test]
fn test_billing_calculation() {
    let service = CdrService::new(BillingConfig::default());
    let info = billing_info();
    assert_eq!(service.calculate_billable_duration(45, &info), 60);
    assert_eq!(service.calculate_billable_duration(90, &info), 120);
    assert_eq!(service.calculate_call_cost(120, &info), 200_000);
}

#[test]
fn billing_rounds_up_to_whole_increments() {
    let service = CdrService::new(BillingConfig::default());
    let mut info = billing_info();
    info.billing_increment_seconds = 6;
    info.minimum_charge_seconds = 30;
    assert_eq!(service.calculate_billable_duration(0, &info), 30);
    assert_eq!(service.calculate_billable_duration(31, &info), 36);
    assert_eq!(service.calculate_billable_duration(36, &info), 36);
    info.billing_increment_seconds = 0;
    assert_eq!(service.calculate_billable_duration(31, &info), 31);
}

#[test]
fn test_debug_service_creation() {
    let service = DebugService::new(DebugConfig::default());
    assert!(!service.is_running());
}

#[test]
fn test_sip_debug_enable() {
    let mut service = DebugService::new(DebugConfig::default());
    service.set_sip_debug(true).unwrap();
    assert!(service.config.sip_debug_enabled);
}

#[test]
fn test_channel_status_update() {
    let mut service = DebugService::new(DebugConfig::default());
    service
        .update_channel_status(
            1,
            1,
            BChannelState::Connected,
            Some((Some("test-call".to_string()), Some("1234".to_string()), Some("5678".to_string()))),
            1_000,
        )
        .unwrap();
    let channels = service.get_channel_status(Some(1));
    assert_eq!(channels.len(), 1);
    assert_eq!(channels[0].state, BChannelState::Connected);
    assert_eq!(channels[0].call_id, Some("test-call".to_string()));
}

#[test]
fn interface_testing_test_service_creation() {
    let service = InterfaceTestingService::new();
    assert!(service.get_active_tests().is_empty());
}

#[test]
fn test_cross_port_test() {
    let mut service = InterfaceTestingService::new();
    let test_id = service.start_cross_port_test(1, 2, None, TestPattern::Alternating, 100, 0).unwrap();
    assert!(service.get_active_tests().contains(&test_id));
}

#[test]
fn test_pattern_generation() {
    let tone: Vec<i16> = vec![];
    let zeros = InterfaceTestingService::generate_frame_data(&TestPattern::AllZeros, 10, &tone);
    assert_eq!(zeros.len(), 10);
    assert!(zeros.iter().all(|&b| b == 0));
    let ones = InterfaceTestingService::generate_frame_data(&TestPattern::AllOnes, 10, &tone);
    assert_eq!(ones.len(), 10);
    assert!(ones.iter().all(|&b| b == 0xFF));
    let alt = InterfaceTestingService::generate_frame_data(&TestPattern::Alternating, 4, &tone);
    assert_eq!(alt.len(), 4);
}

#[test]
fn tone_frame_holds_half_its_size_in_samples() {
    let tone: Vec<i16> = vec![0x0102, -2, 7, 9];
    let frame = InterfaceTestingService::generate_frame_data(&TestPattern::ToneGeneration(1000), 6, &tone);
    assert_eq!(frame, vec![0x02, 0x01, 0xFE, 0xFF, 7, 0]);
    let padded = InterfaceTestingService::generate_frame_data(&TestPattern::ToneGeneration(1000), 11, &tone);
    assert_eq!(padded, vec![0x02, 0x01, 0xFE, 0xFF, 7, 0, 9, 0, 0, 0]);
}

#[test]
fn test_media_relay_service_creation() {
    let service = MediaRelayService::new(MediaProcessingConfig::default());
    assert!(!service.is_running);
}

#[test]
fn test_oid_creation() {
    let oid = Oid::from_string("1.3.6.1.2.1.1.1.0").unwrap();
    assert_eq!(oid.components, vec![1, 3, 6, 1, 2, 1, 1, 1, 0]);
    assert_eq!(oid.to_string(), "1.3.6.1.2.1.1.1.0");
}

fn snmp_config() -> SnmpConfig {
    SnmpConfig {
        enabled: true,
        community: "public".to_string(),
        port: 1161,
        bind_address: "127.0.0.1".to_string(),
        version: "v2c".to_string(),
    }
}

#[test]
fn test_snmp_service_creation() {
    let service = SnmpService::new(snmp_config());
    assert!(!service.is_running());
}

#[test]
fn test_mib_initialization() {
    let mut service = SnmpService::new(snmp_config());
    service.initialize_mib().unwrap();
    let mib = &service.mib_tree;
    assert!(mib.len() > 0);
    let sys_descr_oid = Oid::new(vec![1, 3, 6, 1, 2, 1, 1, 1]);
    assert!(mib.contains_key(&sys_descr_oid));
}

#[test]
fn the_standard_mib_names_its_objects_and_setters() {
    let mut service = SnmpService::new(snmp_config());
    service.initialize_mib().unwrap();
    let nodes = &service.mib_tree.nodes;
    assert_eq!(nodes.len(), 8);
    assert_eq!(nodes[0].name, "sysDescr");
    assert_eq!(nodes[0].value_getter, Some("get_sys_descr".to_string()));
    assert_eq!(nodes[1].value_getter, Some("get_sys_object_id".to_string()));
    assert_eq!(nodes[3].name, "sysContact");
    assert!(matches!(nodes[3].access, MibAccess::ReadWrite));
    assert_eq!(nodes[3].value_setter, Some("set_sys_contact".to_string()));
    assert!(matches!(nodes[7].access, MibAccess::ReadOnly));
    assert_eq!(nodes[7].value_setter, None);
}

#[test]
fn test_automation_test_service_creation() {
    let service = TestAutomationService::new();
    assert!(service.get_active_sessions().is_empty());
}

#[test]
fn test_basic_connectivity_scenario() {
    let mut service = TestAutomationService::new();
    let scenario = TestScenario::BasicConnectivity { spans: vec![1, 2] };
    let session_id = service.start_session(scenario, 0).unwrap();
    assert!(service.get_session_status(session_id).is_some());
}

#[test]
fn test_testing_service_creation() {
    let service = TestingService::new(TestingConfig::default());
    assert!(service.config.loopback_enabled);
    assert!(service.config.bert_enabled);
}

#[test]
fn test_loopback_test() {
    let mut service = TestingService::new(TestingConfig::default());
    let config = LoopbackConfig { channel: 1, loopback_type: LoopbackType::Local, timeout_ms: 5_000, test_duration_ms: Some(500) };
    service.start_loopback_test(config, 0).unwrap();
    assert!(service.get_active_loopback_tests().get(1).is_some());
}

#[test]
fn test_bert_test() {
    let mut service = TestingService::new(TestingConfig::default());
    let config = BertConfig { channel: 1, pattern: BertPattern::Prbs23, duration_ms: 500, bit_rate: 64_000, error_threshold_ppb: 1_000_000 };
    service.start_bert_test(config, 0).unwrap();
    assert!(service.get_active_bert_tests().get(1).is_some());
}

#[test]
fn a_finished_loopback_reports_its_round_trips() {
    let mut service = TestingService::new(TestingConfig::default());
    let config = LoopbackConfig { channel: 2, loopback_type: LoopbackType::Remote, timeout_ms: 5_000, test_duration_ms: None };
    service.start_loopback_test(config, 0).unwrap();
    let mut result = service.get_active_loopback_tests().get(2).unwrap().clone();
    record_loopback_probe(&mut result, 999_999, 3);
    record_loopback_probe(&mut result, 999_999, -4);
    record_loopback_probe(&mut result, 999_999, 5);
    finish_loopback_test(&mut result, 1_000);
    assert_eq!(result.packets_sent, 3);
    assert_eq!(result.packets_received, 3);
    assert!(result.min_rtt_us <= result.avg_rtt_us && result.avg_rtt_us <= result.max_rtt_us);
    assert_eq!(result.min_rtt_us, 20_000);
    assert_eq!(result.max_rtt_us, 25_000);
    assert!(result.success);
}

#[test]
fn a_failed_bert_run_carries_its_message() {
    let mut service = TestingService::new(TestingConfig::default());
    let config = BertConfig { channel: 4, pattern: BertPattern::Prbs31, duration_ms: 1_000, bit_rate: 2_048_000, error_threshold_ppb: 1 };
    service.start_bert_test(config, 0).unwrap();
    let mut result = service.get_active_bert_tests().get(4).unwrap().clone();
    record_bert_second(&mut result, 1_000, 1_000);
    finish_bert_test(&mut result, 1, 1_000, "BER too high".to_string());
    assert!(result.error_bits > 0);
    assert!(!result.success);
    assert_eq!(result.status, TestStatus::Failed);
    assert_eq!(result.error_message, Some("BER too high".to_string()));
    let mut clean = service.get_active_bert_tests().get(4).unwrap().clone();
    finish_bert_test(&mut clean, 1, 1_000, "BER too high".to_string());
    assert!(clean.success);
    assert_eq!(clean.error_message, None);
}

#[test]
fn a_second_loopback_on_a_busy_channel_is_refused() {
    let mut service = TestingService::new(TestingConfig::default());
    let config = || LoopbackConfig { channel: 3, loopback_type: LoopbackType::Remote, timeout_ms: 5_000, test_duration_ms: None };
    service.start_loopback_test(config(), 0).unwrap();
    assert!(service.start_loopback_test(config(), 1).is_err());
}

#[test]
fn codec_names_read_back_as_their_codecs() {
    for codec in [CodecType::G711u, CodecType::G711a, CodecType::G722, CodecType::G729, CodecType::Opus, CodecType::Amr,
        CodecType::AmrWb, CodecType::Evs, CodecType::Ilbc, CodecType::Speex, CodecType::G726] {
        let name = codec.to_name().to_string();
        assert!(CodecType::from_name(&name).same_as(&codec));
        assert!(CodecType::from_name(&name.to_lowercase()).same_as(&codec));
    }
    assert!(matches!(CodecType::from_name("pcmu"), CodecType::G711u));
}

#[test]
fn oid_text_reads_back_as_the_oid() {
    for components in [vec![], vec![0], vec![1, 3, 6, 1, 4, 1, 99999, 4294967295]] {
        let oid = Oid { components: components.clone() };
        assert_eq!(Oid::from_string(&oid.to_string()).unwrap().components, components);
    }
}

#[test]
fn test_codec_type_conversion() {
    assert!(matches!(CodecType::from_name("pcmu"), CodecType::G711u));
    assert!(matches!(CodecType::from_name("G722"), CodecType::G722));
    assert_eq!(CodecType::G711a.to_name(), "PCMA");
}

#[test]
fn transcoding_sessions_pass_payloads_through() {
    let mut sessions = TranscodingSessions::new();
    sessions.create_transcoding_session(
        "session-1".to_string(),
        "test-call",
        CodecType::G711u,
        CodecType::G722,
        8000,
        16000,
        TranscodingBackend::Auto,
        0,
    );
    let input_data: Vec<u8> = vec![1, 2, 3, 4, 5];
    let output_data = sessions.transcode_packet("session-1", &input_data, 0);
    assert_eq!(input_data, output_data);
    assert!(sessions.destroy_transcoding_session("session-1").is_some());
}

#[test]
fn test_auto_detection_service_creation() {
    let service = AutoDetectionService::new(AutoDetectionConfig::default());
    assert!(!service.is_running());
}

#[test]
fn test_start_detection() {
    let mut service = AutoDetectionService::new(AutoDetectionConfig::default());
    service.start().unwrap();
    assert!(service.is_running());
    service.start_detection(1, 0).unwrap();
    let states = service.get_all_detection_states();
    let state = states.iter().find(|s| s.span_id == 1);
    assert!(state.is_some());
    assert!(state.unwrap().is_detecting);
}

#[test]
fn test_detection_results() {
    let mut service = AutoDetectionService::new(AutoDetectionConfig::default());
    service.start_detection(1, 0).unwrap();
    let result = service.get_detection_results(1);
    assert!(result.is_some());
    assert_eq!(result.unwrap().span_id, 1);
}

#[test]
fn one_detection_pass_completes_a_span() {
    let mut service = AutoDetectionService::new(AutoDetectionConfig::default());
    service.start_detection(7, 0).unwrap();
    assert_eq!(service.due_spans(10), vec![7]);
    let done = service.detect_span_characteristics(7, 10);
    assert!(done);
    assert!(!service.get_detection_results(7).unwrap().is_detecting);
    assert!(service.due_spans(20).is_empty());
    let config = service.get_recommended_config(7).unwrap();
    assert_eq!(config.framing, "crc4");
    assert_eq!(config.switch_type, "euroISDN");
    assert_eq!(config.channels.len(), 30);
    assert!(!config.channels.contains(&16));
    assert_eq!(config.confidence_score_permille, 900);
}

#[test]
fn detection_is_refused_when_disabled_and_retries_run_out() {
    let mut config = AutoDetectionConfig::default();
    config.enabled = false;
    let mut disabled = AutoDetectionService::new(config);
    assert!(disabled.start_detection(1, 0).is_err());

    let mut service = AutoDetectionService::new(AutoDetectionConfig::default());
    service.start_detection(2, 0).unwrap();
    for t in 1..=3 {
        service.retry_detection(2, t).unwrap();
    }
    assert_eq!(service.get_detection_results(2).unwrap().retry_count, 3);
    assert!(service.retry_detection(2, 4).is_err());
}

#[test]
fn a_lost_probe_changes_only_the_sent_count() {
    let mut service = TestingService::new(TestingConfig::default());
    let config = LoopbackConfig { channel: 5, loopback_type: LoopbackType::Local, timeout_ms: 5_000, test_duration_ms: None };
    service.start_loopback_test(config, 0).unwrap();
    let before = service.get_active_loopback_tests().get(5).unwrap().clone();
    let mut result = before.clone();
    record_loopback_probe(&mut result, 0, 2);
    assert_eq!(result.packets_sent, 1);
    assert_eq!(result.packets_received, 0);
    assert!(result.round_trip_times_us.is_empty());
    assert_eq!(result.error_message, before.error_message);
    assert_eq!(result.avg_rtt_us, before.avg_rtt_us);
    assert_eq!(result.jitter_us, before.jitter_us);
    assert_eq!(result.success, before.success);
    assert_eq!(result.end_ms, before.end_ms);
    assert_eq!(result.status, before.status);
}

#[test]
fn a_loopback_that_loses_every_probe_fails_with_a_message() {
    let mut service = TestingService::new(TestingConfig::default());
    let config = LoopbackConfig { channel: 6, loopback_type: LoopbackType::Line, timeout_ms: 5_000, test_duration_ms: None };
    service.start_loopback_test(config, 0).unwrap();
    let mut result = service.get_active_loopback_tests().get(6).unwrap().clone();
    record_loopback_probe(&mut result, 0, 0);
    record_loopback_probe(&mut result, 100, 0);
    finish_loopback_test(&mut result, 2_000);
    assert_eq!(result.packets_lost, 2);
    assert!(!result.success);
    assert_eq!(result.status, TestStatus::Failed);
    assert!(result.error_message.is_some());
    assert_eq!(result.end_ms, Some(2_000));
}

#[test]
fn a_step_that_cannot_start_is_a_critical_issue() {
    let mut tally = SessionTally::new();
    tally.record_start_failure("Loopback Test - Span 1", &GatewayError::InvalidState("span busy".to_string()));
    assert_eq!(tally.failed_tests, 1);
    assert_eq!(tally.passed_tests, 0);
    assert!(tally.test_results.is_empty());
    assert!(tally.recommendations.is_empty());
    assert_eq!(tally.critical_issues.len(), 1);
    match &tally.critical_issues[0] {
        SessionIssue::StartFailed { step_name, error } => {
            assert_eq!(step_name, "Loopback Test - Span 1");
            assert_eq!(error, "span busy");
        }
        _ => panic!("expected a start failure"),
    }
}
