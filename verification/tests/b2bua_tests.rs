use redfire_gateway::b2bua::{B2buaConfig, B2buaService, RouteType, RoutingRule};

fn config_with_emergency_rule() -> B2buaConfig {
    B2buaConfig {
        max_concurrent_calls: 100,
        call_timeout: 300,
        media_timeout: 60,
        default_route_gateway: Some("gateway.example.com".to_string()),
        enable_media_relay: true,
        enable_codec_transcoding: false,
        routing_table: vec![RoutingRule {
            id: "emergency-911".to_string(),
            pattern: "911".to_string(),
            route_type: RouteType::Emergency,
            target: "emergency.psap.com".to_string(),
            priority: 1,
            translation: None,
            codec_preference: vec![],
        }],
    }
}

#[test]
fn test_uri_extraction() {
    let uri = "sip:1234@example.com";
    let user = B2buaService::extract_user_from_uri(uri).unwrap();
    assert_eq!(user, "1234");
}

#[test]
fn test_routing_determination() {
    let config = config_with_emergency_rule();
    let routing = B2buaService::determine_routing("911", &config).unwrap();
    assert!(matches!(routing.route_type, RouteType::Emergency));
    assert_eq!(routing.target_gateway, Some("emergency.psap.com".to_string()));
}
