use redfire_gateway::b2bua::{RouteType, RoutingRule};
use redfire_gateway::b2bua::B2buaCallState;
use redfire_gateway::clustering::{
    AnycastManager, ClusteringConfig, ClusteringService, ConsensusAlgorithm, NodeStatus, SharedStateBackend,
    TransactionState,
};
use redfire_gateway::performance::{
    AlertLevel, PerformanceConfig, PerformanceMetrics, PerformanceMonitor, PerformanceThresholds,
};
use redfire_gateway::sip_router::{HealthStatus, LoadBalanceAlgorithm, RouteTarget, RoutingContext, SipRouter};

fn cluster_config() -> ClusteringConfig {
    ClusteringConfig {
        enabled: true,
        cluster_id: "test-cluster".to_string(),
        node_id: "test-node".to_string(),
        anycast_addresses: vec!["192.168.1.100".to_string()],
        sync_port: 8080,
        heartbeat_interval: 30,
        transaction_sync_enabled: true,
        shared_state_backend: SharedStateBackend::Redis {
            addresses: vec!["redis://localhost:6379".to_string()],
            password: None,
        },
        consensus_algorithm: ConsensusAlgorithm::Raft,
    }
}

#[test]
fn test_clustering_service_creation() {
    let service = ClusteringService::new(cluster_config());
    assert!(service.is_ok());
}

#[test]
fn test_anycast_manager() {
    let addresses = vec!["192.168.1.100".to_string(), "192.168.1.101".to_string()];
    let mut manager = AnycastManager::new(addresses);
    let assigned = manager.assign_address("node1", 10).unwrap();
    assert!(assigned.is_some());
    let assigned2 = manager.assign_address("node2", 5).unwrap();
    assert!(assigned2.is_some());
    let assigned3 = manager.assign_address("node3", 1).unwrap();
    assert!(assigned3.is_some());
}

#[test]
fn anycast_claims_reclaim_from_weaker_holders_before_taking_free_addresses() {
    let mut manager = AnycastManager::new(vec!["a".to_string(), "b".to_string()]);
    assert_eq!(manager.assign_address("node1", 10).unwrap(), Some("a".to_string()));
    assert_eq!(manager.assign_address("node2", 5).unwrap(), Some("a".to_string()));
    assert_eq!(manager.assign_address("node3", 1).unwrap(), Some("a".to_string()));
    assert_eq!(manager.assign_address("node4", 50).unwrap(), Some("b".to_string()));
    assert_eq!(manager.assign_address("node5", 60).unwrap(), None);
    let mut held = manager.get_active_addresses();
    held.sort();
    assert_eq!(held, vec![("a".to_string(), "node3".to_string()), ("b".to_string(), "node4".to_string())]);
}

#[test]
fn releasing_undoes_a_claim_on_a_free_address() {
    let mut manager = AnycastManager::new(vec!["a".to_string(), "b".to_string()]);
    manager.assign_address("node1", 10).unwrap();
    let before = manager.get_active_addresses();
    manager.assign_address("node2", 20).unwrap();
    manager.release_address("node2").unwrap();
    assert_eq!(manager.get_active_addresses(), before);
}

#[test]
fn overdue_members_are_failed_once() {
    let mut service = ClusteringService::new(cluster_config()).unwrap();
    let claimed = service.start(1_000).unwrap();
    assert_eq!(claimed, Some("192.168.1.100".to_string()));
    assert!(service.mark_failed_nodes(50_000, 90_000).is_empty());
    let failed = service.mark_failed_nodes(100_000, 90_000);
    assert_eq!(failed, vec![("test-node".to_string(), NodeStatus::Active)]);
    assert!(service.mark_failed_nodes(100_000, 90_000).is_empty());
    assert_eq!(service.get_cluster_nodes()[0].status, NodeStatus::Failed);
}

#[test]
fn transactions_are_created_updated_and_migrated() {
    let mut service = ClusteringService::new(cluster_config()).unwrap();
    let id = service.create_distributed_transaction("call-1", B2buaCallState::Establishing, "leg-a", 10).unwrap();
    assert_eq!(id.len(), 36);
    service.update_transaction_state(&id, TransactionState::Proceeding, 20).unwrap();
    let tx = &service.get_active_transactions()[0];
    assert_eq!(tx.state, TransactionState::Proceeding);
    assert_eq!(tx.last_updated_ms, 20);
    assert_eq!(tx.primary_node, "test-node");
    assert!(!service.migrate_transaction(&id, "node-2", Some(false)).unwrap());
    assert!(service.migrate_transaction(&id, "node-2", Some(true)).unwrap());
    assert!(service.get_active_transactions().is_empty());
}

fn emergency_rule() -> RoutingRule {
    RoutingRule {
        id: "test".to_string(),
        pattern: "^911$".to_string(),
        route_type: RouteType::Emergency,
        target: "emergency".to_string(),
        priority: 1,
        translation: None,
        codec_preference: vec![],
    }
}

fn target(id: &str) -> RouteTarget {
    RouteTarget {
        id: id.to_string(),
        address: "127.0.0.1:5060".to_string(),
        weight: 70,
        priority: 1,
        max_calls: 100,
        current_calls: 10,
        health_status: HealthStatus::Healthy,
        last_health_check_ms: 0,
        response_time_ms: 50,
        success_rate_permille: 995,
    }
}

#[test]
fn test_sip_router_creation() {
    let router = SipRouter::new(vec![emergency_rule()], LoadBalanceAlgorithm::RoundRobin);
    assert!(!router.is_running);
}

#[test]
fn test_stub_routing() {
    let mut router = SipRouter::new(vec![], LoadBalanceAlgorithm::RoundRobin);
    router.start().unwrap();
    let context = RoutingContext {
        call_id: "test".to_string(),
        caller: "1000".to_string(),
        callee: "2000".to_string(),
        original_uri: "sip:2000@example.com".to_string(),
        source_address: "192.168.1.1:5060".to_string(),
        headers: vec![],
        timestamp_ms: 0,
    };
    let result = router.route_call(&context);
    assert!(result.is_ok());
    let decision = result.unwrap();
    assert_eq!(decision.rule_id, "stub-rule");
    assert_eq!(decision.translated_number, "2000");
    assert_eq!(decision.target_uri, "sip:2000@localhost:5060");
    router.stop().unwrap();
}

#[test]
fn test_target_management() {
    let mut router = SipRouter::new(vec![], LoadBalanceAlgorithm::RoundRobin);
    router.add_target(target("target1")).unwrap();
    assert_eq!(router.get_routing_statistics().total_targets, 1);
    router.remove_target("target1").unwrap();
    assert_eq!(router.get_routing_statistics().total_targets, 0);
}

#[test]
fn unknown_targets_are_refused() {
    let mut router = SipRouter::new(vec![], LoadBalanceAlgorithm::LeastConnections);
    assert_eq!(router.remove_target("x").unwrap_err().describe(), "Target not found");
    assert!(router.update_target_calls("x", 3).is_err());
    router.add_target(target("t")).unwrap();
    router.update_target_calls("t", 42).unwrap();
    assert_eq!(router.route_targets.get("t").unwrap().current_calls, 42);
}

fn thresholds() -> PerformanceThresholds {
    PerformanceThresholds {
        cpu_warning_centi: 8000,
        cpu_critical_centi: 9500,
        memory_warning_centi: 8000,
        memory_critical_centi: 9500,
        disk_warning_centi: 8000,
        disk_critical_centi: 9500,
        load_warning_centi: 200,
        load_critical_centi: 400,
        network_error_rate_centi: 100,
        network_utilization_warning_centi: 8000,
    }
}

fn perf_config(history_size: u32) -> PerformanceConfig {
    PerformanceConfig { enabled: true, interval_ms: 1000, history_size, thresholds: thresholds() }
}

fn snapshot(t: u64, cpu: u32, memory: u32) -> PerformanceMetrics {
    PerformanceMetrics {
        timestamp_ms: t,
        cpu_usage_centi: cpu,
        memory_usage_centi: memory,
        memory_total: 1000,
        memory_used: 500,
        load_average_centi: 50,
        disk_usage_centi: 5000,
        disk_total: 1_000_000_000,
        disk_used: 500_000_000,
        network_bytes_sent: 1_000_000,
        network_bytes_received: 800_000,
        network_packets_sent: 1000,
        network_packets_received: 800,
        network_errors_in: 0,
        network_errors_out: 0,
    }
}

#[test]
fn test_performance_monitor_creation() {
    let monitor = PerformanceMonitor::new(perf_config(100)).unwrap();
    assert!(!monitor.is_running());
    assert_eq!(monitor.thresholds.cpu_warning_centi, 8000);
    assert_eq!(monitor.thresholds.memory_critical_centi, 9500);
}

#[test]
fn test_metrics_collection() {
    let mut monitor = PerformanceMonitor::new(perf_config(100)).unwrap();
    monitor.record_metrics(snapshot(1, 1234, 5000));
    let metrics = monitor.get_current_metrics();
    assert!(metrics.is_some());
    let metrics = metrics.unwrap();
    assert_eq!(metrics.cpu_usage_centi, 1234);
    assert!(metrics.memory_total > 0);
}

#[test]
fn thresholds_raise_warning_and_critical_alerts() {
    let mut monitor = PerformanceMonitor::new(perf_config(100)).unwrap();
    let alerts = monitor.record_metrics(snapshot(1, 9600, 8000));
    assert_eq!(alerts.len(), 2);
    assert_eq!(alerts[0].metric, "CPU Usage");
    assert_eq!(alerts[0].level, AlertLevel::Critical);
    assert_eq!(alerts[0].threshold_centi, 9500);
    assert_eq!(alerts[1].metric, "Memory Usage");
    assert_eq!(alerts[1].level, AlertLevel::Warning);
    assert_eq!(alerts[1].threshold_centi, 8000);
    assert!(monitor.record_metrics(snapshot(2, 100, 100)).is_empty());
}

#[test]
fn the_history_keeps_the_newest_snapshots() {
    let mut monitor = PerformanceMonitor::new(perf_config(2)).unwrap();
    for t in 1..=5 {
        monitor.record_metrics(snapshot(t, 0, 0));
    }
    let times: Vec<u64> = monitor.get_metrics_history().iter().map(|m| m.timestamp_ms).collect();
    assert_eq!(times, vec![4, 5]);
    assert_eq!(monitor.get_metrics_since(5).len(), 1);
    assert_eq!(redfire_gateway::performance::usage_centi(500, 1000), Some(5000));
    assert_eq!(redfire_gateway::performance::usage_centi(1, 0), None);
}
