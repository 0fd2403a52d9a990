use redfire_gateway::alarms::{
    alarm_id, AlarmConfig, AlarmManager, AlarmSeverity, AlarmSource, AlarmState, AlarmType, InfoEntry,
};
use redfire_gateway::keyed::KeyedList;
use std::hash::{Hash, Hasher};

fn std_hash(s: &str) -> u32 {
    let mut hasher = std::collections::hash_map::DefaultHasher::new();
    s.hash(&mut hasher);
    hasher.finish() as u32
}

fn test_source() -> AlarmSource {
    AlarmSource { component: "test-component".to_string(), instance: "1".to_string(), location: None }
}

fn raise(manager: &mut AlarmManager, severity: AlarmSeverity, now_ms: i64) -> String {
    manager
        .raise_alarm(severity, AlarmType::Equipment, test_source(), "Test alarm".to_string(), None, None, None, now_ms)
        .unwrap()
}

#[test]
fn test_alarm_manager_creation() {
    let manager = AlarmManager::new(AlarmConfig::default());
    let stats = manager.get_statistics();
    assert_eq!(stats.total_alarms, 0);
    assert_eq!(stats.active_alarms, 0);
}

#[test]
fn test_raise_alarm() {
    let mut manager = AlarmManager::new(AlarmConfig::default());
    let alarm_id = raise(&mut manager, AlarmSeverity::Critical, 1_000);
    assert!(!alarm_id.is_empty());
    let alarms = manager.get_active_alarms();
    assert_eq!(alarms.len(), 1);
    assert_eq!(alarms[0].severity, AlarmSeverity::Critical);
    assert_eq!(alarms[0].description, "Test alarm");
}

#[test]
fn test_clear_alarm() {
    let mut manager = AlarmManager::new(AlarmConfig::default());
    let alarm_id = raise(&mut manager, AlarmSeverity::Major, 1_000);
    manager.clear_alarm(&alarm_id, "test-user".to_string(), 2_000).unwrap();
    let alarms = manager.get_active_alarms();
    assert_eq!(alarms.len(), 0);
    let history = manager.get_alarm_history(None);
    assert_eq!(history.len(), 1);
    assert_eq!(history[0].state, AlarmState::Cleared);
}

#[test]
fn raising_the_same_alarm_twice_updates_it() {
    let mut manager = AlarmManager::new(AlarmConfig::default());
    let first = raise(&mut manager, AlarmSeverity::Minor, 1_000);
    let second = raise(&mut manager, AlarmSeverity::Major, 2_000);
    assert_eq!(first, second);
    let alarms = manager.get_active_alarms();
    assert_eq!(alarms.len(), 1);
    assert_eq!(alarms[0].event_count, 2);
    assert_eq!(alarms[0].severity, AlarmSeverity::Major);
    assert_eq!(alarms[0].last_event_time_ms, 2_000);
}

#[test]
fn alarm_ids_name_the_source_and_a_hash() {
    let a = alarm_id(&test_source(), "Test alarm", &None);
    let b = alarm_id(&test_source(), "Test alarm", &None);
    assert_eq!(a, b);
    assert!(a.starts_with("test-component-1-"));
    let hash = &a["test-component-1-".len()..];
    assert_eq!(hash.len(), 8);
    assert!(hash.chars().all(|c| c.is_ascii_hexdigit() && !c.is_ascii_uppercase()));
}

#[test]
fn clearing_an_unknown_alarm_is_refused() {
    let mut manager = AlarmManager::new(AlarmConfig::default());
    let r = manager.clear_alarm("nope", "test-user".to_string(), 1_000);
    assert!(r.is_err());
    assert_eq!(r.unwrap_err().describe(), "Alarm not found: nope");
}

#[test]
fn clear_after_raise_restores_the_active_set() {
    let mut manager = AlarmManager::new(AlarmConfig::default());
    let id = raise(&mut manager, AlarmSeverity::Warning, 5);
    assert!(manager.get_alarm(&id).is_some());
    manager.clear_alarm(&id, "ops".to_string(), 6).unwrap();
    assert!(manager.get_alarm(&id).is_none());
    assert_eq!(manager.get_active_alarms().len(), 0);
}

#[test]
fn statistics_count_each_alarm_under_one_type() {
    let mut manager = AlarmManager::new(AlarmConfig::default());
    let source = |n: &str| AlarmSource { component: "span".to_string(), instance: n.to_string(), location: None };
    manager.raise_alarm(AlarmSeverity::Critical, AlarmType::Equipment, source("1"), "a".to_string(), None, None, None, 1).unwrap();
    manager.raise_alarm(AlarmSeverity::Minor, AlarmType::Quality, source("2"), "b".to_string(), None, None, None, 2).unwrap();
    manager.raise_alarm(AlarmSeverity::Indeterminate, AlarmType::Security, source("3"), "c".to_string(), None, None, None, 3).unwrap();
    let stats = manager.get_statistics();
    let t = &stats.alarms_by_type;
    assert_eq!(t.equipment + t.environmental + t.processing + t.quality + t.communication + t.security, stats.active_alarms);
    assert_eq!(stats.active_alarms, 3);
    assert_eq!(stats.critical_alarms + stats.major_alarms + stats.minor_alarms + stats.warning_alarms, 2);
}

#[test]
fn alarm_ids_hash_the_information_as_a_map_prints() {
    let mut info = KeyedList::new();
    info.insert(InfoEntry { key: "slot".to_string(), value: "3 \"left\"".to_string() });
    let id = alarm_id(&test_source(), "Fan failure", &Some(info));
    let mut map = std::collections::HashMap::new();
    map.insert("slot".to_string(), "3 \"left\"".to_string());
    let expected = format!("test-component-1-{:08x}", std_hash(&format!("{}{:?}", "Fan failure", map)));
    assert_eq!(id, expected);
    let plain = alarm_id(&test_source(), "Fan failure", &None);
    assert_eq!(plain, format!("test-component-1-{:08x}", std_hash("Fan failure")));
}
