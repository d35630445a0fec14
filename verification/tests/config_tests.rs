use proc_monitor::config::{
    action_from_lowercase, config_location, ActionTable, ActionType, ConfigLocation,
    MonitorConfig, ProcessConfig, ProcessMonitored,
};

#[test]
fn action_names_ignore_case() {
    assert_eq!(ActionType::from_name("close").ok(), Some(ActionType::Close));
    assert_eq!(ActionType::from_name("CLOSE").ok(), Some(ActionType::Close));
    assert_eq!(ActionType::from_name("Start").ok(), Some(ActionType::Start));
    assert_eq!(ActionType::from_name("sTaRt").ok(), Some(ActionType::Start));
}

#[test]
fn unknown_action_keeps_its_name() {
    let e = ActionType::from_name("Stop").err().unwrap();
    assert_eq!(e.name, "Stop");
    assert!(ActionType::from_name("").is_err());
    assert!(ActionType::from_name(" close").is_err());
}

#[test]
fn lowercase_names_only() {
    assert_eq!(action_from_lowercase("close"), Some(ActionType::Close));
    assert_eq!(action_from_lowercase("start"), Some(ActionType::Start));
    assert_eq!(action_from_lowercase("Close"), None);
    assert_eq!(action_from_lowercase("kill"), None);
}

fn table(p: &ProcessConfig) -> Vec<(String, ActionType)> {
    p.action.entries().clone()
}

#[test]
fn insert_action_adds_and_replaces() {
    let mut p = ProcessConfig::new("steam.exe".to_string(), 5);
    assert_eq!(p.action.len(), 0);
    p.action.insert("clash.exe".to_string(), ActionType::Close);
    p.action.insert("notes.exe".to_string(), ActionType::Start);
    p.action.insert("clash.exe".to_string(), ActionType::Start);
    assert_eq!(
        table(&p),
        vec![
            ("clash.exe".to_string(), ActionType::Start),
            ("notes.exe".to_string(), ActionType::Start)
        ]
    );
    assert_eq!(p.monitored, "steam.exe");
    assert_eq!(p.check_interval, 5);
    let copy = p.clone();
    assert_eq!(table(&copy), table(&p));
}

#[test]
fn table_reinsert_keeps_order_and_size() {
    let mut t = ActionTable::new();
    t.insert("a".to_string(), ActionType::Close);
    t.insert("b".to_string(), ActionType::Close);
    t.insert("a".to_string(), ActionType::Close);
    assert_eq!(t.len(), 2);
    assert_eq!(t.entries()[0].0, "a");
    assert_eq!(t.entries()[1].0, "b");
}

fn watched(interval: u64) -> ProcessConfig {
    ProcessConfig::new("x".to_string(), interval)
}

#[test]
fn interval_is_the_smallest() {
    let c = MonitorConfig { process: vec![watched(5), watched(3), watched(7)] };
    assert_eq!(c.min_check_interval(), 3);
    let c = MonitorConfig { process: vec![watched(42)] };
    assert_eq!(c.min_check_interval(), 42);
}

#[test]
fn interval_defaults_to_ten() {
    let c = ProcessMonitored { monitor: MonitorConfig { process: vec![] } };
    assert_eq!(c.monitor.min_check_interval(), 10);
}

#[test]
fn config_location_prefers_working_directory() {
    assert_eq!(config_location(true, None), ConfigLocation::WorkingDirectory);
    assert_eq!(config_location(true, Some(true)), ConfigLocation::WorkingDirectory);
    assert_eq!(config_location(false, Some(true)), ConfigLocation::ExecutableDirectory);
    assert_eq!(config_location(false, Some(false)), ConfigLocation::WorkingDirectory);
    assert_eq!(config_location(false, None), ConfigLocation::WorkingDirectory);
}
