use proc_monitor::config::{ActionTable, ActionType, MonitorConfig, ProcessConfig};
use proc_monitor::monitor::{MonitorState, Transition};
use proc_monitor::process::{is_process_running, plan_actions, plan_closes, PlannedAction};
use sysinfo::System;

#[test]
fn new_state_detects_nothing() {
    let s = MonitorState::new(3);
    assert_eq!(s.len(), 3);
    assert!((0..3).all(|i| !s.is_detected(i)));
}

#[test]
fn transitions_follow_edges() {
    let mut s = MonitorState::new(2);
    let seen = [false, true, true, true, false, false, true];
    let expected = [
        Transition::Unchanged,
        Transition::Started,
        Transition::Unchanged,
        Transition::Unchanged,
        Transition::Stopped,
        Transition::Unchanged,
        Transition::Started,
    ];
    for (running, want) in seen.iter().zip(expected.iter()) {
        assert_eq!(s.observe(1, *running), *want);
        assert_eq!(s.is_detected(1), *running);
        assert!(!s.is_detected(0));
    }
}

#[test]
fn empty_table_runs_nothing() {
    let sys = System::new();
    assert!(!is_process_running(&sys, "steam.exe"));
    assert!(!is_process_running(&sys, ""));
}

#[test]
fn round_on_empty_table_stops_detected_processes() {
    let sys = System::new();
    let config = MonitorConfig {
        process: vec![
            ProcessConfig::new("a.exe".to_string(), 5),
            ProcessConfig::new("b.exe".to_string(), 5),
        ],
    };
    let mut s = MonitorState::new(2);
    s.observe(1, true);
    let events = s.observe_round(&sys, &config);
    assert_eq!(events, vec![Transition::Unchanged, Transition::Stopped]);
    assert!(!s.is_detected(0) && !s.is_detected(1));
    let events = s.observe_round(&sys, &config);
    assert_eq!(events, vec![Transition::Unchanged, Transition::Unchanged]);
}

#[test]
fn plans_on_empty_table() {
    let sys = System::new();
    let mut actions = ActionTable::new();
    actions.insert("clash.exe".to_string(), ActionType::Close);
    actions.insert("notes.exe".to_string(), ActionType::Start);
    assert_eq!(
        plan_actions(&sys, &actions),
        vec![
            PlannedAction::SkipClose("clash.exe".to_string()),
            PlannedAction::Start("notes.exe".to_string())
        ]
    );
    let names = vec!["a.exe".to_string(), "b.exe".to_string()];
    assert_eq!(
        plan_closes(&sys, &names),
        vec![
            PlannedAction::SkipClose("a.exe".to_string()),
            PlannedAction::SkipClose("b.exe".to_string())
        ]
    );
    assert!(plan_actions(&sys, &ActionTable::new()).is_empty());
}

#[test]
fn own_process_is_seen_running() {
    let sys = System::new_all();
    let pid = sysinfo::get_current_pid().unwrap();
    let name = sys.process(pid).unwrap().name().to_str().unwrap().to_string();
    assert!(is_process_running(&sys, &name));
    let mut actions = ActionTable::new();
    actions.insert(name.clone(), ActionType::Close);
    assert_eq!(plan_actions(&sys, &actions), vec![PlannedAction::Close(name.clone())]);
    let prefix: String = name.chars().take(3).collect();
    assert!(is_process_running(&sys, &prefix));
    assert!(!is_process_running(&sys, "no-such-process-name-here-42"));
}

#[test]
fn closing_a_list_plans_like_a_close_table() {
    let sys = System::new_all();
    let pid = sysinfo::get_current_pid().unwrap();
    let me = sys.process(pid).unwrap().name().to_str().unwrap().to_string();
    let names = vec![me.clone(), "no-such-process-name-here-42".to_string()];
    let mut table = ActionTable::new();
    table.insert("no-such-process-name-here-42".to_string(), ActionType::Close);
    table.insert(me.clone(), ActionType::Close);
    let closes = plan_closes(&sys, &names);
    let actions = plan_actions(&sys, &table);
    assert_eq!(closes[0], actions[1]);
    assert_eq!(closes[1], actions[0]);
    assert_eq!(closes[0], PlannedAction::Close(me));
    assert_eq!(closes[1], PlannedAction::SkipClose("no-such-process-name-here-42".to_string()));
}
