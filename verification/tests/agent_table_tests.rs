use openhawk::agents::{command_parts, AgentTable};
use openhawk::types::LifecycleState;

#[test]
fn entry_command_splits_into_program_and_arguments() {
    let (program, args) = command_parts("  python3   agent.py --fast ").unwrap();
    assert_eq!(program, "python3");
    assert_eq!(args, vec!["agent.py".to_string(), "--fast".to_string()]);
    let (program, args) = command_parts("sleep").unwrap();
    assert_eq!(program, "sleep");
    assert!(args.is_empty());
}

#[test]
fn blank_entry_command_is_an_invalid_manifest() {
    let e = command_parts(" \t ").unwrap_err();
    assert_eq!(e.message(), "Invalid manifest: entry_command must not be empty");
    assert!(command_parts("").is_err());
}

#[test]
fn requests_about_unknown_agents_are_refused() {
    let mut t = AgentTable::new();
    assert_eq!(t.require_agent(42).unwrap_err().message(), "Not found: agent 42");
    t.insert_running(42, "writer".to_string(), "s-1".to_string(), 0);
    assert!(t.require_agent(42).is_ok());
    assert_eq!(t.state_of(42), Some(LifecycleState::Running));
    t.update_state(42, LifecycleState::Paused);
    assert_eq!(t.state_of(42), Some(LifecycleState::Paused));
    t.update_state(7, LifecycleState::Paused);
    assert!(!t.contains(7));
    t.remove(42);
    assert!(!t.contains(42));
    assert_eq!(t.state_of(42), None);
}

#[test]
fn only_known_agents_with_a_budget_are_checked() {
    let mut t = AgentTable::new();
    assert_eq!(t.budget_to_enforce(1), None);
    t.insert_running(1, "a".to_string(), "s".to_string(), 0);
    assert_eq!(t.budget_to_enforce(1), None);
    t.insert_running(2, "b".to_string(), "s".to_string(), 500);
    assert_eq!(t.budget_to_enforce(2), Some(500));
}
