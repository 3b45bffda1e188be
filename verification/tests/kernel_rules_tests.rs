use openhawk::manifest::{
    validate, AgentInfo, AgentManifest, Capabilities, LlmConfig, Permissions, Resources, TalonRequirements,
};
use openhawk::memory::{AuraMemoryStore, MemoryScope, SharedMemory};
use openhawk::nest::{check_install, check_publish, make_signature, NestError, PackageListing, PackageType};
use openhawk::permission_guard::PermissionGuard;
use openhawk::resource_monitor::{ResourceLimits, ResourceMonitor};
use openhawk::self_healer::{decide_healing, HealingOutcome};
use openhawk::session::{SessionAction, SessionState};
use openhawk::talon::{make_signature as talon_signature, TalonError, TalonRegistry, TalonRun, TalonStatus};
use openhawk::token_tracker::budget_exceeded;
use openhawk::types::PermissionResult;

// ── Manifests (the rules `parse` applies after reading the TOML) ────────────

fn manifest(name: &str, version: &str) -> AgentManifest {
    AgentManifest {
        info: AgentInfo {
            name: name.to_string(),
            version: version.to_string(),
            description: String::new(),
            framework: String::new(),
            entry_command: String::new(),
        },
        permissions: Permissions::default(),
        resources: Resources::default(),
        llm: LlmConfig::default(),
        talon_requirements: TalonRequirements::default(),
        capabilities: Capabilities::default(),
    }
}

fn refusal(m: &AgentManifest) -> String {
    validate(m).unwrap_err().message()
}

#[test]
fn test_empty_name_rejected() {
    assert!(refusal(&manifest("", "1.0.0")).contains("name"));
}

#[test]
fn test_empty_version_rejected() {
    assert!(refusal(&manifest("a", "")).contains("version"));
}

#[test]
fn test_cpu_percent_zero_rejected() {
    let mut m = manifest("a", "1.0.0");
    m.resources = Resources { cpu_percent: 0, memory_mb: 512, max_open_fds: 64 };
    assert!(refusal(&m).contains("cpu_percent"));
}

#[test]
fn test_invalid_network_endpoint() {
    let mut m = manifest("a", "1.0.0");
    m.permissions.network = vec!["ftp://example.com/*".to_string()];
    let e = refusal(&m);
    assert!(e.contains("http://") || e.contains("https://"));
}

#[test]
fn test_invalid_llm_privacy() {
    let mut m = manifest("a", "1.0.0");
    m.llm.privacy = "hybrid".to_string();
    assert!(refusal(&m).contains("privacy"));
}

// ── Permissions ──────────────────────────────────────────────────────────────

fn minimal_manifest(entry: &str) -> AgentManifest {
    let mut m = manifest("test-agent", "1.0.0");
    m.info.entry_command = entry.to_string();
    m.permissions = Permissions {
        filesystem: vec!["/tmp/**".to_string()],
        network: vec!["https://api.openai.com/*".to_string()],
        commands: vec!["echo".to_string()],
        secrets: vec!["MY_KEY".to_string()],
    };
    m.resources = Resources { cpu_percent: 25, memory_mb: 512, max_open_fds: 64 };
    m
}

fn guard() -> PermissionGuard {
    let mut g = PermissionGuard::new();
    g.register(1, minimal_manifest("echo"));
    g
}

fn allowed(r: PermissionResult) -> bool {
    matches!(r, PermissionResult::Allowed)
}

fn denied(r: PermissionResult) -> bool {
    matches!(r, PermissionResult::Denied { .. })
}

#[test]
fn test_permission_fs_allow() {
    assert!(allowed(guard().check_fs_access(1, "/tmp/file.txt")));
}

#[test]
fn test_permission_fs_deny() {
    assert!(denied(guard().check_fs_access(1, "/etc/shadow")));
}

#[test]
fn test_permission_network_allow() {
    assert!(allowed(guard().check_network(1, "https://api.openai.com/v1/completions")));
}

#[test]
fn test_permission_network_deny() {
    assert!(denied(guard().check_network(1, "https://malicious.example.com")));
}

#[test]
fn test_permission_command_allow() {
    assert!(allowed(guard().check_command(1, "echo hello world")));
}

#[test]
fn test_permission_command_deny() {
    assert!(denied(guard().check_command(1, "rm -rf /")));
}

#[test]
fn test_permission_secret_allow() {
    assert!(allowed(guard().check_secret(1, "MY_KEY")));
}

#[test]
fn test_permission_secret_deny() {
    assert!(denied(guard().check_secret(1, "OTHER_KEY")));
}

fn trusted_guard() -> PermissionGuard {
    let mut g = guard();
    g.trust("test-agent", "session-1".to_string());
    g
}

#[test]
fn test_trust_bypasses_fs_check() {
    let mut g = trusted_guard();
    assert!(g.is_trusted(1));
    assert!(allowed(g.check_fs_access(1, "/etc/shadow")));
}

#[test]
fn test_trust_bypasses_network_check() {
    assert!(allowed(trusted_guard().check_network(1, "https://any.endpoint.com")));
}

#[test]
fn test_trust_bypasses_command_check() {
    assert!(allowed(trusted_guard().check_command(1, "rm -rf /")));
}

#[test]
fn test_trust_bypasses_secret_check() {
    assert!(allowed(trusted_guard().check_secret(1, "UNKNOWN_SECRET")));
}

// ── Resource limits ──────────────────────────────────────────────────────────

#[test]
fn test_resource_monitor_register_deregister() {
    let mut monitor = ResourceMonitor::new();
    monitor.register(1234, ResourceLimits { cpu_percent: 25, memory_mb: 512, max_open_fds: 64 });
    assert!(monitor.is_registered(1234));
    monitor.deregister(1234);
    assert!(!monitor.is_registered(1234));
}

#[test]
fn test_resource_monitor_deregister_after_suspension() {
    let mut monitor = ResourceMonitor::new();
    monitor.register(99, ResourceLimits { cpu_percent: 10, memory_mb: 256, max_open_fds: 32 });
    assert!(monitor.is_registered(99));
    monitor.deregister(99);
    assert!(!monitor.is_registered(99));
}

// ── Self-healing (the outcome, and the attempt that is logged) ──────────────

#[test]
fn test_successful_healing_on_first_retry() {
    let (outcome, _) = decide_healing(3, false, "timeout error");
    assert!(matches!(outcome, HealingOutcome::Recovered { attempt: 1, .. }));
}

#[test]
fn test_successful_healing_records_in_db() {
    let (_, logged) = decide_healing(3, false, "timeout error");
    assert_eq!(logged.outcome, "Success");
    assert_eq!(logged.attempt_number, 1);
}

#[test]
fn test_retry_limit_enforced_all_fail() {
    let (outcome, _) = decide_healing(3, true, "crash");
    assert!(matches!(outcome, HealingOutcome::Escalated { attempts: 3, .. }));
}

#[test]
fn test_exhausted_attempts_logs_failure() {
    let (_, logged) = decide_healing(3, true, "crash");
    assert_eq!(logged.outcome, "Failure");
    assert_eq!(logged.attempt_number, 3);
}

#[test]
fn test_escalated_outcome_contains_error() {
    match decide_healing(3, true, "oom").0 {
        HealingOutcome::Escalated { last_error, .. } => assert_eq!(last_error, "oom"),
        _ => panic!("expected Escalated"),
    }
}

#[test]
fn test_max_retries_one_always_escalates() {
    let (outcome, _) = decide_healing(1, true, "err");
    assert!(matches!(outcome, HealingOutcome::Escalated { attempts: 1, .. }));
}

#[test]
fn test_healing_event_fields_populated() {
    let (_, logged) = decide_healing(3, false, "disk full");
    assert_eq!(logged.adjustment, "reduce_context");
}

#[test]
fn healing_reverts_to_snapshot_before_retry() {
    let (outcome, _) = decide_healing(3, false, "test error");
    assert!(matches!(outcome, HealingOutcome::Recovered { attempt: 1, .. }));
}

#[test]
fn retry_limit_is_enforced() {
    let (outcome, _) = decide_healing(3, true, "persistent error");
    assert!(matches!(outcome, HealingOutcome::Escalated { attempts: 3, .. }));
}

#[test]
fn custom_retry_limit_respected() {
    let (outcome, _) = decide_healing(5, true, "err");
    assert!(matches!(outcome, HealingOutcome::Escalated { attempts: 5, .. }));
}

#[test]
fn successful_healing_records_recovery() {
    match decide_healing(3, false, "recoverable").0 {
        HealingOutcome::Recovered { attempt, adjustment } => {
            assert_eq!(attempt, 1);
            assert_eq!(adjustment, "reduce_context");
        }
        _ => panic!("expected Recovered"),
    }
}

#[test]
fn exhausted_attempts_escalate_to_user() {
    assert!(matches!(decide_healing(3, true, "fatal").0, HealingOutcome::Escalated { .. }));
}

#[test]
fn escalated_outcome_carries_original_error() {
    match decide_healing(3, true, "fatal error msg").0 {
        HealingOutcome::Escalated { last_error, .. } => assert_eq!(last_error, "fatal error msg"),
        _ => panic!("expected Escalated"),
    }
}

#[test]
fn healing_events_logged_in_sqlite() {
    let (_, logged) = decide_healing(3, false, "db test error");
    assert_eq!(logged.outcome, "Success");
}

#[test]
fn failure_events_logged_in_sqlite() {
    let (_, logged) = decide_healing(3, true, "fail error");
    assert_eq!(logged.outcome, "Failure");
    assert_eq!(logged.attempt_number, 3);
}

#[test]
fn adjustment_field_reflects_strategy() {
    let (_, logged) = decide_healing(3, false, "err");
    assert_eq!(logged.adjustment, "reduce_context");
}

// ── Session replay ───────────────────────────────────────────────────────────

fn recorded(types: &[&str]) -> Vec<SessionAction> {
    types
        .iter()
        .enumerate()
        .map(|(i, t)| SessionAction {
            id: i as i64 + 1,
            session_id: "sess-1".to_string(),
            step_number: i as u32 + 1,
            timestamp: format!("2024-01-01T00:00:0{i}Z"),
            action_type: t.to_string(),
            agent_pid: 1,
            payload: "{}".to_string(),
        })
        .collect()
}

#[test]
fn get_state_at_step_returns_actions_up_to_step() {
    let log = recorded(&["file_read", "file_write", "api_call", "msg_sent"]);
    let state = SessionState::at_step("sess-1".to_string(), log, 2);
    assert_eq!(state.step, 2);
    assert_eq!(state.actions_up_to_step.len(), 2);
    assert_eq!(state.actions_up_to_step[0].action_type, "file_read");
    assert_eq!(state.actions_up_to_step[1].action_type, "file_write");
}

#[test]
fn get_state_at_step_includes_step_itself() {
    let log = recorded(&["file_read", "file_write"]);
    let state = SessionState::at_step("sess-1".to_string(), log, 1);
    assert_eq!(state.actions_up_to_step.len(), 1);
}

// ── HawkNest installs ────────────────────────────────────────────────────────

fn sample_listing(name: &str) -> PackageListing {
    PackageListing {
        name: name.to_string(),
        description: format!("{name} description"),
        author: "test-author".to_string(),
        version: "1.0.0".to_string(),
        download_count: 42,
        package_type: PackageType::Flight,
        compatibility: "hawk>=0.1".to_string(),
    }
}

#[test]
fn install_valid_signature_registers_package() {
    let listing = sample_listing("my-flight");
    let sig = make_signature("my-flight", "1.0.0");
    assert!(check_install("my-flight", &listing, &sig, false).is_ok());
}

#[test]
fn install_invalid_signature_rejected() {
    let listing = sample_listing("my-flight");
    let err = check_install("my-flight", &listing, "bad-sig", false).unwrap_err();
    assert!(matches!(err, NestError::InvalidSignature(_)));
}

#[test]
fn install_duplicate_rejected() {
    let listing = sample_listing("my-flight");
    let sig = make_signature("my-flight", "1.0.0");
    assert!(check_install("my-flight", &listing, &sig, false).is_ok());
    let err = check_install("my-flight", &listing, &sig, true).unwrap_err();
    assert!(matches!(err, NestError::AlreadyInstalled(_)));
}

#[test]
fn install_wrong_version_signature_rejected() {
    let listing = sample_listing("my-flight");
    let sig = make_signature("my-flight", "2.0.0");
    let err = check_install("my-flight", &listing, &sig, false).unwrap_err();
    assert!(matches!(err, NestError::InvalidSignature(_)));
}

#[test]
fn publish_missing_manifest_rejected() {
    let err = check_publish(None).unwrap_err();
    assert!(matches!(err, NestError::InvalidPackage(_)));
}

// ── Talons ───────────────────────────────────────────────────────────────────

fn status_of(registry: &TalonRegistry, name: &str) -> TalonStatus {
    registry.list().into_iter().find(|r| r.name == name).unwrap().status
}

#[test]
fn panicking_talon_does_not_crash_process() {
    let mut registry = TalonRegistry::new();
    let sig = talon_signature("panic-talon", "0.1.0");
    registry.install("panic-talon", "0.1.0", &sig, vec![]).unwrap();
    registry.register_instance("panic-talon").unwrap();
    let result = registry.load("panic-talon", Some(TalonRun::Panicked));
    assert!(matches!(result, Err(TalonError::Panicked(_))));
    assert!(matches!(status_of(&registry, "panic-talon"), TalonStatus::Failed(_)));
}

#[test]
fn failing_talon_is_marked_failed() {
    let mut registry = TalonRegistry::new();
    let sig = talon_signature("fail-talon", "0.1.0");
    registry.install("fail-talon", "0.1.0", &sig, vec![]).unwrap();
    registry.register_instance("fail-talon").unwrap();
    let result = registry.load("fail-talon", Some(TalonRun::Failed("load failed".to_string())));
    assert!(matches!(result, Err(TalonError::Lifecycle(_))));
    assert!(matches!(status_of(&registry, "fail-talon"), TalonStatus::Failed(_)));
}

#[test]
fn load_unknown_talon_returns_not_found() {
    let mut registry = TalonRegistry::new();
    assert!(matches!(registry.load("ghost", None), Err(TalonError::NotFound(_))));
}

// ── Token budgets (the sum the database gives, against the budget) ──────────

#[test]
fn check_budget_returns_false_when_under() {
    assert!(!budget_exceeded(100 + 50, 1000));
}

#[test]
fn check_budget_returns_true_when_over() {
    assert!(budget_exceeded(600 + 500, 1000));
}

#[test]
fn check_budget_no_records_not_exceeded() {
    assert!(!budget_exceeded(0, 100));
}

// ── Memory ───────────────────────────────────────────────────────────────────

#[test]
fn aura_memory_store_falls_back_to_in_memory_when_aura_not_running() {
    let mut store = AuraMemoryStore::new();
    store.store(MemoryScope::Global, "test-key", b"test-value", 0).unwrap();
    let entry = store.query("test-key").unwrap();
    assert!(entry.is_some());
    assert_eq!(entry.unwrap().value, b"test-value");
}
