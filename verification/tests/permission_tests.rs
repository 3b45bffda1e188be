use openhawk::manifest::{AgentInfo, AgentManifest, Capabilities, LlmConfig, Permissions, Resources, TalonRequirements};
use openhawk::permission_guard::{glob_match, PermissionGuard};
use openhawk::types::PermissionResult;

fn test_manifest() -> AgentManifest {
    AgentManifest {
        info: AgentInfo {
            name: "test-agent".to_string(),
            version: "1.0.0".to_string(),
            description: String::new(),
            framework: String::new(),
            entry_command: "echo hello".to_string(),
        },
        permissions: Permissions {
            filesystem: vec!["~/projects/**".to_string(), "/tmp/**".to_string()],
            network: vec!["https://api.openai.com/*".to_string()],
            commands: vec!["curl".to_string(), "python3".to_string()],
            secrets: vec!["OPENAI_API_KEY".to_string()],
        },
        resources: Resources::default(),
        llm: LlmConfig::default(),
        talon_requirements: TalonRequirements::default(),
        capabilities: Capabilities::default(),
    }
}

fn make_guard() -> PermissionGuard {
    let mut guard = PermissionGuard::new();
    guard.register(1, test_manifest());
    guard
}

#[test]
fn test_fs_access_allowed() {
    let mut guard = make_guard();
    assert!(matches!(guard.check_fs_access(1, "/tmp/foo.txt"), PermissionResult::Allowed));
}

#[test]
fn test_fs_access_denied() {
    let mut guard = make_guard();
    assert!(matches!(guard.check_fs_access(1, "/etc/passwd"), PermissionResult::Denied { .. }));
}

#[test]
fn test_network_allowed() {
    let mut guard = make_guard();
    assert!(matches!(guard.check_network(1, "https://api.openai.com/v1/chat"), PermissionResult::Allowed));
}

#[test]
fn test_network_denied() {
    let mut guard = make_guard();
    assert!(matches!(guard.check_network(1, "https://evil.example.com"), PermissionResult::Denied { .. }));
}

#[test]
fn test_command_allowed() {
    let mut guard = make_guard();
    assert!(matches!(guard.check_command(1, "curl https://example.com"), PermissionResult::Allowed));
}

#[test]
fn test_command_denied() {
    let mut guard = make_guard();
    assert!(matches!(guard.check_command(1, "rm -rf /"), PermissionResult::Denied { .. }));
}

#[test]
fn test_secret_allowed() {
    let mut guard = make_guard();
    assert!(matches!(guard.check_secret(1, "OPENAI_API_KEY"), PermissionResult::Allowed));
}

#[test]
fn test_secret_denied() {
    let mut guard = make_guard();
    assert!(matches!(guard.check_secret(1, "AWS_SECRET_KEY"), PermissionResult::Denied { .. }));
}

#[test]
fn test_trust_bypasses_all_checks() {
    let mut guard = make_guard();
    guard.trust("test-agent", "session-1".to_string());
    assert!(guard.is_trusted(1));
    assert!(matches!(guard.check_fs_access(1, "/etc/passwd"), PermissionResult::Allowed));
    assert!(matches!(guard.check_network(1, "https://evil.example.com"), PermissionResult::Allowed));
    assert!(matches!(guard.check_command(1, "rm -rf /"), PermissionResult::Allowed));
    assert!(matches!(guard.check_secret(1, "UNKNOWN_KEY"), PermissionResult::Allowed));
    assert!(guard.take_denials().is_empty());
}

#[test]
fn test_no_manifest_returns_denied() {
    let mut guard = PermissionGuard::new();
    match guard.check_fs_access(99, "/tmp/x") {
        PermissionResult::Denied { reason } => assert_eq!(reason, "no manifest registered for pid 99"),
        PermissionResult::Allowed => panic!("must be denied"),
    }
    assert!(guard.take_denials().is_empty());
}

#[test]
fn test_denial_logged_to_db() {
    let mut guard = make_guard();
    guard.check_fs_access(1, "/etc/passwd");
    let denials = guard.take_denials();
    assert_eq!(denials.len(), 1);
    assert_eq!(denials[0].pid, 1);
    assert_eq!(denials[0].kind, "fs_access");
    assert_eq!(denials[0].resource, "/etc/passwd");
    assert!(guard.take_denials().is_empty());
}

#[test]
fn denial_reasons_name_the_resource() {
    let mut guard = make_guard();
    match guard.check_command(1, "  rm -rf /") {
        PermissionResult::Denied { reason } => assert_eq!(reason, "command '  rm -rf /' not in manifest allowlist"),
        PermissionResult::Allowed => panic!("must be denied"),
    }
    match guard.check_secret(1, "X") {
        PermissionResult::Denied { reason } => assert_eq!(reason, "secret key 'X' not in manifest secrets list"),
        PermissionResult::Allowed => panic!("must be denied"),
    }
    assert!(matches!(guard.check_command(1, "  python3   -c 1"), PermissionResult::Allowed));
}

#[test]
fn invalid_globs_compare_literally() {
    assert!(glob_match("/tmp/**", "/tmp/a/b"));
    assert!(glob_match("[", "["));
    assert!(!glob_match("[", "x"));
}
