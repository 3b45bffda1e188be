use openhawk::air_gap::{AirGapEnforcer, AirGapError};
use openhawk::llm_router::LlmProvider;

fn local_provider(name: &str) -> LlmProvider {
    LlmProvider { name: name.to_string(), endpoint: "http://localhost:11434".to_string(), priority: 1, is_local: true }
}

fn cloud_provider(name: &str) -> LlmProvider {
    LlmProvider { name: name.to_string(), endpoint: "https://api.openai.com/v1".to_string(), priority: 1, is_local: false }
}

#[test]
fn network_request_blocked_when_enabled_and_remote() {
    let enforcer = AirGapEnforcer::new(true);
    let err = enforcer.check_network_request(42, "https://api.example.com").unwrap_err();
    assert_eq!(err, AirGapError::Blocked { agent_pid: 42, endpoint: "https://api.example.com".to_string() });
}

#[test]
fn network_request_allowed_when_disabled() {
    let enforcer = AirGapEnforcer::new(false);
    assert!(enforcer.check_network_request(1, "https://api.example.com").is_ok());
}

#[test]
fn network_request_allowed_for_localhost() {
    let enforcer = AirGapEnforcer::new(true);
    assert!(enforcer.check_network_request(1, "http://localhost:11434").is_ok());
}

#[test]
fn network_request_allowed_for_127_0_0_1() {
    let enforcer = AirGapEnforcer::new(true);
    assert!(enforcer.check_network_request(1, "http://127.0.0.1:8080").is_ok());
}

#[test]
fn denied_request_includes_agent_pid_and_endpoint() {
    let enforcer = AirGapEnforcer::new(true);
    let err = enforcer.check_network_request(99, "https://remote.host/api").unwrap_err();
    let msg = err.message();
    assert!(msg.contains("99"));
    assert!(msg.contains("https://remote.host/api"));
}

#[test]
fn llm_cloud_provider_blocked_when_enabled() {
    let enforcer = AirGapEnforcer::new(true);
    let provider = cloud_provider("openai");
    let err = enforcer.check_llm_provider(&provider).unwrap_err();
    assert_eq!(err, AirGapError::CloudProviderBlocked { provider_name: "openai".to_string() });
}

#[test]
fn llm_local_provider_allowed_when_enabled() {
    let enforcer = AirGapEnforcer::new(true);
    assert!(enforcer.check_llm_provider(&local_provider("ollama")).is_ok());
}

#[test]
fn llm_cloud_provider_allowed_when_disabled() {
    let enforcer = AirGapEnforcer::new(false);
    assert!(enforcer.check_llm_provider(&cloud_provider("openai")).is_ok());
}

#[test]
fn filter_returns_only_local_when_enabled() {
    let enforcer = AirGapEnforcer::new(true);
    let providers = vec![cloud_provider("openai"), local_provider("ollama")];
    let filtered = enforcer.filter_llm_providers(&providers);
    assert_eq!(filtered.len(), 1);
    assert_eq!(filtered[0].name, "ollama");
}

#[test]
fn filter_returns_all_when_disabled() {
    let enforcer = AirGapEnforcer::new(false);
    let providers = vec![cloud_provider("openai"), local_provider("ollama")];
    assert_eq!(enforcer.filter_llm_providers(&providers).len(), 2);
}

#[test]
fn filter_returns_empty_when_no_local_providers() {
    let enforcer = AirGapEnforcer::new(true);
    let providers = vec![cloud_provider("openai"), cloud_provider("anthropic")];
    assert!(enforcer.filter_llm_providers(&providers).is_empty());
}

#[test]
fn nest_publish_blocked_when_enabled() {
    let enforcer = AirGapEnforcer::new(true);
    let err = enforcer.check_nest_operation("publish").unwrap_err();
    assert_eq!(err, AirGapError::NetworkOperationBlocked { operation: "publish".to_string() });
}

#[test]
fn nest_search_remote_blocked_when_enabled() {
    let enforcer = AirGapEnforcer::new(true);
    assert!(matches!(enforcer.check_nest_operation("search_remote"), Err(AirGapError::NetworkOperationBlocked { .. })));
}

#[test]
fn nest_search_local_allowed_when_enabled() {
    let enforcer = AirGapEnforcer::new(true);
    assert!(enforcer.check_nest_operation("search_local").is_ok());
}

#[test]
fn nest_install_from_cache_allowed_when_enabled() {
    let enforcer = AirGapEnforcer::new(true);
    assert!(enforcer.check_nest_operation("install_from_cache").is_ok());
}

#[test]
fn nest_publish_allowed_when_disabled() {
    let enforcer = AirGapEnforcer::new(false);
    assert!(enforcer.check_nest_operation("publish").is_ok());
}

#[test]
fn is_enabled_reflects_constructor_arg() {
    assert!(AirGapEnforcer::new(true).is_enabled());
    assert!(!AirGapEnforcer::new(false).is_enabled());
}

#[test]
fn air_gap_error_messages() {
    let e = AirGapError::Blocked { agent_pid: 7, endpoint: "https://x".into() };
    assert_eq!(e.message(), "air-gap: agent 7 blocked from https://x");
    let e = AirGapError::CloudProviderBlocked { provider_name: "openai".into() };
    assert_eq!(e.message(), "air-gap: cloud provider 'openai' blocked");
    let e = AirGapError::NetworkOperationBlocked { operation: "publish".into() };
    assert_eq!(e.message(), "air-gap: network operation 'publish' blocked");
}

#[test]
fn local_name_outside_the_host_is_still_remote() {
    let enforcer = AirGapEnforcer::new(true);
    assert!(enforcer.check_network_request(7, "https://x.com/?h=localhost").is_err());
    assert!(enforcer.check_network_request(7, "https://x.com/127.0.0.1/a").is_err());
    assert!(enforcer.check_network_request(7, "http://localhost@evil.example:80/").is_err());
    assert!(enforcer.check_network_request(7, "http://localhost.evil.example/").is_err());
}

#[test]
fn local_host_is_found_after_user_info_and_without_scheme() {
    let enforcer = AirGapEnforcer::new(true);
    assert!(enforcer.check_network_request(7, "http://user@localhost:80/x").is_ok());
    assert!(enforcer.check_network_request(7, "localhost:11434").is_ok());
    assert!(enforcer.check_network_request(7, "http://127.0.0.1").is_ok());
}
