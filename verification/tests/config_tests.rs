use openhawk::config::{
    validate, BusConfig, CompressConfig, CoreConfig, HealingConfig, PrivacyConfig, SavepointConfig, SyncConfig,
};
use openhawk::config_engine::{extract, effective_value, set_in_toml, split_key, write_target, ConfigScope, TomlEditError};
use openhawk::savepoint::content_hash;
use openhawk::daemon::{is_air_gapped, DaemonError};
use openhawk::error::HawkError;
use openhawk::token_tracker::{budget_exceeded, TokenError};

fn err_text(r: Result<(), HawkError>) -> String {
    match r {
        Err(e) => e.message(),
        Ok(()) => panic!("expected an error"),
    }
}

fn core_section(level: &str, retention: u32) -> CoreConfig {
    CoreConfig { log_level: level.to_string(), session_retention_days: retention, pattern_retention_days: 90 }
}

fn privacy(mode: &str) -> PrivacyConfig {
    PrivacyConfig { mode: mode.to_string() }
}

#[test]
fn test_defaults() {
    let c = CoreConfig::default();
    assert_eq!(c.log_level, "info");
    assert_eq!(c.session_retention_days, 30);
    assert_eq!(c.pattern_retention_days, 90);
    assert_eq!(PrivacyConfig::default().mode, "standard");
    let h = HealingConfig::default();
    assert_eq!(h.max_retries, 3);
    assert!(h.enabled);
    assert!(SavepointConfig::default().auto_snapshot);
    assert_eq!(SavepointConfig::default().max_snapshots_per_agent, 50);
    assert_eq!(BusConfig::default().message_retention_seconds, 3600);
    assert_eq!(BusConfig::default().max_queue_size, 10000);
    assert!(!SyncConfig::default().enabled);
    assert_eq!(SyncConfig::default().conflict_strategy, "last-writer-wins");
    assert_eq!(CompressConfig::default().token_threshold, 4000);
    assert_eq!(CompressConfig::default().cache_max_entries, 1000);
    assert!(validate(&c, &PrivacyConfig::default(), &h).is_ok());
}

#[test]
fn test_invalid_log_level() {
    let msg = err_text(validate(&core_section("verbose", 30), &privacy("standard"), &HealingConfig::default()));
    assert!(msg.contains("log_level"), "error should mention log_level: {msg}");
    assert!(msg.contains("verbose"));
    assert_eq!(
        msg,
        "Config error: [core] log_level \"verbose\" is invalid; expected one of: error, warn, info, debug, trace"
    );
}

#[test]
fn test_invalid_privacy_mode() {
    let msg = err_text(validate(&core_section("info", 30), &privacy("cloud-only"), &HealingConfig::default()));
    assert!(msg.contains("mode"), "error should mention mode: {msg}");
    assert!(msg.contains("cloud-only"));
}

#[test]
fn test_session_retention_zero() {
    let msg = err_text(validate(&core_section("info", 0), &privacy("standard"), &HealingConfig::default()));
    assert!(msg.contains("session_retention_days"));
}

#[test]
fn test_max_retries_zero() {
    let healing = HealingConfig { max_retries: 0, enabled: true };
    let msg = err_text(validate(&core_section("info", 30), &privacy("standard"), &healing));
    assert!(msg.contains("max_retries"));
}

#[test]
fn test_privacy_modes_all_valid() {
    for mode in ["standard", "local-only", "air-gapped"] {
        assert!(validate(&core_section("info", 30), &privacy(mode), &HealingConfig::default()).is_ok(), "mode {mode} should be valid");
    }
}

#[test]
fn test_log_levels_all_valid() {
    for level in ["error", "warn", "info", "debug", "trace"] {
        assert!(validate(&core_section(level, 1), &privacy("standard"), &HealingConfig::default()).is_ok(), "log_level {level} should be valid");
    }
}

#[test]
fn first_broken_rule_is_reported() {
    let healing = HealingConfig { max_retries: 0, enabled: true };
    let msg = err_text(validate(&core_section("loud", 0), &privacy("cloud"), &healing));
    assert!(msg.contains("log_level"));
    assert!(!msg.contains("mode"));
}

#[test]
fn project_overrides_global() {
    let v = effective_value(Some("debug".to_string()), Some("warn".to_string())).unwrap();
    assert_eq!(v.value, "debug");
    assert_eq!(v.source, ConfigScope::Project);
}

#[test]
fn global_used_when_no_project_layer() {
    let v = effective_value(None, Some("warn".to_string())).unwrap();
    assert_eq!(v.value, "warn");
    assert_eq!(v.source, ConfigScope::Global);
}

#[test]
fn config_engine_unknown_key_returns_none() {
    assert!(effective_value(None, None).is_none());
}

#[test]
fn set_agent_scope_returns_error() {
    match write_target(&ConfigScope::Agent("a".to_string()), true) {
        Err(e) => assert!(e.message().contains("agent manifest")),
        Ok(_) => panic!("agent scope must be refused"),
    }
    assert!(write_target(&ConfigScope::Project, false).is_err());
    assert_eq!(write_target(&ConfigScope::Project, true).unwrap(), ConfigScope::Project);
    assert_eq!(write_target(&ConfigScope::Global, false).unwrap(), ConfigScope::Global);
}

#[test]
fn keys_split_at_first_two_dots() {
    assert_eq!(split_key("log_level"), vec!["log_level"]);
    assert_eq!(split_key("core.log_level"), vec!["core", "log_level"]);
    assert_eq!(split_key("llm.pricing.openai_gpt4_prompt"), vec!["llm", "pricing", "openai_gpt4_prompt"]);
    assert_eq!(split_key("a.b.c.d"), vec!["a", "b", "c.d"]);
}

#[test]
fn is_air_gapped_false_by_default() {
    assert!(!is_air_gapped(&PrivacyConfig::default()));
}

#[test]
fn is_air_gapped_true_when_mode_set() {
    assert!(is_air_gapped(&privacy("air-gapped")));
    assert!(!is_air_gapped(&privacy("local-only")));
}

#[test]
fn daemon_errors_from_kernel_errors() {
    match DaemonError::from_hawk(HawkError::Database("locked".to_string())) {
        DaemonError::Database(m) => assert_eq!(m, "locked"),
        other => panic!("unexpected {other:?}"),
    }
    match DaemonError::from_hawk(HawkError::NotFound("x".to_string())) {
        DaemonError::Config(m) => assert_eq!(m, "Not found: x"),
        other => panic!("unexpected {other:?}"),
    }
    assert_eq!(DaemonError::Config("c".to_string()).message(), "config error: c");
}

#[test]
fn check_budget_exact_limit_not_exceeded() {
    assert!(!budget_exceeded(1000, 1000));
    assert!(budget_exceeded(1001, 1000));
    assert!(!budget_exceeded(0, 1000));
}

#[test]
fn token_error_message() {
    assert_eq!(TokenError::Database("gone".to_string()).message(), "database error: gone");
}

fn default_settings() -> openhawk::config_engine::HawkSettings {
    openhawk::config_engine::HawkSettings {
        core: CoreConfig::default(),
        privacy: PrivacyConfig::default(),
        savepoint: SavepointConfig::default(),
        bus: BusConfig::default(),
        sync: SyncConfig::default(),
        compress: CompressConfig::default(),
        healing: HealingConfig::default(),
    }
}

#[test]
fn extract_renders_each_setting_as_text() {
    let mut s = default_settings();
    s.core.log_level = "debug".to_string();
    s.core.session_retention_days = 7;
    s.bus.max_queue_size = 12345678901;
    s.healing.enabled = false;
    s.sync.enabled = true;
    assert_eq!(extract(&s, "core.log_level").as_deref(), Some("debug"));
    assert_eq!(extract(&s, "core.session_retention_days").as_deref(), Some("7"));
    assert_eq!(extract(&s, "bus.max_queue_size").as_deref(), Some("12345678901"));
    assert_eq!(extract(&s, "healing.enabled").as_deref(), Some("false"));
    assert_eq!(extract(&s, "sync.enabled").as_deref(), Some("true"));
    assert_eq!(extract(&s, "no.such.key"), None);
    assert_eq!(extract(&s, "llm.providers"), None);
}

fn provider(name: &str, priority: u32) -> openhawk::config::LlmProvider {
    openhawk::config::LlmProvider { name: name.to_string(), endpoint: "http://localhost:1".to_string(), priority }
}

#[test]
fn project_providers_replace_global_ones_when_present() {
    let merged = openhawk::config_engine::merged_providers;
    let g = vec![provider("ollama", 1)];
    let p = vec![provider("lmstudio", 2), provider("vllm", 3)];
    let r = merged(Some(g.clone()), Some(p.clone()));
    assert_eq!(r.iter().map(|x| x.name.as_str()).collect::<Vec<_>>(), vec!["lmstudio", "vllm"]);
    let r = merged(Some(g.clone()), Some(Vec::new()));
    assert_eq!(r.iter().map(|x| x.name.as_str()).collect::<Vec<_>>(), vec!["ollama"]);
    let r = merged(Some(g), None);
    assert_eq!(r.len(), 1);
    assert!(merged(None, None).is_empty());
    assert_eq!(merged(None, Some(p)).len(), 2);
}

#[test]
fn set_in_toml_creates_tables_and_keeps_the_rest() {
    let out = set_in_toml("", "core.log_level", "debug").unwrap();
    assert!(out.contains("[core]"));
    assert!(out.contains("log_level = \"debug\""));
    let text = "# my settings\n[core]\nlog_level = \"info\"\nport = 7\n";
    let out = set_in_toml(text, "core.log_level", "warn").unwrap();
    assert!(out.contains("# my settings"));
    assert!(out.contains("log_level = \"warn\""));
    assert!(out.contains("port = 7"));
    assert!(!out.contains("\"info\""));
    let out = set_in_toml("", "name", "hawk").unwrap();
    assert!(out.contains("name = \"hawk\""));
    let out = set_in_toml("", "llm.router.mode", "local").unwrap();
    let parsed: toml::Value = toml::from_str(&out).unwrap();
    assert_eq!(parsed["llm"]["router"]["mode"].as_str(), Some("local"));
}

#[test]
fn set_in_toml_refuses_bad_text_and_values_in_the_way() {
    assert!(matches!(set_in_toml("[core", "core.x", "1"), Err(TomlEditError::Parse(_))));
    assert_eq!(set_in_toml("core = 1\n", "core.x", "1"), Err(TomlEditError::NotATable));
    assert_eq!(set_in_toml("[a]\nb = 2\n", "a.b.c", "1"), Err(TomlEditError::NotATable));
}

#[test]
fn content_hash_is_hex_sha256() {
    assert_eq!(content_hash(b"abc"), "ba7816bf8f01cfea414140de5dae2223b00361a396177a9cb410ff61f20015ad");
    assert_eq!(content_hash(b"").len(), 64);
}
