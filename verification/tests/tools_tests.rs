use openhawk::bus::{format_inspection, BusInspection, TopicInfo};
use openhawk::cli::{format_uptime, ping_provider, truncate};
use openhawk::sdk::generate;
use openhawk::self_healer::{adjustment_for, decide_healing, HealingOutcome};
use openhawk::setup::{should_install, all_tools, declined, install_tool, is_considered, select_tools, summary_line, tally, InstallMethod, InstallResult, SetupOptions};
use std::time::Duration;

#[test]
fn all_tools_returns_five_tools() {
    assert_eq!(all_tools().len(), 5);
}

#[test]
fn tool_names_are_unique() {
    let tools = all_tools();
    let mut names: Vec<&str> = tools.iter().map(|t| t.name).collect();
    names.dedup();
    assert_eq!(names.len(), tools.len());
}

#[test]
fn install_result_variants_compile() {
    let r = InstallResult::AlreadyInstalled;
    assert!(matches!(r, InstallResult::AlreadyInstalled));
    let r = InstallResult::Failed("test".to_string());
    assert!(matches!(r, InstallResult::Failed(_)));
}

#[test]
fn setup_options_defaults() {
    let opts = SetupOptions::default();
    assert!(opts.skip_installed);
    assert!(!opts.force_update);
    assert!(!opts.yes);
    assert!(opts.only.is_empty());
    assert!(opts.skip.is_empty());
}

#[test]
fn aura_install_uses_local_bin_env() {
    let tools = all_tools();
    let aura = tools.iter().find(|t| t.name == "aura").unwrap();
    match &aura.install {
        InstallMethod::CurlSh { env, .. } => {
            assert!(env.iter().any(|(k, _)| *k == "INSTALL_DIR"));
        }
        _ => panic!("aura should use CurlSh"),
    }
}

#[test]
fn claimcheck_uses_cargo_git() {
    let tools = all_tools();
    let cc = tools.iter().find(|t| t.name == "claimcheck").unwrap();
    assert!(matches!(cc.install, InstallMethod::CargoGit(_)));
}

#[test]
fn etch_uses_go_install_with_fallback() {
    let tools = all_tools();
    let etch = tools.iter().find(|t| t.name == "etch").unwrap();
    assert!(matches!(etch.install, InstallMethod::GoInstall { .. }));
}

#[test]
fn setup_selection_and_outcomes() {
    let tools = all_tools();
    let mut opts = SetupOptions::default();
    assert!(is_considered(&tools[0], &opts));
    opts.skip = vec!["sqz".into()];
    assert!(!is_considered(&tools[0], &opts));
    opts.only = vec!["etch".into()];
    assert!(!is_considered(&tools[1], &opts));
    assert!(is_considered(&tools[3], &opts));
    assert!(matches!(install_tool(true, false, None), InstallResult::AlreadyInstalled));
    assert!(matches!(install_tool(true, true, Some(Ok(()))), InstallResult::Updated));
    assert!(matches!(install_tool(false, false, Some(Ok(()))), InstallResult::Installed));
    assert!(matches!(install_tool(false, false, Some(Err("x".into()))), InstallResult::Failed(m) if m == "x"));
}

#[test]
fn format_inspection_empty() {
    let info = BusInspection { topics: vec![], pending_messages: 0 };
    assert!(format_inspection(&info).contains("No active topics"));
}

#[test]
fn format_inspection_with_topics() {
    let info = BusInspection {
        topics: vec![TopicInfo { name: "research.done".into(), subscriber_count: 3, pending_count: 1 }],
        pending_messages: 1,
    };
    let out = format_inspection(&info);
    assert!(out.contains("research.done"));
    assert!(out.contains("TOPIC"));
}

#[test]
fn format_inspection_matches_table_layout() {
    let info = BusInspection {
        topics: vec![TopicInfo { name: "a".into(), subscriber_count: 12, pending_count: 3 }],
        pending_messages: 7,
    };
    let mut expected = String::new();
    expected.push_str(&format!("{:<30} {:>11} {:>13}\n", "TOPIC", "SUBSCRIBERS", "PENDING MSGS"));
    expected.push_str(&"-".repeat(56));
    expected.push('\n');
    expected.push_str(&format!("{:<30} {:>11} {:>13}\n", "a", 12, 3));
    expected.push_str(&"-".repeat(56));
    expected.push('\n');
    expected.push_str("Total pending messages: 7\n");
    assert_eq!(format_inspection(&info), expected);
    let empty = BusInspection { topics: vec![], pending_messages: 4 };
    assert_eq!(format_inspection(&empty), "No active topics. Pending messages (direct): 4\n");
}

#[test]
fn ping_provider_local_is_available() {
    assert_eq!(ping_provider("http://localhost:11434"), "available");
    assert_eq!(ping_provider("http://127.0.0.1:8080"), "available");
}

#[test]
fn ping_provider_remote_is_unknown() {
    assert_eq!(ping_provider("https://api.openai.com/v1"), "unknown");
}

#[test]
fn main_format_uptime_zero() {
    assert_eq!(format_uptime(Duration::from_secs(0)), "00:00:00");
}

#[test]
fn main_format_uptime_one_hour() {
    assert_eq!(format_uptime(Duration::from_secs(3661)), "01:01:01");
}

#[test]
fn truncate_keeps_short_and_cuts_long() {
    assert_eq!(truncate("abc", 5), "abc");
    assert_eq!(truncate("abcdef", 4), "abc…");
}

#[test]
fn scaffold_rust_generates_expected_files() {
    let s = generate("rust", "my-agent").unwrap();
    let names: Vec<&str> = s.files.iter().map(|(n, _)| n.as_str()).collect();
    assert!(names.contains(&"Agent_Manifest.toml"));
    assert!(names.contains(&"src/main.rs"));
    assert!(names.contains(&"Cargo.toml"));
}

#[test]
fn scaffold_python_generates_expected_files() {
    let s = generate("python", "my-agent").unwrap();
    let names: Vec<&str> = s.files.iter().map(|(n, _)| n.as_str()).collect();
    assert!(names.contains(&"Agent_Manifest.toml"));
    assert!(names.contains(&"main.py"));
}

#[test]
fn scaffold_typescript_generates_expected_files() {
    let s = generate("typescript", "my-agent").unwrap();
    let names: Vec<&str> = s.files.iter().map(|(n, _)| n.as_str()).collect();
    assert!(names.contains(&"Agent_Manifest.toml"));
    assert!(names.contains(&"src/index.ts"));
}

#[test]
fn scaffold_unsupported_language_returns_error() {
    let err = generate("java", "my-agent").unwrap_err();
    assert!(err.contains("unsupported language"));
}

#[test]
fn scaffold_manifest_contains_agent_name() {
    let s = generate("rust", "cool-agent").unwrap();
    let manifest = s.files.iter().find(|(n, _)| n == "Agent_Manifest.toml").unwrap();
    assert!(manifest.1.contains("cool-agent"));
}

#[test]
fn scaffold_texts_match_templates() {
    let s = generate("typescript", "x").unwrap();
    assert_eq!(s.files[2].1, "{\n  \"name\": \"x\",\n  \"version\": \"0.1.0\",\n  \"main\": \"dist/index.js\",\n  \"scripts\": { \"build\": \"tsc\", \"start\": \"node dist/index.js\" },\n  \"dependencies\": { \"hawk-sdk\": \"^0.1.0\" },\n  \"devDependencies\": { \"typescript\": \"^5.0.0\", \"@types/node\": \"^20.0.0\" }\n}\n");
    let p = generate("python", "x").unwrap();
    assert_eq!(p.files[2].1, "hawk-sdk\n");
}

#[test]
fn test_adjustment_sequence() {
    assert_eq!(adjustment_for(1), "reduce_context");
    assert_eq!(adjustment_for(2), "change_strategy");
    assert_eq!(adjustment_for(3), "reset_parameters");
    assert_eq!(adjustment_for(10), "reset_parameters");
}

#[test]
fn healing_decisions() {
    let (o, log) = decide_healing(3, false, "timeout error");
    assert!(matches!(o, HealingOutcome::Recovered { attempt: 1, .. }));
    assert_eq!(log.outcome, "Success");
    let (o, log) = decide_healing(3, true, "crash");
    assert!(matches!(o, HealingOutcome::Escalated { attempts: 3, .. }));
    assert_eq!(log.outcome, "Failure");
    assert_eq!(log.attempt_number, 3);
    let (o, _) = decide_healing(1, false, "err");
    assert!(matches!(o, HealingOutcome::Escalated { attempts: 1, .. }));
}


#[test]
fn setup_selects_only_or_all_but_skipped() {
    let tools = all_tools();
    let mut opts = SetupOptions::default();
    assert_eq!(select_tools(&tools, &opts).len(), 5);
    opts.skip = vec!["etch".to_string(), "sqz".to_string()];
    let names: Vec<&str> = select_tools(&tools, &opts).iter().map(|t| t.name).collect();
    assert_eq!(names, vec!["ghostdep", "claimcheck", "aura"]);
    opts.only = vec!["aura".to_string(), "sqz".to_string()];
    let names: Vec<&str> = select_tools(&tools, &opts).iter().map(|t| t.name).collect();
    assert_eq!(names, vec!["sqz", "aura"]);
}

#[test]
fn setup_answers_that_decline() {
    assert!(declined("n"));
    assert!(declined("  No \n"));
    assert!(declined("NO"));
    assert!(!declined(""));
    assert!(!declined("y"));
    assert!(!declined("nope"));
}

#[test]
fn setup_tally_and_summary() {
    let results = vec![
        InstallResult::Installed,
        InstallResult::AlreadyInstalled,
        InstallResult::Updated,
        InstallResult::Failed("boom".to_string()),
    ];
    assert_eq!(tally(&results), (2, 1));
    assert_eq!(summary_line(2, 1), "Setup complete: 2 installed, 1 failed.");
}

#[test]
fn installer_runs_for_missing_tools_or_forced_updates() {
    assert!(should_install(false, false));
    assert!(should_install(false, true));
    assert!(should_install(true, true));
    assert!(!should_install(true, false));
}
