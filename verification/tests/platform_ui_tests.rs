use openhawk::platform::{detect_ipc, detect_keychain, detect_snapshot_strategy, Arch, IpcMechanism, Os, PlatformConfig, SnapshotStrategy};
use openhawk::types::{AgentStatus, LifecycleState};
use openhawk::ui::{format_bytes, format_uptime, state_label, AppAction, HawkEyeApp, HawkEyeView, Key, OrchestrationNodeStatus};
use std::time::Duration;

#[test]
fn test_macos_subsystem_config() {
    let config = PlatformConfig {
        os: Os::MacOs,
        arch: Arch::Arm64,
        ipc: detect_ipc(&Os::MacOs),
        snapshot_strategy: detect_snapshot_strategy(&Os::MacOs),
        keychain_available: detect_keychain(&Os::MacOs),
    };
    assert_eq!(config.ipc, IpcMechanism::UnixDomainSocket);
    assert_eq!(config.snapshot_strategy, SnapshotStrategy::ApfsReflink);
    assert!(config.keychain_available);
}

#[test]
fn test_windows_subsystem_config() {
    let config = PlatformConfig {
        os: Os::Windows,
        arch: Arch::X86_64,
        ipc: detect_ipc(&Os::Windows),
        snapshot_strategy: detect_snapshot_strategy(&Os::Windows),
        keychain_available: detect_keychain(&Os::Windows),
    };
    assert_eq!(config.ipc, IpcMechanism::NamedPipe);
    assert_eq!(config.snapshot_strategy, SnapshotStrategy::FileCopyFallback);
    assert!(config.keychain_available);
}

#[test]
fn test_linux_subsystem_config() {
    let config = PlatformConfig {
        os: Os::Linux,
        arch: Arch::X86_64,
        ipc: detect_ipc(&Os::Linux),
        snapshot_strategy: detect_snapshot_strategy(&Os::Linux),
        keychain_available: detect_keychain(&Os::Linux),
    };
    assert_eq!(config.ipc, IpcMechanism::UnixDomainSocket);
    assert_eq!(config.snapshot_strategy, SnapshotStrategy::BtrfsCow);
    assert!(!config.keychain_available);
}

#[test]
fn test_other_os_subsystem_config() {
    let other = Os::Other("freebsd".to_string());
    assert_eq!(detect_ipc(&other), IpcMechanism::UnixDomainSocket);
    assert_eq!(detect_snapshot_strategy(&other), SnapshotStrategy::FileCopyFallback);
    assert!(!detect_keychain(&other));
}

#[test]
fn detect_builds_config_for_given_platform() {
    let c = PlatformConfig::detect(Os::Windows, Arch::Arm64);
    assert_eq!(c.os, Os::Windows);
    assert_eq!(c.arch, Arch::Arm64);
    assert_eq!(c.ipc, IpcMechanism::NamedPipe);
    assert!(c.keychain_available);
}

#[test]
fn tests_format_uptime_zero() {
    assert_eq!(format_uptime(Duration::from_secs(0)), "00:00:00");
}

#[test]
fn tests_format_uptime_one_hour() {
    assert_eq!(format_uptime(Duration::from_secs(3661)), "01:01:01");
}

#[test]
fn format_bytes_bytes() {
    assert_eq!(format_bytes(512), "512B");
}

#[test]
fn format_bytes_kilobytes() {
    assert_eq!(format_bytes(2048), "2.0KB");
}

#[test]
fn format_bytes_megabytes() {
    assert_eq!(format_bytes(1024 * 1024), "1.0MB");
}

#[test]
fn format_bytes_matches_float_formatting() {
    for b in [1023u64, 1024, 1075, 1280, 1536, 1100, 999_999, 1_048_575, 1_048_576, 5_000_000, 123_456_789_012, u64::MAX, (1u64 << 53) + 1, (1u64 << 60) + 12345] {
        let expected = if b < 1024 {
            format!("{b}B")
        } else if b < 1024 * 1024 {
            format!("{:.1}KB", b as f64 / 1024.0)
        } else {
            format!("{:.1}MB", b as f64 / (1024.0 * 1024.0))
        };
        assert_eq!(format_bytes(b), expected, "bytes = {b}");
    }
}

#[test]
fn uptime_hours_grow_past_two_digits() {
    assert_eq!(format_uptime(Duration::from_secs(360_000 + 59)), "100:00:59");
}

fn agent(pid: u32, name: &str) -> AgentStatus {
    AgentStatus { pid, name: name.to_string(), state: LifecycleState::Running, uptime: Duration::from_secs(60), memory_bytes: 1024, open_fds: 4 }
}

#[test]
fn selection_clamps_and_detail_opens() {
    let mut app = HawkEyeApp::new();
    app.agents = vec![agent(1, "Alpha"), agent(2, "beta")];
    assert_eq!(app.apply_action(AppAction::SelectNext), None);
    assert_eq!(app.selected_agent, Some(0));
    app.apply_action(AppAction::SelectNext);
    app.apply_action(AppAction::SelectNext);
    assert_eq!(app.selected_agent, Some(1));
    app.apply_action(AppAction::SelectPrev);
    app.apply_action(AppAction::SelectPrev);
    assert_eq!(app.selected_agent, Some(0));
    app.apply_action(AppAction::OpenDetail);
    assert_eq!(app.view, HawkEyeView::AgentDetail(1));
    app.apply_action(AppAction::SwitchPanel);
    assert_eq!(app.view, HawkEyeView::Dashboard);
    assert_eq!(app.apply_action(AppAction::UndoSelected), Some(1));
}

#[test]
fn search_filters_case_insensitively() {
    let mut app = HawkEyeApp::new();
    app.agents = vec![agent(1, "Alpha"), agent(2, "beta"), agent(3, "ALPINE")];
    app.search_query = "alp".to_string();
    let pids: Vec<u32> = app.filtered_agents().iter().map(|a| a.pid).collect();
    assert_eq!(pids, vec![1, 3]);
}

#[test]
fn undo_without_selection_sets_message_and_keys_map() {
    let mut app = HawkEyeApp::new();
    assert_eq!(app.apply_action(AppAction::UndoSelected), None);
    assert_eq!(app.status_message.as_deref(), Some("No agent selected."));
    assert_eq!(app.handle_key(Key::Char('q')), Some(AppAction::Quit));
    assert_eq!(app.handle_key(Key::Tab), Some(AppAction::SwitchPanel));
    assert_eq!(app.handle_key(Key::Char('x')), None);
    assert_eq!(OrchestrationNodeStatus::Failed("e".into()).label(), "Failed");
    assert_eq!(state_label(&LifecycleState::Paused), "Paused");
}
