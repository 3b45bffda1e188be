use openhawk::platform::{Arch, IpcMechanism, Os, PlatformConfig, SnapshotStrategy as PlatformStrategy};
use openhawk::resource_monitor::{check_memory, ResourceEvent, ResourceLimits, ResourceMonitor};
use openhawk::savepoint::{diff_manifests, plan_rollback, ChangeType, SnapshotStrategy};

fn limits(cpu: u8, mb: u64, fds: u64) -> ResourceLimits {
    ResourceLimits { cpu_percent: cpu, memory_mb: mb, max_open_fds: fds }
}

// The build target of the machine these tests run on: Linux on x86_64.
fn this_platform() -> PlatformConfig {
    PlatformConfig::detect(Os::from_target("linux"), Arch::from_target("x86_64"))
}

#[test]
fn test_detect_returns_current_os() {
    let config = this_platform();
    assert_eq!(config.os, Os::Linux);
}

#[test]
fn test_detect_returns_current_arch() {
    let config = this_platform();
    assert_eq!(config.arch, Arch::X86_64);
}

#[test]
fn test_detected_ipc_matches_os() {
    let config = this_platform();
    assert_eq!(config.ipc, IpcMechanism::UnixDomainSocket);
}

#[test]
fn test_detected_snapshot_strategy_matches_os() {
    let config = this_platform();
    assert_eq!(config.snapshot_strategy, PlatformStrategy::BtrfsCow);
}

#[test]
fn test_detected_keychain_matches_os() {
    let config = this_platform();
    assert!(!config.keychain_available);
}

#[test]
fn target_names_map_to_platforms() {
    assert_eq!(Os::from_target("macos"), Os::MacOs);
    assert_eq!(Os::from_target("windows"), Os::Windows);
    assert_eq!(Os::from_target("freebsd"), Os::Other("freebsd".to_string()));
    assert_eq!(Arch::from_target("aarch64"), Arch::Arm64);
    assert_eq!(Arch::from_target("riscv64"), Arch::Other("riscv64".to_string()));
    let mac = PlatformConfig::detect(Os::from_target("macos"), Arch::from_target("aarch64"));
    assert_eq!(mac.snapshot_strategy, PlatformStrategy::ApfsReflink);
    assert!(mac.keychain_available);
}

#[test]
fn test_register_and_deregister() {
    let mut monitor = ResourceMonitor::new();
    monitor.register(1234, limits(25, 512, 64));
    assert!(monitor.is_registered(1234));
    monitor.deregister(1234);
    assert!(!monitor.is_registered(1234));
}

#[test]
fn test_memory_limit_bytes_calculation() {
    let limits = limits(10, 512, 64);
    assert_eq!(limits.memory_limit_bytes(), 512 * 1024 * 1024);
}

#[test]
fn test_memory_exceeded_event_emitted() {
    let event = check_memory(42, &limits(10, 512, 64), 600 * 1024 * 1024);
    match event {
        Some(ResourceEvent::MemoryExceeded { pid, memory_bytes, limit_bytes }) => {
            assert_eq!(pid, 42);
            assert!(memory_bytes > limit_bytes);
            assert_eq!(limit_bytes, 512 * 1024 * 1024);
        }
        None => panic!("expected an event"),
    }
}

#[test]
fn reading_at_the_limit_raises_nothing() {
    assert_eq!(check_memory(7, &limits(10, 1, 8), 1024 * 1024), None);
    assert!(check_memory(7, &limits(10, 1, 8), 1024 * 1024 + 1).is_some());
}

#[test]
fn monitor_check_uses_registered_limits() {
    let mut monitor = ResourceMonitor::new();
    assert_eq!(monitor.check(9, u64::MAX), None);
    monitor.register(9, limits(50, 2, 16));
    assert_eq!(monitor.limits_of(9), Some(limits(50, 2, 16)));
    assert_eq!(
        monitor.check(9, 3 * 1024 * 1024),
        Some(ResourceEvent::MemoryExceeded { pid: 9, memory_bytes: 3 * 1024 * 1024, limit_bytes: 2 * 1024 * 1024 })
    );
    monitor.register(9, limits(50, 4, 16));
    assert_eq!(monitor.check(9, 3 * 1024 * 1024), None);
    monitor.deregister(9);
    assert_eq!(monitor.limits_of(9), None);
}

#[test]
fn test_strategy_db_strings() {
    assert_eq!(SnapshotStrategy::ApfsReflink.as_db_str(), "apfs_reflink");
    assert_eq!(SnapshotStrategy::BtrfsCow.as_db_str(), "btrfs_cow");
    assert_eq!(SnapshotStrategy::FileCopyFallback.as_db_str(), "file_copy");
}

#[test]
fn strategy_names_read_back() {
    for s in [SnapshotStrategy::ApfsReflink, SnapshotStrategy::BtrfsCow, SnapshotStrategy::FileCopyFallback] {
        assert_eq!(SnapshotStrategy::from_db_str(s.as_db_str()), s);
    }
    assert_eq!(SnapshotStrategy::from_db_str("zfs"), SnapshotStrategy::FileCopyFallback);
}

#[test]
fn strategy_from_filesystem_names() {
    assert_eq!(SnapshotStrategy::from_fs_type("apfs"), SnapshotStrategy::ApfsReflink);
    assert_eq!(SnapshotStrategy::from_fs_type("hfs"), SnapshotStrategy::FileCopyFallback);
}

#[test]
fn strategy_from_longest_mount() {
    let mounts = "/dev/sda1 / ext4 rw 0 0\n/dev/sdb1 /data btrfs rw 0 0\n/dev/sdc1 /data/cold ext4 rw 0 0";
    assert_eq!(SnapshotStrategy::from_mounts("/data/work", mounts), SnapshotStrategy::BtrfsCow);
    assert_eq!(SnapshotStrategy::from_mounts("/data/cold/x", mounts), SnapshotStrategy::FileCopyFallback);
    assert_eq!(SnapshotStrategy::from_mounts("/home", mounts), SnapshotStrategy::FileCopyFallback);
}

fn entries(v: &[(&str, &str)]) -> Vec<(String, String)> {
    v.iter().map(|(p, h)| (p.to_string(), h.to_string())).collect()
}

#[test]
fn test_diff_no_changes_returns_empty() {
    let files = entries(&[("a.txt", "h1"), ("b.txt", "h2")]);
    assert!(diff_manifests(&files, &files).is_empty());
}

#[test]
fn diff_reports_each_kind_of_change() {
    let snap = entries(&[("a.txt", "h1"), ("b.txt", "h2"), ("c.txt", "h3")]);
    let cur = entries(&[("a.txt", "h1"), ("b.txt", "h9"), ("d.txt", "h4")]);
    let d = diff_manifests(&snap, &cur);
    assert_eq!(d.len(), 3);
    assert_eq!(d[0].path, "b.txt");
    assert_eq!(d[0].change_type, ChangeType::Modified);
    assert_eq!(d[0].old_hash.as_deref(), Some("h2"));
    assert_eq!(d[0].new_hash.as_deref(), Some("h9"));
    assert_eq!(d[1].path, "c.txt");
    assert_eq!(d[1].change_type, ChangeType::Deleted);
    assert_eq!(d[1].new_hash, None);
    assert_eq!(d[2].path, "d.txt");
    assert_eq!(d[2].change_type, ChangeType::Added);
    assert_eq!(d[2].old_hash, None);
    assert_eq!(d[2].new_hash.as_deref(), Some("h4"));
}

#[test]
fn rollback_plan_restores_snapshot_and_removes_extras() {
    let snap = entries(&[("a.txt", "h1"), ("dir/b.txt", "h2"), ("a.txt", "h3")]);
    let current = vec!["a.txt".to_string(), "new.txt".to_string(), "dir/c.txt".to_string()];
    let plan = plan_rollback(&snap, &current);
    assert_eq!(plan.restore, vec!["dir/b.txt".to_string(), "a.txt".to_string()]);
    assert_eq!(plan.remove, vec!["new.txt".to_string(), "dir/c.txt".to_string()]);
}

#[test]
fn test_rollback_of_empty_snapshot_removes_everything() {
    let plan = plan_rollback(&vec![], &vec!["x".to_string()]);
    assert!(plan.restore.is_empty());
    assert_eq!(plan.remove, vec!["x".to_string()]);
}

#[test]
fn diff_reports_a_repeated_path_once_by_its_last_hash() {
    let snap = entries(&[("a.txt", "h1"), ("a.txt", "h2"), ("b.txt", "h3")]);
    let cur = entries(&[("a.txt", "h2"), ("c.txt", "h4"), ("c.txt", "h5")]);
    let d = diff_manifests(&snap, &cur);
    assert_eq!(d.len(), 2);
    assert_eq!(d[0].path, "b.txt");
    assert_eq!(d[0].change_type, ChangeType::Deleted);
    assert_eq!(d[1].path, "c.txt");
    assert_eq!(d[1].change_type, ChangeType::Added);
    assert_eq!(d[1].new_hash.as_deref(), Some("h5"));
}
