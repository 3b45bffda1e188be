//! Which subsystems a platform gets: the IPC mechanism, the snapshot
//! strategy and whether an OS keychain is there, all decided by the OS.
use vstd::prelude::*;

use crate::text::{str_eq, to_string};

verus! {

#[derive(Debug, Clone, PartialEq)]
pub enum Os {
    Windows,
    MacOs,
    Linux,
    Other(String),
}

#[derive(Debug, Clone, PartialEq)]
pub enum Arch {
    X86_64,
    Arm64,
    Other(String),
}

#[derive(Debug, Clone, Copy, PartialEq, Eq, Structural)]
pub enum IpcMechanism {
    UnixDomainSocket,
    NamedPipe,
}

#[derive(Debug, Clone, Copy, PartialEq, Eq, Structural)]
pub enum SnapshotStrategy {
    ApfsReflink,
    BtrfsCow,
    FileCopyFallback,
}

#[derive(Debug, Clone)]
pub struct PlatformConfig {
    pub os: Os,
    pub arch: Arch,
    pub ipc: IpcMechanism,
    pub snapshot_strategy: SnapshotStrategy,
    pub keychain_available: bool,
}

/// Named pipes on Windows, Unix domain sockets elsewhere.
pub open spec fn ipc_for(os: Os) -> IpcMechanism {
    match os {
        Os::Windows => IpcMechanism::NamedPipe,
        _ => IpcMechanism::UnixDomainSocket,
    }
}

/// APFS reflinks on macOS, Btrfs copy-on-write on Linux, plain copies
/// elsewhere.
pub open spec fn snapshot_strategy_for(os: Os) -> SnapshotStrategy {
    match os {
        Os::MacOs => SnapshotStrategy::ApfsReflink,
        Os::Linux => SnapshotStrategy::BtrfsCow,
        _ => SnapshotStrategy::FileCopyFallback,
    }
}

/// macOS and Windows have an OS keychain.
pub open spec fn keychain_for(os: Os) -> bool {
    os is MacOs || os is Windows
}

impl Os {
    /// The operating system that a build-target name (`"macos"`, `"windows"`,
    /// `"linux"`, ...) stands for; any other name is kept as it is.
    pub fn from_target(name: &str) -> (r: Os)
        ensures
            name@ == "macos"@ ==> r == Os::MacOs,
            name@ == "windows"@ ==> r == Os::Windows,
            name@ == "linux"@ ==> r == Os::Linux,
            name@ != "macos"@ && name@ != "windows"@ && name@ != "linux"@ ==> (r matches Os::Other(
                o,
            ) && o@ == name@),
    {
        proof {
            reveal_strlit("macos");
            reveal_strlit("windows");
            reveal_strlit("linux");
            assert("macos"@.len() != "windows"@.len());
            assert("macos"@[0] != "linux"@[0] && "windows"@[0] != "linux"@[0]);
        }
        if str_eq(name, "macos") {
            Os::MacOs
        } else if str_eq(name, "windows") {
            Os::Windows
        } else if str_eq(name, "linux") {
            Os::Linux
        } else {
            Os::Other(to_string(name))
        }
    }
}

impl Arch {
    /// The architecture that a build-target name (`"x86_64"`, `"aarch64"`,
    /// ...) stands for; any other name is kept as it is.
    pub fn from_target(name: &str) -> (r: Arch)
        ensures
            name@ == "x86_64"@ ==> r == Arch::X86_64,
            name@ == "aarch64"@ ==> r == Arch::Arm64,
            name@ != "x86_64"@ && name@ != "aarch64"@ ==> (r matches Arch::Other(a) && a@
                == name@),
    {
        proof {
            reveal_strlit("x86_64");
            reveal_strlit("aarch64");
            assert("x86_64"@[0] != "aarch64"@[0]);
        }
        if str_eq(name, "x86_64") {
            Arch::X86_64
        } else if str_eq(name, "aarch64") {
            Arch::Arm64
        } else {
            Arch::Other(to_string(name))
        }
    }
}

impl PlatformConfig {
    /// The configuration of the platform with operating system `os` on
    /// architecture `arch` (the program reads both from the build target).
    pub fn detect(os: Os, arch: Arch) -> (c: Self)
        ensures
            c.os == os,
            c.arch == arch,
            c.ipc == ipc_for(os),
            c.snapshot_strategy == snapshot_strategy_for(os),
            c.keychain_available == keychain_for(os),
    {
        let ipc = detect_ipc(&os);
        let snapshot_strategy = detect_snapshot_strategy(&os);
        let keychain_available = detect_keychain(&os);
        PlatformConfig { os, arch, ipc, snapshot_strategy, keychain_available }
    }
}

pub fn detect_ipc(os: &Os) -> (m: IpcMechanism)
    ensures
        m == ipc_for(*os),
{
    match os {
        Os::Windows => IpcMechanism::NamedPipe,
        _ => IpcMechanism::UnixDomainSocket,
    }
}

pub fn detect_snapshot_strategy(os: &Os) -> (s: SnapshotStrategy)
    ensures
        s == snapshot_strategy_for(*os),
{
    match os {
        Os::MacOs => SnapshotStrategy::ApfsReflink,
        Os::Linux => SnapshotStrategy::BtrfsCow,
        _ => SnapshotStrategy::FileCopyFallback,
    }
}

pub fn detect_keychain(os: &Os) -> (b: bool)
    ensures
        b == keychain_for(*os),
{
    match os {
        Os::MacOs | Os::Windows => true,
        _ => false,
    }
}

} // verus!
