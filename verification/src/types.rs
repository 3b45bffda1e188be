//! Kernel-wide vocabulary: agent lifecycle states, permission answers and
//! the status of a running agent.
use vstd::prelude::*;

verus! {

#[derive(Debug, Clone, Copy, PartialEq, Eq, Structural)]
pub enum LifecycleState {
    Starting,
    Running,
    Paused,
    Stopping,
    Stopped,
    Failed,
}

#[derive(Debug)]
pub enum PermissionResult {
    Allowed,
    Denied { reason: String },
}

/// How an agent was stopped: whether it had to be killed.
#[derive(Debug, Clone, Copy, PartialEq, Eq, Structural)]
pub struct StopResult {
    pub pid: u32,
    pub forced: bool,
}

/// `Duration::clone`: a copy of the duration.
pub assume_specification[<std::time::Duration as Clone>::clone](d: &std::time::Duration) -> (r: std::time::Duration)
    ensures
        r == *d,
;

/// What the kernel reports of a running agent. Its CPU share, a float, is
/// kept beside it by the program.
#[derive(Debug, Clone)]
pub struct AgentStatus {
    pub pid: u32,
    pub name: String,
    pub state: LifecycleState,
    pub uptime: std::time::Duration,
    pub memory_bytes: u64,
    pub open_fds: u32,
}

} // verus!
