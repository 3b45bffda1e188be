//! Per-process resource limits and the rule that turns a memory reading into
//! an over-limit event. Sampling the operating system, suspending a process
//! and delivering the events is the program's work; it asks this module what
//! each reading means.
use std::collections::HashMap;
use vstd::prelude::*;

verus! {

broadcast use vstd::std_specs::hash::group_hash_axioms;

/// Bytes in one mebibyte.
pub const MEBIBYTE: u64 = 1048576;

/// Limits one agent process runs under.
#[derive(Debug, Clone, Copy, PartialEq, Eq, Structural)]
pub struct ResourceLimits {
    pub cpu_percent: u8,
    pub memory_mb: u64,
    pub max_open_fds: u64,
}

impl ResourceLimits {
    /// The memory limit in bytes, as a mathematical integer.
    pub open spec fn limit_bytes_spec(self) -> int {
        self.memory_mb * MEBIBYTE
    }

    /// The memory limit in bytes (`memory_mb * 1024 * 1024`).
    pub fn memory_limit_bytes(&self) -> (r: u64)
        requires
            self.limit_bytes_spec() <= u64::MAX,
        ensures
            r == self.limit_bytes_spec(),
    {
        self.memory_mb * MEBIBYTE
    }
}

/// What the monitor reports.
#[derive(Debug, Clone, Copy, PartialEq, Eq, Structural)]
pub enum ResourceEvent {
    MemoryExceeded { pid: u32, memory_bytes: u64, limit_bytes: u64 },
}

/// The event, if any, that a memory reading of `memory_bytes` for `pid` under
/// `limits` raises.
pub open spec fn memory_verdict(pid: u32, limits: ResourceLimits, memory_bytes: u64) -> Option<
    ResourceEvent,
> {
    if memory_bytes > limits.limit_bytes_spec() {
        Some(
            ResourceEvent::MemoryExceeded {
                pid,
                memory_bytes,
                limit_bytes: limits.limit_bytes_spec() as u64,
            },
        )
    } else {
        None
    }
}

/// Judges one memory reading: an event when the process uses more than its
/// limit (the program then suspends the process and sends the event), none
/// otherwise.
pub fn check_memory(pid: u32, limits: &ResourceLimits, memory_bytes: u64) -> (r: Option<
    ResourceEvent,
>)
    requires
        limits.limit_bytes_spec() <= u64::MAX,
    ensures
        r == memory_verdict(pid, *limits, memory_bytes),
{
    let limit_bytes = limits.memory_limit_bytes();
    if memory_bytes > limit_bytes {
        Some(ResourceEvent::MemoryExceeded { pid, memory_bytes, limit_bytes })
    } else {
        None
    }
}

/// The registered limits, by process id.
pub struct ResourceMonitor {
    limits: HashMap<u32, ResourceLimits>,
}

impl View for ResourceMonitor {
    type V = Map<u32, ResourceLimits>;

    closed spec fn view(&self) -> Map<u32, ResourceLimits> {
        self.limits@
    }
}

impl ResourceMonitor {
    /// A monitor with no process registered.
    pub fn new() -> (r: Self)
        ensures
            r@ == Map::<u32, ResourceLimits>::empty(),
    {
        ResourceMonitor { limits: HashMap::new() }
    }

    /// Registers (or replaces) the limits of `pid`.
    pub fn register(&mut self, pid: u32, limits: ResourceLimits)
        ensures
            final(self)@ == old(self)@.insert(pid, limits),
    {
        self.limits.insert(pid, limits);
    }

    /// Forgets the limits of `pid`.
    pub fn deregister(&mut self, pid: u32)
        ensures
            final(self)@ == old(self)@.remove(pid),
    {
        self.limits.remove(&pid);
    }

    /// Whether `pid` has limits registered.
    pub fn is_registered(&self, pid: u32) -> (r: bool)
        ensures
            r == self@.contains_key(pid),
    {
        self.limits.contains_key(&pid)
    }

    /// The limits registered for `pid`.
    pub fn limits_of(&self, pid: u32) -> (r: Option<ResourceLimits>)
        ensures
            r == (if self@.contains_key(pid) {
                Some(self@[pid])
            } else {
                None
            }),
    {
        match self.limits.get(&pid) {
            Some(l) => Some(*l),
            None => None,
        }
    }

    /// Judges a memory reading for `pid` against its registered limits: no
    /// event for a process that is not registered.
    pub fn check(&self, pid: u32, memory_bytes: u64) -> (r: Option<ResourceEvent>)
        requires
            self@.contains_key(pid) ==> self@[pid].limit_bytes_spec() <= u64::MAX,
        ensures
            r == (if self@.contains_key(pid) {
                memory_verdict(pid, self@[pid], memory_bytes)
            } else {
                None
            }),
    {
        match self.limits.get(&pid) {
            Some(l) => check_memory(pid, l, memory_bytes),
            None => None,
        }
    }
}

/// Registering limits and then removing them leaves no limits for that
/// process, and touches no other process.
pub proof fn deregister_undoes_register(m: Map<u32, ResourceLimits>, pid: u32, limits: ResourceLimits)
    ensures
        !m.insert(pid, limits).remove(pid).contains_key(pid),
        forall|q: u32| q != pid ==> (#[trigger] m.insert(pid, limits).remove(pid).contains_key(q)
            <==> m.contains_key(q)),
        forall|q: u32|
            q != pid && m.contains_key(q) ==> #[trigger] m.insert(pid, limits).remove(pid)[q]
                == m[q],
{
}

/// A reading raises an event exactly when it is above the limit, and the
/// event carries the reading and the limit.
pub proof fn event_iff_over_limit(pid: u32, limits: ResourceLimits, memory_bytes: u64)
    requires
        limits.limit_bytes_spec() <= u64::MAX,
    ensures
        memory_verdict(pid, limits, memory_bytes) is Some <==> memory_bytes
            > limits.limit_bytes_spec(),
        memory_verdict(pid, limits, memory_bytes) matches Some(
            ResourceEvent::MemoryExceeded { pid: p, memory_bytes: m, limit_bytes: l },
        ) ==> p == pid && m == memory_bytes && l == limits.limit_bytes_spec() && m > l,
{
}

} // verus!
