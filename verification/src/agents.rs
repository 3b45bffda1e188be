//! The kernel's table of managed agents: which processes it started, their
//! lifecycle state, session and token budget, and the rules that decide
//! whether a request about an agent can go ahead. Starting processes,
//! sending signals and writing the agents table of the database is the
//! program's work; it keeps this table beside the child handles.
use std::collections::HashMap;
use vstd::prelude::*;

use crate::compress::{word_ranges, words};
use crate::error::HawkError;
use crate::text::{chars_of, dec, push_decimal, string_of_range, to_string};
use crate::types::LifecycleState;

verus! {

broadcast use vstd::std_specs::hash::group_hash_axioms;

/// What the kernel remembers of an agent it started.
#[derive(Debug, Clone)]
pub struct AgentRecord {
    pub name: String,
    pub state: LifecycleState,
    pub session_id: String,
    pub budget_tokens: u64,
}

/// The program to run and its arguments: the whitespace-separated words of
/// an agent's entry command.
pub fn command_parts(entry_command: &str) -> (r: Result<(String, Vec<String>), HawkError>)
    ensures
        r is Ok <==> words(entry_command@).len() > 0,
        r matches Ok((program, args)) ==> {
            let ws = words(entry_command@);
            &&& program@ == ws[0]
            &&& args@.len() == ws.len() - 1
            &&& forall|i: int| 0 <= i < args@.len() ==> (#[trigger] args@[i])@ == ws[i + 1]
        },
        r matches Err(e) ==> (e matches HawkError::InvalidManifest(m) && m@ == "entry_command must not be empty"@),
{
    let v = chars_of(entry_command);
    let rs = word_ranges(&v);
    let n = rs.len();
    if n == 0 {
        return Err(HawkError::InvalidManifest(to_string("entry_command must not be empty")));
    }
    let (a, b) = rs[0];
    let program = string_of_range(&v, a, b);
    let mut args: Vec<String> = Vec::new();
    let mut i: usize = 1;
    while i < n
        invariant
            1 <= i <= n,
            n == rs@.len(),
            n == words(v@).len(),
            v@ == entry_command@,
            forall|k: int| 0 <= k < rs@.len() ==> (#[trigger] rs@[k]).0 < rs@[k].1 <= v@.len() && v@.subrange(
                rs@[k].0 as int,
                rs@[k].1 as int,
            ) == words(v@)[k],
            args@.len() == i - 1,
            forall|k: int| 0 <= k < args@.len() ==> (#[trigger] args@[k])@ == words(v@)[k + 1],
        decreases n - i,
    {
        let (a, b) = rs[i];
        args.push(string_of_range(&v, a, b));
        i = i + 1;
    }
    Ok((program, args))
}

/// The `Not found: agent <pid>` error.
pub open spec fn unknown_agent_text(pid: u32) -> Seq<char> {
    "agent "@ + dec(pid as nat)
}

/// The agents the kernel started, by process id.
pub struct AgentTable {
    records: HashMap<u32, AgentRecord>,
}

impl View for AgentTable {
    type V = Map<u32, AgentRecord>;

    closed spec fn view(&self) -> Map<u32, AgentRecord> {
        self.records@
    }
}

impl AgentTable {
    pub fn new() -> (t: Self)
        ensures
            t@ == Map::<u32, AgentRecord>::empty(),
    {
        AgentTable { records: HashMap::new() }
    }

    /// Records a freshly started agent as running.
    pub fn insert_running(&mut self, pid: u32, name: String, session_id: String, budget_tokens: u64)
        ensures
            final(self)@ == old(self)@.insert(
                pid,
                AgentRecord { name, state: LifecycleState::Running, session_id, budget_tokens },
            ),
    {
        self.records.insert(pid, AgentRecord { name, state: LifecycleState::Running, session_id, budget_tokens });
    }

    /// Whether the kernel knows agent `pid`.
    pub fn contains(&self, pid: u32) -> (b: bool)
        ensures
            b == self@.contains_key(pid),
    {
        self.records.contains_key(&pid)
    }

    /// A request about `pid` can go ahead only for an agent the kernel
    /// started.
    pub fn require_agent(&self, pid: u32) -> (r: Result<(), HawkError>)
        ensures
            r is Ok <==> self@.contains_key(pid),
            r matches Err(e) ==> (e matches HawkError::NotFound(m) && m@ == unknown_agent_text(pid)),
    {
        if self.records.contains_key(&pid) {
            Ok(())
        } else {
            let mut s = to_string("agent ");
            push_decimal(&mut s, pid as u64);
            Err(HawkError::NotFound(s))
        }
    }

    /// Sets the state of a known agent; the table is unchanged for an
    /// unknown one.
    pub fn update_state(&mut self, pid: u32, state: LifecycleState)
        ensures
            old(self)@.contains_key(pid) ==> final(self)@ == old(self)@.insert(
                pid,
                AgentRecord {
                    name: old(self)@[pid].name,
                    state,
                    session_id: old(self)@[pid].session_id,
                    budget_tokens: old(self)@[pid].budget_tokens,
                },
            ),
            !old(self)@.contains_key(pid) ==> final(self)@ == old(self)@,
    {
        match self.records.remove(&pid) {
            Some(rec) => {
                let updated = AgentRecord {
                    name: rec.name,
                    state,
                    session_id: rec.session_id,
                    budget_tokens: rec.budget_tokens,
                };
                self.records.insert(pid, updated);
                assert(self.records@ =~= old(self)@.insert(pid, updated));
            },
            None => {},
        }
    }

    /// Forgets an agent once it has stopped.
    pub fn remove(&mut self, pid: u32)
        ensures
            final(self)@ == old(self)@.remove(pid),
    {
        self.records.remove(&pid);
    }

    /// The state of agent `pid`, if the kernel knows it.
    pub fn state_of(&self, pid: u32) -> (r: Option<LifecycleState>)
        ensures
            match r {
                Some(s) => self@.contains_key(pid) && self@[pid].state == s,
                None => !self@.contains_key(pid),
            },
    {
        match self.records.get(&pid) {
            Some(r) => Some(r.state),
            None => None,
        }
    }

    /// The budget to enforce for `pid`: its token budget when the kernel
    /// knows the agent and the budget is set (non-zero). Only then is its
    /// usage worth looking up.
    pub fn budget_to_enforce(&self, pid: u32) -> (r: Option<u64>)
        ensures
            match r {
                Some(b) => self@.contains_key(pid) && b == self@[pid].budget_tokens && b != 0,
                None => !self@.contains_key(pid) || self@[pid].budget_tokens == 0,
            },
    {
        match self.records.get(&pid) {
            Some(r) => if r.budget_tokens == 0 {
                None
            } else {
                Some(r.budget_tokens)
            },
            None => None,
        }
    }
}

} // verus!
