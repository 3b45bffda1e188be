//! Multi-agent orchestration: splitting a task description into sub-tasks,
//! assigning each to the best-matching agent, and executing the plan in
//! dependency order.
use vstd::prelude::*;

use crate::error::HawkError;
pub use crate::graph::topological_sort;
use crate::graph::{edges_in_range, has_topo_order, is_topo_order, node_range};
use crate::text::{
    push_decimal, push_str,
    chars_of, contains_exec, contains_seq, dec, piece_at, split_exec, split_on, string_of_range, sub_vec,
    to_lowercase, to_string, trim, trim_bounds, unicode_lower,
};

verus! {

#[derive(Debug, Clone, PartialEq)]
pub enum SubTaskStatus {
    Pending,
    Running,
    Completed,
    Failed(String),
}

#[derive(Debug, Clone)]
pub struct SubTask {
    pub description: String,
    pub assigned_agent: Option<u32>,
    pub status: SubTaskStatus,
    pub required_capabilities: Vec<String>,
}

#[derive(Debug, Clone)]
pub struct OrchestrationPlan {
    pub task_description: String,
    pub subtasks: Vec<SubTask>,
    /// (dependency_idx, dependent_idx): dependency must complete before dependent
    pub dependencies: Vec<(usize, usize)>,
}

#[derive(Debug)]
pub struct OrchestrationReport {
    pub plan: OrchestrationPlan,
    pub success: bool,
    pub summary: String,
}

#[derive(Debug, Clone)]
pub struct AgentCapabilityRecord {
    pub pid: u32,
    pub name: String,
    pub capabilities: Vec<String>,
}

#[derive(Debug)]
pub enum OrchestratorError {
    NoAgentsRegistered,
    CyclicDependency,
    Hawk(HawkError),
}

pub struct Orchestrator {
    agents: Vec<AgentCapabilityRecord>,
}

// ── Specification ────────────────────────────────────────────────────────────

/// The texts of a list of strings.
pub open spec fn strs(v: Seq<String>) -> Seq<Seq<char>> {
    v.map_values(|s: String| s@)
}

/// Number of required capabilities that the agent has.
pub open spec fn overlap(agent_caps: Seq<Seq<char>>, required: Seq<Seq<char>>) -> nat
    decreases required.len(),
{
    if required.len() == 0 {
        0
    } else {
        overlap(agent_caps, required.drop_last()) + if agent_caps.contains(required.last()) {
            1nat
        } else {
            0nat
        }
    }
}

pub open spec fn agent_overlap(a: AgentCapabilityRecord, required: Seq<Seq<char>>) -> nat {
    overlap(strs(a.capabilities@), required)
}

/// Index of the agent with the greatest overlap; the last one among equals
/// (`Iterator::max_by_key`), or -1 when there are no agents.
pub open spec fn best_index(agents: Seq<AgentCapabilityRecord>, required: Seq<Seq<char>>) -> int
    decreases agents.len(),
{
    if agents.len() == 0 {
        -1
    } else {
        let j = best_index(agents.drop_last(), required);
        let l = agents.len() - 1;
        if j < 0 || agent_overlap(agents[l], required) >= agent_overlap(agents[j], required) {
            l
        } else {
            j
        }
    }
}

pub open spec fn best_pid(agents: Seq<AgentCapabilityRecord>, required: Seq<Seq<char>>) -> Option<
    u32,
> {
    let j = best_index(agents, required);
    if j < 0 {
        None
    } else {
        Some(agents[j].pid)
    }
}

/// One keyword rule: add `cap` when `lower` mentions `kw` and `cap` is new.
pub open spec fn cap_step(caps: Seq<Seq<char>>, lower: Seq<char>, kw: Seq<char>, cap: Seq<char>) -> Seq<
    Seq<char>,
> {
    if contains_seq(lower, kw) && !caps.contains(cap) {
        caps.push(cap)
    } else {
        caps
    }
}

/// Capabilities inferred from a lower-cased description, by the keyword table
/// in order.
pub open spec fn caps_for_lowercase(lower: Seq<char>) -> Seq<Seq<char>> {
    let c = Seq::<Seq<char>>::empty();
    let c = cap_step(c, lower, "research"@, "research"@);
    let c = cap_step(c, lower, "search"@, "research"@);
    let c = cap_step(c, lower, "summar"@, "summarization"@);
    let c = cap_step(c, lower, "code"@, "coding"@);
    let c = cap_step(c, lower, "implement"@, "coding"@);
    let c = cap_step(c, lower, "write"@, "coding"@);
    let c = cap_step(c, lower, "review"@, "review"@);
    let c = cap_step(c, lower, "test"@, "testing"@);
    let c = cap_step(c, lower, "deploy"@, "deployment"@);
    let c = cap_step(c, lower, "analyz"@, "analysis"@);
    let c = cap_step(c, lower, "analys"@, "analysis"@);
    cap_step(c, lower, "web"@, "web-search"@)
}

/// `[cap]` when it is asked for, else nothing.
pub open spec fn if_asked(asked: bool, cap: Seq<char>) -> Seq<Seq<char>> {
    if asked {
        seq![cap]
    } else {
        Seq::empty()
    }
}

proof fn lemma_cap_step(acc: Seq<Seq<char>>, lower: Seq<char>, kw: Seq<char>, cap: Seq<char>)
    requires
        forall|i: int| 0 <= i < acc.len() ==> acc[i] != cap,
    ensures
        cap_step(acc, lower, kw, cap) == acc + if_asked(contains_seq(lower, kw), cap),
{
    assert(!acc.contains(cap));
    assert(acc + Seq::<Seq<char>>::empty() =~= acc);
    assert(acc + seq![cap] =~= acc.push(cap));
}

proof fn lemma_cap_step_again(acc: Seq<Seq<char>>, lower: Seq<char>, kw: Seq<char>, cap: Seq<char>, asked: bool)
    requires
        forall|i: int| 0 <= i < acc.len() ==> acc[i] != cap,
    ensures
        cap_step(acc + if_asked(asked, cap), lower, kw, cap) == acc + if_asked(asked || contains_seq(lower, kw), cap),
{
    if asked {
        assert((acc + seq![cap]).contains(cap)) by {
            assert((acc + seq![cap])[acc.len() as int] == cap);
        }
    } else {
        assert(acc + Seq::<Seq<char>>::empty() =~= acc);
        lemma_cap_step(acc, lower, kw, cap);
    }
}

proof fn lemma_if_asked_other(asked: bool, cap: Seq<char>, other: Seq<char>)
    requires
        cap != other,
    ensures
        forall|i: int| 0 <= i < if_asked(asked, cap).len() ==> if_asked(asked, cap)[i] != other,
{
}

proof fn lemma_not_among(a: Seq<Seq<char>>, b: Seq<Seq<char>>, cap: Seq<char>)
    requires
        forall|i: int| 0 <= i < a.len() ==> a[i] != cap,
        forall|i: int| 0 <= i < b.len() ==> b[i] != cap,
    ensures
        forall|i: int| 0 <= i < (a + b).len() ==> (a + b)[i] != cap,
{
    assert forall|i: int| 0 <= i < (a + b).len() implies (a + b)[i] != cap by {
        if i < a.len() {
            assert((a + b)[i] == a[i]);
        } else {
            assert((a + b)[i] == b[i - a.len()]);
        }
    }
}

/// The capability names are pairwise different.
proof fn lemma_capability_names_distinct()
    ensures
        "research"@ != "summarization"@,
        "research"@ != "coding"@,
        "research"@ != "review"@,
        "research"@ != "testing"@,
        "research"@ != "deployment"@,
        "research"@ != "analysis"@,
        "research"@ != "web-search"@,
        "summarization"@ != "coding"@,
        "summarization"@ != "review"@,
        "summarization"@ != "testing"@,
        "summarization"@ != "deployment"@,
        "summarization"@ != "analysis"@,
        "summarization"@ != "web-search"@,
        "coding"@ != "review"@,
        "coding"@ != "testing"@,
        "coding"@ != "deployment"@,
        "coding"@ != "analysis"@,
        "coding"@ != "web-search"@,
        "review"@ != "testing"@,
        "review"@ != "deployment"@,
        "review"@ != "analysis"@,
        "review"@ != "web-search"@,
        "testing"@ != "deployment"@,
        "testing"@ != "analysis"@,
        "testing"@ != "web-search"@,
        "deployment"@ != "analysis"@,
        "deployment"@ != "web-search"@,
        "analysis"@ != "web-search"@,
{
    reveal_strlit("research");
    assert("research"@.len() == 8 && "research"@[0] == 'r');
    reveal_strlit("summarization");
    assert("summarization"@.len() == 13 && "summarization"@[0] == 's');
    reveal_strlit("coding");
    assert("coding"@.len() == 6 && "coding"@[0] == 'c');
    reveal_strlit("review");
    assert("review"@.len() == 6 && "review"@[0] == 'r');
    reveal_strlit("testing");
    assert("testing"@.len() == 7 && "testing"@[0] == 't');
    reveal_strlit("deployment");
    assert("deployment"@.len() == 10 && "deployment"@[0] == 'd');
    reveal_strlit("analysis");
    assert("analysis"@.len() == 8 && "analysis"@[0] == 'a');
    reveal_strlit("web-search");
    assert("web-search"@.len() == 10 && "web-search"@[0] == 'w');
}

/// A description asks for exactly the capabilities its keywords name, each
/// once, in this order: research ("research", "search"), summarization
/// ("summar"), coding ("code", "implement", "write"), review ("review"),
/// testing ("test"), deployment ("deploy"), analysis ("analyz", "analys"),
/// web search ("web").
pub proof fn inferred_capabilities_follow_keywords(lower: Seq<char>)
    ensures
        caps_for_lowercase(lower) == if_asked(contains_seq(lower, "research"@) || contains_seq(lower, "search"@), "research"@)
            + if_asked(contains_seq(lower, "summar"@), "summarization"@)
            + if_asked(contains_seq(lower, "code"@) || contains_seq(lower, "implement"@) || contains_seq(lower, "write"@), "coding"@)
            + if_asked(contains_seq(lower, "review"@), "review"@)
            + if_asked(contains_seq(lower, "test"@), "testing"@)
            + if_asked(contains_seq(lower, "deploy"@), "deployment"@)
            + if_asked(contains_seq(lower, "analyz"@) || contains_seq(lower, "analys"@), "analysis"@)
            + if_asked(contains_seq(lower, "web"@), "web-search"@),
{
    lemma_capability_names_distinct();
    let e = Seq::<Seq<char>>::empty();
    assert(e + Seq::<Seq<char>>::empty() =~= e);
    let s0 = cap_step(e, lower, "research"@, "research"@);
    assert(s0 == e + if_asked(contains_seq(lower, "research"@), "research"@)) by {
        lemma_cap_step(e, lower, "research"@, "research"@);
    }
    let s1 = cap_step(s0, lower, "search"@, "research"@);
    assert(s1 == e + if_asked(contains_seq(lower, "research"@) || contains_seq(lower, "search"@), "research"@)) by {
        lemma_cap_step_again(e, lower, "search"@, "research"@, contains_seq(lower, "research"@));
    }
    lemma_if_asked_other(contains_seq(lower, "research"@) || contains_seq(lower, "search"@), "research"@, "summarization"@);
    lemma_not_among(e, if_asked(contains_seq(lower, "research"@) || contains_seq(lower, "search"@), "research"@), "summarization"@);
    let s2 = cap_step(s1, lower, "summar"@, "summarization"@);
    assert(s2 == (e + if_asked(contains_seq(lower, "research"@) || contains_seq(lower, "search"@), "research"@)) + if_asked(contains_seq(lower, "summar"@), "summarization"@)) by {
        lemma_cap_step((e + if_asked(contains_seq(lower, "research"@) || contains_seq(lower, "search"@), "research"@)), lower, "summar"@, "summarization"@);
    }
    lemma_if_asked_other(contains_seq(lower, "research"@) || contains_seq(lower, "search"@), "research"@, "coding"@);
    lemma_not_among(e, if_asked(contains_seq(lower, "research"@) || contains_seq(lower, "search"@), "research"@), "coding"@);
    lemma_if_asked_other(contains_seq(lower, "summar"@), "summarization"@, "coding"@);
    lemma_not_among((e + if_asked(contains_seq(lower, "research"@) || contains_seq(lower, "search"@), "research"@)), if_asked(contains_seq(lower, "summar"@), "summarization"@), "coding"@);
    let s3 = cap_step(s2, lower, "code"@, "coding"@);
    assert(s3 == ((e + if_asked(contains_seq(lower, "research"@) || contains_seq(lower, "search"@), "research"@)) + if_asked(contains_seq(lower, "summar"@), "summarization"@)) + if_asked(contains_seq(lower, "code"@), "coding"@)) by {
        lemma_cap_step(((e + if_asked(contains_seq(lower, "research"@) || contains_seq(lower, "search"@), "research"@)) + if_asked(contains_seq(lower, "summar"@), "summarization"@)), lower, "code"@, "coding"@);
    }
    let s4 = cap_step(s3, lower, "implement"@, "coding"@);
    assert(s4 == ((e + if_asked(contains_seq(lower, "research"@) || contains_seq(lower, "search"@), "research"@)) + if_asked(contains_seq(lower, "summar"@), "summarization"@)) + if_asked(contains_seq(lower, "code"@) || contains_seq(lower, "implement"@), "coding"@)) by {
        lemma_cap_step_again(((e + if_asked(contains_seq(lower, "research"@) || contains_seq(lower, "search"@), "research"@)) + if_asked(contains_seq(lower, "summar"@), "summarization"@)), lower, "implement"@, "coding"@, contains_seq(lower, "code"@));
    }
    let s5 = cap_step(s4, lower, "write"@, "coding"@);
    assert(s5 == ((e + if_asked(contains_seq(lower, "research"@) || contains_seq(lower, "search"@), "research"@)) + if_asked(contains_seq(lower, "summar"@), "summarization"@)) + if_asked(contains_seq(lower, "code"@) || contains_seq(lower, "implement"@) || contains_seq(lower, "write"@), "coding"@)) by {
        lemma_cap_step_again(((e + if_asked(contains_seq(lower, "research"@) || contains_seq(lower, "search"@), "research"@)) + if_asked(contains_seq(lower, "summar"@), "summarization"@)), lower, "write"@, "coding"@, contains_seq(lower, "code"@) || contains_seq(lower, "implement"@));
    }
    lemma_if_asked_other(contains_seq(lower, "research"@) || contains_seq(lower, "search"@), "research"@, "review"@);
    lemma_not_among(e, if_asked(contains_seq(lower, "research"@) || contains_seq(lower, "search"@), "research"@), "review"@);
    lemma_if_asked_other(contains_seq(lower, "summar"@), "summarization"@, "review"@);
    lemma_not_among((e + if_asked(contains_seq(lower, "research"@) || contains_seq(lower, "search"@), "research"@)), if_asked(contains_seq(lower, "summar"@), "summarization"@), "review"@);
    lemma_if_asked_other(contains_seq(lower, "code"@) || contains_seq(lower, "implement"@) || contains_seq(lower, "write"@), "coding"@, "review"@);
    lemma_not_among(((e + if_asked(contains_seq(lower, "research"@) || contains_seq(lower, "search"@), "research"@)) + if_asked(contains_seq(lower, "summar"@), "summarization"@)), if_asked(contains_seq(lower, "code"@) || contains_seq(lower, "implement"@) || contains_seq(lower, "write"@), "coding"@), "review"@);
    let s6 = cap_step(s5, lower, "review"@, "review"@);
    assert(s6 == (((e + if_asked(contains_seq(lower, "research"@) || contains_seq(lower, "search"@), "research"@)) + if_asked(contains_seq(lower, "summar"@), "summarization"@)) + if_asked(contains_seq(lower, "code"@) || contains_seq(lower, "implement"@) || contains_seq(lower, "write"@), "coding"@)) + if_asked(contains_seq(lower, "review"@), "review"@)) by {
        lemma_cap_step((((e + if_asked(contains_seq(lower, "research"@) || contains_seq(lower, "search"@), "research"@)) + if_asked(contains_seq(lower, "summar"@), "summarization"@)) + if_asked(contains_seq(lower, "code"@) || contains_seq(lower, "implement"@) || contains_seq(lower, "write"@), "coding"@)), lower, "review"@, "review"@);
    }
    lemma_if_asked_other(contains_seq(lower, "research"@) || contains_seq(lower, "search"@), "research"@, "testing"@);
    lemma_not_among(e, if_asked(contains_seq(lower, "research"@) || contains_seq(lower, "search"@), "research"@), "testing"@);
    lemma_if_asked_other(contains_seq(lower, "summar"@), "summarization"@, "testing"@);
    lemma_not_among((e + if_asked(contains_seq(lower, "research"@) || contains_seq(lower, "search"@), "research"@)), if_asked(contains_seq(lower, "summar"@), "summarization"@), "testing"@);
    lemma_if_asked_other(contains_seq(lower, "code"@) || contains_seq(lower, "implement"@) || contains_seq(lower, "write"@), "coding"@, "testing"@);
    lemma_not_among(((e + if_asked(contains_seq(lower, "research"@) || contains_seq(lower, "search"@), "research"@)) + if_asked(contains_seq(lower, "summar"@), "summarization"@)), if_asked(contains_seq(lower, "code"@) || contains_seq(lower, "implement"@) || contains_seq(lower, "write"@), "coding"@), "testing"@);
    lemma_if_asked_other(contains_seq(lower, "review"@), "review"@, "testing"@);
    lemma_not_among((((e + if_asked(contains_seq(lower, "research"@) || contains_seq(lower, "search"@), "research"@)) + if_asked(contains_seq(lower, "summar"@), "summarization"@)) + if_asked(contains_seq(lower, "code"@) || contains_seq(lower, "implement"@) || contains_seq(lower, "write"@), "coding"@)), if_asked(contains_seq(lower, "review"@), "review"@), "testing"@);
    let s7 = cap_step(s6, lower, "test"@, "testing"@);
    assert(s7 == ((((e + if_asked(contains_seq(lower, "research"@) || contains_seq(lower, "search"@), "research"@)) + if_asked(contains_seq(lower, "summar"@), "summarization"@)) + if_asked(contains_seq(lower, "code"@) || contains_seq(lower, "implement"@) || contains_seq(lower, "write"@), "coding"@)) + if_asked(contains_seq(lower, "review"@), "review"@)) + if_asked(contains_seq(lower, "test"@), "testing"@)) by {
        lemma_cap_step(((((e + if_asked(contains_seq(lower, "research"@) || contains_seq(lower, "search"@), "research"@)) + if_asked(contains_seq(lower, "summar"@), "summarization"@)) + if_asked(contains_seq(lower, "code"@) || contains_seq(lower, "implement"@) || contains_seq(lower, "write"@), "coding"@)) + if_asked(contains_seq(lower, "review"@), "review"@)), lower, "test"@, "testing"@);
    }
    lemma_if_asked_other(contains_seq(lower, "research"@) || contains_seq(lower, "search"@), "research"@, "deployment"@);
    lemma_not_among(e, if_asked(contains_seq(lower, "research"@) || contains_seq(lower, "search"@), "research"@), "deployment"@);
    lemma_if_asked_other(contains_seq(lower, "summar"@), "summarization"@, "deployment"@);
    lemma_not_among((e + if_asked(contains_seq(lower, "research"@) || contains_seq(lower, "search"@), "research"@)), if_asked(contains_seq(lower, "summar"@), "summarization"@), "deployment"@);
    lemma_if_asked_other(contains_seq(lower, "code"@) || contains_seq(lower, "implement"@) || contains_seq(lower, "write"@), "coding"@, "deployment"@);
    lemma_not_among(((e + if_asked(contains_seq(lower, "research"@) || contains_seq(lower, "search"@), "research"@)) + if_asked(contains_seq(lower, "summar"@), "summarization"@)), if_asked(contains_seq(lower, "code"@) || contains_seq(lower, "implement"@) || contains_seq(lower, "write"@), "coding"@), "deployment"@);
    lemma_if_asked_other(contains_seq(lower, "review"@), "review"@, "deployment"@);
    lemma_not_among((((e + if_asked(contains_seq(lower, "research"@) || contains_seq(lower, "search"@), "research"@)) + if_asked(contains_seq(lower, "summar"@), "summarization"@)) + if_asked(contains_seq(lower, "code"@) || contains_seq(lower, "implement"@) || contains_seq(lower, "write"@), "coding"@)), if_asked(contains_seq(lower, "review"@), "review"@), "deployment"@);
    lemma_if_asked_other(contains_seq(lower, "test"@), "testing"@, "deployment"@);
    lemma_not_among(((((e + if_asked(contains_seq(lower, "research"@) || contains_seq(lower, "search"@), "research"@)) + if_asked(contains_seq(lower, "summar"@), "summarization"@)) + if_asked(contains_seq(lower, "code"@) || contains_seq(lower, "implement"@) || contains_seq(lower, "write"@), "coding"@)) + if_asked(contains_seq(lower, "review"@), "review"@)), if_asked(contains_seq(lower, "test"@), "testing"@), "deployment"@);
    let s8 = cap_step(s7, lower, "deploy"@, "deployment"@);
    assert(s8 == (((((e + if_asked(contains_seq(lower, "research"@) || contains_seq(lower, "search"@), "research"@)) + if_asked(contains_seq(lower, "summar"@), "summarization"@)) + if_asked(contains_seq(lower, "code"@) || contains_seq(lower, "implement"@) || contains_seq(lower, "write"@), "coding"@)) + if_asked(contains_seq(lower, "review"@), "review"@)) + if_asked(contains_seq(lower, "test"@), "testing"@)) + if_asked(contains_seq(lower, "deploy"@), "deployment"@)) by {
        lemma_cap_step((((((e + if_asked(contains_seq(lower, "research"@) || contains_seq(lower, "search"@), "research"@)) + if_asked(contains_seq(lower, "summar"@), "summarization"@)) + if_asked(contains_seq(lower, "code"@) || contains_seq(lower, "implement"@) || contains_seq(lower, "write"@), "coding"@)) + if_asked(contains_seq(lower, "review"@), "review"@)) + if_asked(contains_seq(lower, "test"@), "testing"@)), lower, "deploy"@, "deployment"@);
    }
    lemma_if_asked_other(contains_seq(lower, "research"@) || contains_seq(lower, "search"@), "research"@, "analysis"@);
    lemma_not_among(e, if_asked(contains_seq(lower, "research"@) || contains_seq(lower, "search"@), "research"@), "analysis"@);
    lemma_if_asked_other(contains_seq(lower, "summar"@), "summarization"@, "analysis"@);
    lemma_not_among((e + if_asked(contains_seq(lower, "research"@) || contains_seq(lower, "search"@), "research"@)), if_asked(contains_seq(lower, "summar"@), "summarization"@), "analysis"@);
    lemma_if_asked_other(contains_seq(lower, "code"@) || contains_seq(lower, "implement"@) || contains_seq(lower, "write"@), "coding"@, "analysis"@);
    lemma_not_among(((e + if_asked(contains_seq(lower, "research"@) || contains_seq(lower, "search"@), "research"@)) + if_asked(contains_seq(lower, "summar"@), "summarization"@)), if_asked(contains_seq(lower, "code"@) || contains_seq(lower, "implement"@) || contains_seq(lower, "write"@), "coding"@), "analysis"@);
    lemma_if_asked_other(contains_seq(lower, "review"@), "review"@, "analysis"@);
    lemma_not_among((((e + if_asked(contains_seq(lower, "research"@) || contains_seq(lower, "search"@), "research"@)) + if_asked(contains_seq(lower, "summar"@), "summarization"@)) + if_asked(contains_seq(lower, "code"@) || contains_seq(lower, "implement"@) || contains_seq(lower, "write"@), "coding"@)), if_asked(contains_seq(lower, "review"@), "review"@), "analysis"@);
    lemma_if_asked_other(contains_seq(lower, "test"@), "testing"@, "analysis"@);
    lemma_not_among(((((e + if_asked(contains_seq(lower, "research"@) || contains_seq(lower, "search"@), "research"@)) + if_asked(contains_seq(lower, "summar"@), "summarization"@)) + if_asked(contains_seq(lower, "code"@) || contains_seq(lower, "implement"@) || contains_seq(lower, "write"@), "coding"@)) + if_asked(contains_seq(lower, "review"@), "review"@)), if_asked(contains_seq(lower, "test"@), "testing"@), "analysis"@);
    lemma_if_asked_other(contains_seq(lower, "deploy"@), "deployment"@, "analysis"@);
    lemma_not_among((((((e + if_asked(contains_seq(lower, "research"@) || contains_seq(lower, "search"@), "research"@)) + if_asked(contains_seq(lower, "summar"@), "summarization"@)) + if_asked(contains_seq(lower, "code"@) || contains_seq(lower, "implement"@) || contains_seq(lower, "write"@), "coding"@)) + if_asked(contains_seq(lower, "review"@), "review"@)) + if_asked(contains_seq(lower, "test"@), "testing"@)), if_asked(contains_seq(lower, "deploy"@), "deployment"@), "analysis"@);
    let s9 = cap_step(s8, lower, "analyz"@, "analysis"@);
    assert(s9 == ((((((e + if_asked(contains_seq(lower, "research"@) || contains_seq(lower, "search"@), "research"@)) + if_asked(contains_seq(lower, "summar"@), "summarization"@)) + if_asked(contains_seq(lower, "code"@) || contains_seq(lower, "implement"@) || contains_seq(lower, "write"@), "coding"@)) + if_asked(contains_seq(lower, "review"@), "review"@)) + if_asked(contains_seq(lower, "test"@), "testing"@)) + if_asked(contains_seq(lower, "deploy"@), "deployment"@)) + if_asked(contains_seq(lower, "analyz"@), "analysis"@)) by {
        lemma_cap_step(((((((e + if_asked(contains_seq(lower, "research"@) || contains_seq(lower, "search"@), "research"@)) + if_asked(contains_seq(lower, "summar"@), "summarization"@)) + if_asked(contains_seq(lower, "code"@) || contains_seq(lower, "implement"@) || contains_seq(lower, "write"@), "coding"@)) + if_asked(contains_seq(lower, "review"@), "review"@)) + if_asked(contains_seq(lower, "test"@), "testing"@)) + if_asked(contains_seq(lower, "deploy"@), "deployment"@)), lower, "analyz"@, "analysis"@);
    }
    let s10 = cap_step(s9, lower, "analys"@, "analysis"@);
    assert(s10 == ((((((e + if_asked(contains_seq(lower, "research"@) || contains_seq(lower, "search"@), "research"@)) + if_asked(contains_seq(lower, "summar"@), "summarization"@)) + if_asked(contains_seq(lower, "code"@) || contains_seq(lower, "implement"@) || contains_seq(lower, "write"@), "coding"@)) + if_asked(contains_seq(lower, "review"@), "review"@)) + if_asked(contains_seq(lower, "test"@), "testing"@)) + if_asked(contains_seq(lower, "deploy"@), "deployment"@)) + if_asked(contains_seq(lower, "analyz"@) || contains_seq(lower, "analys"@), "analysis"@)) by {
        lemma_cap_step_again(((((((e + if_asked(contains_seq(lower, "research"@) || contains_seq(lower, "search"@), "research"@)) + if_asked(contains_seq(lower, "summar"@), "summarization"@)) + if_asked(contains_seq(lower, "code"@) || contains_seq(lower, "implement"@) || contains_seq(lower, "write"@), "coding"@)) + if_asked(contains_seq(lower, "review"@), "review"@)) + if_asked(contains_seq(lower, "test"@), "testing"@)) + if_asked(contains_seq(lower, "deploy"@), "deployment"@)), lower, "analys"@, "analysis"@, contains_seq(lower, "analyz"@));
    }
    lemma_if_asked_other(contains_seq(lower, "research"@) || contains_seq(lower, "search"@), "research"@, "web-search"@);
    lemma_not_among(e, if_asked(contains_seq(lower, "research"@) || contains_seq(lower, "search"@), "research"@), "web-search"@);
    lemma_if_asked_other(contains_seq(lower, "summar"@), "summarization"@, "web-search"@);
    lemma_not_among((e + if_asked(contains_seq(lower, "research"@) || contains_seq(lower, "search"@), "research"@)), if_asked(contains_seq(lower, "summar"@), "summarization"@), "web-search"@);
    lemma_if_asked_other(contains_seq(lower, "code"@) || contains_seq(lower, "implement"@) || contains_seq(lower, "write"@), "coding"@, "web-search"@);
    lemma_not_among(((e + if_asked(contains_seq(lower, "research"@) || contains_seq(lower, "search"@), "research"@)) + if_asked(contains_seq(lower, "summar"@), "summarization"@)), if_asked(contains_seq(lower, "code"@) || contains_seq(lower, "implement"@) || contains_seq(lower, "write"@), "coding"@), "web-search"@);
    lemma_if_asked_other(contains_seq(lower, "review"@), "review"@, "web-search"@);
    lemma_not_among((((e + if_asked(contains_seq(lower, "research"@) || contains_seq(lower, "search"@), "research"@)) + if_asked(contains_seq(lower, "summar"@), "summarization"@)) + if_asked(contains_seq(lower, "code"@) || contains_seq(lower, "implement"@) || contains_seq(lower, "write"@), "coding"@)), if_asked(contains_seq(lower, "review"@), "review"@), "web-search"@);
    lemma_if_asked_other(contains_seq(lower, "test"@), "testing"@, "web-search"@);
    lemma_not_among(((((e + if_asked(contains_seq(lower, "research"@) || contains_seq(lower, "search"@), "research"@)) + if_asked(contains_seq(lower, "summar"@), "summarization"@)) + if_asked(contains_seq(lower, "code"@) || contains_seq(lower, "implement"@) || contains_seq(lower, "write"@), "coding"@)) + if_asked(contains_seq(lower, "review"@), "review"@)), if_asked(contains_seq(lower, "test"@), "testing"@), "web-search"@);
    lemma_if_asked_other(contains_seq(lower, "deploy"@), "deployment"@, "web-search"@);
    lemma_not_among((((((e + if_asked(contains_seq(lower, "research"@) || contains_seq(lower, "search"@), "research"@)) + if_asked(contains_seq(lower, "summar"@), "summarization"@)) + if_asked(contains_seq(lower, "code"@) || contains_seq(lower, "implement"@) || contains_seq(lower, "write"@), "coding"@)) + if_asked(contains_seq(lower, "review"@), "review"@)) + if_asked(contains_seq(lower, "test"@), "testing"@)), if_asked(contains_seq(lower, "deploy"@), "deployment"@), "web-search"@);
    lemma_if_asked_other(contains_seq(lower, "analyz"@) || contains_seq(lower, "analys"@), "analysis"@, "web-search"@);
    lemma_not_among(((((((e + if_asked(contains_seq(lower, "research"@) || contains_seq(lower, "search"@), "research"@)) + if_asked(contains_seq(lower, "summar"@), "summarization"@)) + if_asked(contains_seq(lower, "code"@) || contains_seq(lower, "implement"@) || contains_seq(lower, "write"@), "coding"@)) + if_asked(contains_seq(lower, "review"@), "review"@)) + if_asked(contains_seq(lower, "test"@), "testing"@)) + if_asked(contains_seq(lower, "deploy"@), "deployment"@)), if_asked(contains_seq(lower, "analyz"@) || contains_seq(lower, "analys"@), "analysis"@), "web-search"@);
    let s11 = cap_step(s10, lower, "web"@, "web-search"@);
    assert(s11 == (((((((e + if_asked(contains_seq(lower, "research"@) || contains_seq(lower, "search"@), "research"@)) + if_asked(contains_seq(lower, "summar"@), "summarization"@)) + if_asked(contains_seq(lower, "code"@) || contains_seq(lower, "implement"@) || contains_seq(lower, "write"@), "coding"@)) + if_asked(contains_seq(lower, "review"@), "review"@)) + if_asked(contains_seq(lower, "test"@), "testing"@)) + if_asked(contains_seq(lower, "deploy"@), "deployment"@)) + if_asked(contains_seq(lower, "analyz"@) || contains_seq(lower, "analys"@), "analysis"@)) + if_asked(contains_seq(lower, "web"@), "web-search"@)) by {
        lemma_cap_step((((((((e + if_asked(contains_seq(lower, "research"@) || contains_seq(lower, "search"@), "research"@)) + if_asked(contains_seq(lower, "summar"@), "summarization"@)) + if_asked(contains_seq(lower, "code"@) || contains_seq(lower, "implement"@) || contains_seq(lower, "write"@), "coding"@)) + if_asked(contains_seq(lower, "review"@), "review"@)) + if_asked(contains_seq(lower, "test"@), "testing"@)) + if_asked(contains_seq(lower, "deploy"@), "deployment"@)) + if_asked(contains_seq(lower, "analyz"@) || contains_seq(lower, "analys"@), "analysis"@)), lower, "web"@, "web-search"@);
    }
    assert(caps_for_lowercase(lower) == s11);
    assert(e + if_asked(contains_seq(lower, "research"@) || contains_seq(lower, "search"@), "research"@) =~= if_asked(contains_seq(lower, "research"@) || contains_seq(lower, "search"@), "research"@));
}

/// What a sub-task description asks for, through its lower-cased text: for
/// example a description mentioning "analyze" or "analysis" asks for
/// "analysis", and one mentioning only those keywords asks for nothing else.
pub proof fn description_capabilities_follow_keywords(desc: Seq<char>)
    ensures
        ({
            let lower = unicode_lower(desc);
            caps_of(desc) == if_asked(contains_seq(lower, "research"@) || contains_seq(lower, "search"@), "research"@)
                + if_asked(contains_seq(lower, "summar"@), "summarization"@)
                + if_asked(contains_seq(lower, "code"@) || contains_seq(lower, "implement"@) || contains_seq(lower, "write"@), "coding"@)
                + if_asked(contains_seq(lower, "review"@), "review"@)
                + if_asked(contains_seq(lower, "test"@), "testing"@)
                + if_asked(contains_seq(lower, "deploy"@), "deployment"@)
                + if_asked(contains_seq(lower, "analyz"@) || contains_seq(lower, "analys"@), "analysis"@)
                + if_asked(contains_seq(lower, "web"@), "web-search"@)
        }),
{
    inferred_capabilities_follow_keywords(unicode_lower(desc));
}

/// Capabilities a sub-task description asks for.
pub open spec fn caps_of(desc: Seq<char>) -> Seq<Seq<char>> {
    caps_for_lowercase(unicode_lower(desc))
}

pub open spec fn then_sep() -> Seq<char> {
    seq![' ', 't', 'h', 'e', 'n', ' ']
}

pub open spec fn and_sep() -> Seq<char> {
    seq![' ', 'a', 'n', 'd', ' ']
}

/// The trimmed, non-empty pieces.
pub open spec fn kept_parts(ps: Seq<Seq<char>>) -> Seq<Seq<char>>
    decreases ps.len(),
{
    if ps.len() == 0 {
        Seq::empty()
    } else {
        let r = kept_parts(ps.drop_last());
        let t = trim(ps.last());
        if t.len() == 0 {
            r
        } else {
            r.push(t)
        }
    }
}

/// The sub-task descriptions of a task, grouped: groups are separated by
/// " then ", the parts of a group by " and ".
pub open spec fn task_groups(d: Seq<char>) -> Seq<Seq<Seq<char>>> {
    split_on(d, then_sep()).map_values(|g: Seq<char>| kept_parts(split_on(g, and_sep())))
}

pub open spec fn flatten(gs: Seq<Seq<Seq<char>>>) -> Seq<Seq<char>>
    decreases gs.len(),
{
    if gs.len() == 0 {
        Seq::empty()
    } else {
        flatten(gs.drop_last()) + gs.last()
    }
}

/// Index of the first sub-task of group `k`.
pub open spec fn group_start(gs: Seq<Seq<Seq<char>>>, k: int) -> int
    decreases k,
{
    if k <= 0 {
        0
    } else {
        group_start(gs, k - 1) + gs[k - 1].len()
    }
}

/// Edges `(d, c)` for `c` in `lo..hi`.
pub open spec fn row(d: int, lo: int, hi: int) -> Seq<(usize, usize)>
    decreases hi - lo,
{
    if hi <= lo {
        Seq::empty()
    } else {
        row(d, lo, hi - 1).push((d as usize, (hi - 1) as usize))
    }
}

/// Edges `(d, c)` for `d` in `a..b` (outer) and `c` in `lo..hi` (inner).
pub open spec fn pairs(a: int, b: int, lo: int, hi: int) -> Seq<(usize, usize)>
    decreases b - a,
{
    if b <= a {
        Seq::empty()
    } else {
        pairs(a, b - 1, lo, hi) + row(b - 1, lo, hi)
    }
}

/// The dependency edges after the first `k` groups: every sub-task of each
/// group after the first depends on every sub-task of the group before it.
pub open spec fn plan_deps(gs: Seq<Seq<Seq<char>>>, k: int) -> Seq<(usize, usize)>
    decreases k,
{
    if k <= 1 {
        Seq::empty()
    } else {
        let d = plan_deps(gs, k - 1);
        let s = group_start(gs, k - 1);
        let e = s + gs[k - 1].len();
        d + pairs(group_start(gs, k - 2), s, s, e)
    }
}

/// A freshly planned sub-task for `desc`.
pub open spec fn planned_subtask(agents: Seq<AgentCapabilityRecord>, st: SubTask, desc: Seq<char>) -> bool {
    &&& st.description@ == desc
    &&& strs(st.required_capabilities@) == caps_of(desc)
    &&& st.assigned_agent == best_pid(agents, caps_of(desc))
    &&& st.status is Pending
}

/// The plan that `orchestrate` makes of description `d` for `agents`.
pub open spec fn is_plan_for(agents: Seq<AgentCapabilityRecord>, d: Seq<char>, plan: OrchestrationPlan) -> bool {
    let gs = task_groups(d);
    &&& plan.task_description@ == d
    &&& plan.subtasks@.len() == flatten(gs).len()
    &&& forall|i: int|
        0 <= i < plan.subtasks@.len() ==> planned_subtask(
            agents,
            #[trigger] plan.subtasks@[i],
            flatten(gs)[i],
        )
    &&& plan.dependencies@ == plan_deps(gs, gs.len() as int)
}

pub open spec fn failed_msg() -> Seq<char> {
    "no agent could complete task"@
}

/// The outcome of executing one sub-task with the registered `agents`: kept
/// agent if one was assigned, else the best-matching agent, else failure.
pub open spec fn executed_subtask(agents: Seq<AgentCapabilityRecord>, before: SubTask, after: SubTask) -> bool {
    &&& after.description == before.description
    &&& after.required_capabilities == before.required_capabilities
    &&& match before.assigned_agent {
        Some(p) => after.assigned_agent == Some(p) && after.status is Completed,
        None => match best_pid(agents, strs(before.required_capabilities@)) {
            Some(q) => after.assigned_agent == Some(q) && after.status is Completed,
            None => after.assigned_agent is None && (after.status matches SubTaskStatus::Failed(m)
                && m@ == failed_msg()),
        },
    }
}

/// Whether executing `st` fails: nobody assigned and no agent to take it.
pub open spec fn fails(agents: Seq<AgentCapabilityRecord>, st: SubTask) -> bool {
    st.assigned_agent is None && agents.len() == 0
}

pub open spec fn failed_count(agents: Seq<AgentCapabilityRecord>, sts: Seq<SubTask>) -> nat
    decreases sts.len(),
{
    if sts.len() == 0 {
        0
    } else {
        failed_count(agents, sts.drop_last()) + if fails(agents, sts.last()) {
            1nat
        } else {
            0nat
        }
    }
}

/// The report summary for `total` sub-tasks of which `failed` failed.
pub open spec fn summary_text(total: nat, failed: nat) -> Seq<char> {
    if failed == 0 {
        "All "@ + dec(total) + " sub-tasks completed successfully."@
    } else {
        dec((total - failed) as nat) + "/"@ + dec(total) + " sub-tasks completed; "@ + dec(failed)
            + " failed."@
    }
}

// ── Laws ─────────────────────────────────────────────────────────────────────

proof fn lemma_row_bounds(d: int, lo: int, hi: int)
    ensures
        forall|i: int|
            0 <= i < row(d, lo, hi).len() ==> (#[trigger] row(d, lo, hi)[i]).0 == d as usize
                && row(d, lo, hi)[i].1 == (lo + i) as usize && lo + i < hi,
        row(d, lo, hi).len() == if hi <= lo { 0 } else { hi - lo },
    decreases hi - lo,
{
    if hi > lo {
        lemma_row_bounds(d, lo, hi - 1);
    }
}

proof fn lemma_pairs_bounds(a: int, b: int, lo: int, hi: int)
    requires
        0 <= a,
        0 <= lo,
        b <= usize::MAX,
        hi <= usize::MAX + 1,
    ensures
        forall|i: int|
            0 <= i < pairs(a, b, lo, hi).len() ==> a <= (#[trigger] pairs(a, b, lo, hi)[i]).0 < b
                && lo <= pairs(a, b, lo, hi)[i].1 < hi,
    decreases b - a,
{
    if b > a {
        lemma_pairs_bounds(a, b - 1, lo, hi);
        lemma_row_bounds(b - 1, lo, hi);
        let p = pairs(a, b - 1, lo, hi);
        let r = row(b - 1, lo, hi);
        assert forall|i: int| 0 <= i < (p + r).len() implies a <= (#[trigger] (p + r)[i]).0 < b
            && lo <= (p + r)[i].1 < hi by {
            if i >= p.len() {
                assert((p + r)[i] == r[i - p.len()]);
            }
        }
    }
}

proof fn lemma_group_start_mono(gs: Seq<Seq<Seq<char>>>, j: int, k: int)
    requires
        0 <= j <= k <= gs.len(),
    ensures
        group_start(gs, j) <= group_start(gs, k),
    decreases k - j,
{
    if j < k {
        lemma_group_start_mono(gs, j, k - 1);
    }
}

proof fn lemma_plan_deps_forward(gs: Seq<Seq<Seq<char>>>, k: int)
    requires
        0 <= k <= gs.len(),
        group_start(gs, gs.len() as int) <= usize::MAX,
    ensures
        forall|i: int|
            0 <= i < plan_deps(gs, k).len() ==> (#[trigger] plan_deps(gs, k)[i]).0 < plan_deps(
                gs,
                k,
            )[i].1 < group_start(gs, k),
    decreases k,
{
    if k > 1 {
        lemma_plan_deps_forward(gs, k - 1);
        lemma_group_start_mono(gs, k - 1, k);
        lemma_group_start_mono(gs, k, gs.len() as int);
        let d = plan_deps(gs, k - 1);
        let st = group_start(gs, k - 1);
        let e = st + gs[k - 1].len();
        let prev = group_start(gs, k - 2);
        lemma_group_start_mono(gs, 0, k - 2);
        lemma_group_start_mono(gs, k - 2, k - 1);
        lemma_group_start_mono(gs, 0, k - 1);
        lemma_group_start_mono(gs, k - 1, gs.len() as int);
        lemma_pairs_bounds(prev, st, st, e);
        let p = pairs(prev, st, st, e);
        assert forall|i: int| 0 <= i < (d + p).len() implies (#[trigger] (d + p)[i]).0 < (d
            + p)[i].1 < group_start(gs, k) by {
            if i >= d.len() {
                assert((d + p)[i] == p[i - d.len()]);
            } else {
                assert((d + p)[i] == d[i]);
            }
        }
    }
}

proof fn lemma_flatten_len(gs: Seq<Seq<Seq<char>>>)
    ensures
        flatten(gs).len() == group_start(gs, gs.len() as int),
    decreases gs.len(),
{
    if gs.len() > 0 {
        lemma_flatten_len(gs.drop_last());
        lemma_group_start_prefix(gs, gs.len() - 1);
        assert(flatten(gs).len() == flatten(gs.drop_last()).len() + gs.last().len());
    }
}

proof fn lemma_group_start_prefix(gs: Seq<Seq<Seq<char>>>, k: int)
    requires
        0 <= k < gs.len(),
    ensures
        group_start(gs.drop_last(), k) == group_start(gs, k),
    decreases k,
{
    if k > 0 {
        lemma_group_start_prefix(gs, k - 1);
    }
}

/// A plan made by `orchestrate` only ever makes a sub-task wait for an
/// earlier one, so its dependencies stay in range and admit an execution
/// order: executing it never reports a cyclic dependency.
pub proof fn orchestrated_plans_are_acyclic(
    agents: Seq<AgentCapabilityRecord>,
    d: Seq<char>,
    plan: OrchestrationPlan,
)
    requires
        is_plan_for(agents, d, plan),
        plan.subtasks@.len() <= usize::MAX,
    ensures
        edges_in_range(plan.subtasks@.len(), plan.dependencies@),
        has_topo_order(plan.subtasks@.len(), plan.dependencies@),
        forall|k: int|
            0 <= k < plan.dependencies@.len() ==> (#[trigger] plan.dependencies@[k]).0
                < plan.dependencies@[k].1,
{
    let gs = task_groups(d);
    let n = plan.subtasks@.len();
    lemma_flatten_len(gs);
    lemma_plan_deps_forward(gs, gs.len() as int);
    let deps = plan.dependencies@;
    let o = node_range(n);
    assert(o.no_duplicates());
    assert forall|k: int, i: int, j: int|
        #![trigger o[i], o[j], deps[k]]
        0 <= k < deps.len() && 0 <= i < o.len() && 0 <= j < o.len() && o[i] == deps[k].1 && o[j]
            == deps[k].0 implies j < i by {
        assert(deps[k].0 < deps[k].1);
    }
    assert(is_topo_order(n, deps, o));
}

/// With at least one agent registered, no sub-task of a plan fails: an
/// unassigned sub-task is handed to the best-matching agent.
pub proof fn execution_succeeds_with_agents(agents: Seq<AgentCapabilityRecord>, sts: Seq<SubTask>)
    requires
        agents.len() > 0,
    ensures
        failed_count(agents, sts) == 0,
    decreases sts.len(),
{
    if sts.len() > 0 {
        execution_succeeds_with_agents(agents, sts.drop_last());
    }
}

/// A best-matching agent exists exactly when some agent is registered.
pub proof fn best_agent_exists_iff_registered(agents: Seq<AgentCapabilityRecord>, required: Seq<Seq<char>>)
    ensures
        best_pid(agents, required) is Some <==> agents.len() > 0,
        agents.len() > 0 ==> 0 <= best_index(agents, required) < agents.len(),
    decreases agents.len(),
{
    if agents.len() > 0 {
        best_agent_exists_iff_registered(agents.drop_last(), required);
    }
}

/// An executed sub-task ends completed exactly when it had an agent assigned
/// or some agent is registered to take it, and failed otherwise; failing is
/// what `fails` counts.
pub proof fn executed_subtask_outcome(agents: Seq<AgentCapabilityRecord>, before: SubTask, after: SubTask)
    requires
        executed_subtask(agents, before, after),
    ensures
        after.status is Completed <==> (before.assigned_agent is Some || agents.len() > 0),
        after.status is Failed <==> fails(agents, before),
{
    best_agent_exists_iff_registered(agents, strs(before.required_capabilities@));
}

/// The best-matching agent has the greatest capability overlap of all
/// registered agents, and every agent after it has strictly less (the last
/// of equals wins).
pub proof fn best_agent_maximises_overlap(agents: Seq<AgentCapabilityRecord>, required: Seq<Seq<char>>)
    requires
        agents.len() > 0,
    ensures
        0 <= best_index(agents, required) < agents.len(),
        best_pid(agents, required) == Some(agents[best_index(agents, required)].pid),
        forall|i: int|
            0 <= i < agents.len() ==> #[trigger] agent_overlap(agents[i], required) <= agent_overlap(
                agents[best_index(agents, required)],
                required,
            ),
        forall|i: int|
            best_index(agents, required) < i < agents.len() ==> #[trigger] agent_overlap(agents[i], required)
                < agent_overlap(agents[best_index(agents, required)], required),
    decreases agents.len(),
{
    let l = agents.len() - 1;
    let u = agents.drop_last();
    if u.len() > 0 {
        best_agent_maximises_overlap(u, required);
        let j = best_index(u, required);
        assert forall|i: int| 0 <= i < u.len() implies #[trigger] agent_overlap(agents[i], required)
            <= agent_overlap(u[j], required) by {
            assert(agents[i] == u[i]);
            assert(agent_overlap(u[i], required) <= agent_overlap(u[j], required));
        }
        assert forall|i: int| j < i < u.len() implies #[trigger] agent_overlap(agents[i], required)
            < agent_overlap(u[j], required) by {
            assert(agents[i] == u[i]);
            assert(agent_overlap(u[i], required) < agent_overlap(u[j], required));
        }
        assert(u[j] == agents[j]);
    } else {
        assert(best_index(u, required) == -1);
    }
}

/// The overlap counts the required capabilities the agent has, and so is at
/// most the number required.
pub proof fn overlap_counts_held_capabilities(agent_caps: Seq<Seq<char>>, required: Seq<Seq<char>>)
    ensures
        overlap(agent_caps, required) == required.filter(|c: Seq<char>| agent_caps.contains(c)).len(),
        overlap(agent_caps, required) <= required.len(),
    decreases required.len(),
{
    let p = |c: Seq<char>| agent_caps.contains(c);
    if required.len() > 0 {
        overlap_counts_held_capabilities(agent_caps, required.drop_last());
        required.drop_last().lemma_filter_push(required.last(), p);
        assert(required.drop_last().push(required.last()) =~= required);
    } else {
        reveal(Seq::filter);
    }
}

/// The group (index into `gs`) that sub-task `i` belongs to.
pub open spec fn in_group(gs: Seq<Seq<Seq<char>>>, i: int, t: int) -> bool {
    0 <= t < gs.len() && group_start(gs, t) <= i < group_start(gs, t + 1)
}

proof fn lemma_row_has(d: int, lo: int, hi: int, e: (usize, usize))
    requires
        0 <= d <= usize::MAX,
        0 <= lo,
        hi <= usize::MAX + 1,
    ensures
        row(d, lo, hi).contains(e) <==> e.0 as int == d && lo <= e.1 < hi,
    decreases hi - lo,
{
    if hi > lo {
        lemma_row_has(d, lo, hi - 1, e);
        let r0 = row(d, lo, hi - 1);
        let x = (d as usize, (hi - 1) as usize);
        let r = r0.push(x);
        assert(row(d, lo, hi) == r);
        if r.contains(e) {
            let k = choose|k: int| 0 <= k < r.len() && r[k] == e;
            if k < r0.len() {
                assert(r0[k] == e);
            }
        }
        if r0.contains(e) {
            let k = choose|k: int| 0 <= k < r0.len() && r0[k] == e;
            assert(r[k] == e);
        }
        if e.0 as int == d && e.1 as int == hi - 1 {
            assert(r[r0.len() as int] == e);
        }
    } else {
        assert(row(d, lo, hi) =~= Seq::<(usize, usize)>::empty());
    }
}

proof fn lemma_pairs_has(a: int, b: int, lo: int, hi: int, e: (usize, usize))
    requires
        0 <= a,
        0 <= lo,
        b <= usize::MAX + 1,
        hi <= usize::MAX + 1,
    ensures
        pairs(a, b, lo, hi).contains(e) <==> a <= e.0 < b && lo <= e.1 < hi,
    decreases b - a,
{
    if b > a {
        lemma_pairs_has(a, b - 1, lo, hi, e);
        lemma_row_has(b - 1, lo, hi, e);
        let p = pairs(a, b - 1, lo, hi);
        let r = row(b - 1, lo, hi);
        if (p + r).contains(e) {
            let k = choose|k: int| 0 <= k < (p + r).len() && (p + r)[k] == e;
            if k < p.len() {
                assert(p[k] == e);
            } else {
                assert(r[k - p.len()] == e);
            }
        }
        if p.contains(e) {
            let k = choose|k: int| 0 <= k < p.len() && p[k] == e;
            assert((p + r)[k] == e);
        }
        if r.contains(e) {
            let k = choose|k: int| 0 <= k < r.len() && r[k] == e;
            assert((p + r)[p.len() + k] == e);
        }
    }
}

proof fn lemma_group_start_step(gs: Seq<Seq<Seq<char>>>, t: int)
    requires
        0 <= t < gs.len(),
    ensures
        group_start(gs, t + 1) == group_start(gs, t) + gs[t].len(),
{
}

proof fn lemma_plan_deps_has(gs: Seq<Seq<Seq<char>>>, k: int, e: (usize, usize))
    requires
        0 <= k <= gs.len(),
        group_start(gs, gs.len() as int) <= usize::MAX,
    ensures
        plan_deps(gs, k).contains(e) <==> exists|t: int|
            1 <= t < k && in_group(gs, e.0 as int, t - 1) && #[trigger] in_group(gs, e.1 as int, t),
    decreases k,
{
    if k > 1 {
        lemma_plan_deps_has(gs, k - 1, e);
        let d = plan_deps(gs, k - 1);
        let s0 = group_start(gs, k - 2);
        let s = group_start(gs, k - 1);
        let en = s + gs[k - 1].len();
        lemma_group_start_mono(gs, 0, k - 2);
        lemma_group_start_mono(gs, k - 2, k - 1);
        lemma_group_start_mono(gs, k, gs.len() as int);
        lemma_group_start_step(gs, k - 1);
        lemma_group_start_step(gs, k - 2);
        lemma_pairs_has(s0, s, s, en, e);
        let p = pairs(s0, s, s, en);
        if (d + p).contains(e) {
            let j = choose|j: int| 0 <= j < (d + p).len() && (d + p)[j] == e;
            if j < d.len() {
                assert(d[j] == e);
            } else {
                assert(p[j - d.len()] == e);
                assert(in_group(gs, e.1 as int, k - 1));
            }
        }
        if exists|t: int| 1 <= t < k && in_group(gs, e.0 as int, t - 1) && #[trigger] in_group(gs, e.1 as int, t) {
            let t = choose|t: int| 1 <= t < k && in_group(gs, e.0 as int, t - 1) && #[trigger] in_group(gs, e.1 as int, t);
            if t < k - 1 {
                assert(d.contains(e));
                let j = choose|j: int| 0 <= j < d.len() && d[j] == e;
                assert((d + p)[j] == e);
            } else {
                assert(p.contains(e));
                let j = choose|j: int| 0 <= j < p.len() && p[j] == e;
                assert((d + p)[d.len() + j] == e);
            }
        }
    }
}

/// A plan's dependencies link exactly the adjacent "then" groups: sub-task
/// `j` waits for sub-task `i` exactly when `i` is in the group just before
/// `j`'s group.
pub proof fn plan_links_each_group_to_the_previous(
    agents: Seq<AgentCapabilityRecord>,
    d: Seq<char>,
    plan: OrchestrationPlan,
    i: usize,
    j: usize,
)
    requires
        is_plan_for(agents, d, plan),
        plan.subtasks@.len() <= usize::MAX,
    ensures
        plan.dependencies@.contains((i, j)) <==> exists|t: int|
            1 <= t < task_groups(d).len() && in_group(task_groups(d), i as int, t - 1) && #[trigger] in_group(
                task_groups(d),
                j as int,
                t,
            ),
{
    let gs = task_groups(d);
    lemma_flatten_len(gs);
    let e = (i, j);
    lemma_plan_deps_has(gs, gs.len() as int, e);
    assert(plan.dependencies@ == plan_deps(gs, gs.len() as int));
    assert(e.0 as int == i as int && e.1 as int == j as int);
    if plan.dependencies@.contains((i, j)) {
        let t = choose|t: int| 1 <= t < gs.len() && in_group(gs, e.0 as int, t - 1) && #[trigger] in_group(gs, e.1 as int, t);
        assert(in_group(gs, j as int, t));
    }
    if exists|t: int| 1 <= t < gs.len() && in_group(gs, i as int, t - 1) && #[trigger] in_group(gs, j as int, t) {
        let t = choose|t: int| 1 <= t < gs.len() && in_group(gs, i as int, t - 1) && #[trigger] in_group(gs, j as int, t);
        assert(in_group(gs, e.1 as int, t));
    }
}

// ── Capability matching ──────────────────────────────────────────────────────

fn strings_contain(v: &[String], x: &String) -> (b: bool)
    ensures
        b == strs(v@).contains(x@),
{
    let mut i: usize = 0;
    while i < v.len()
        invariant
            i <= v.len(),
            forall|j: int| 0 <= j < i ==> v@[j]@ != x@,
        decreases v.len() - i,
    {
        if v[i] == *x {
            proof {
                assert(strs(v@)[i as int] == x@);
            }
            return true;
        }
        i = i + 1;
    }
    proof {
        if strs(v@).contains(x@) {
            let j = choose|j: int| 0 <= j < strs(v@).len() && strs(v@)[j] == x@;
            assert(v@[j]@ == x@);
        }
    }
    false
}

/// Number of `required` capabilities that `agent_caps` has.
pub fn capability_overlap(agent_caps: &[String], required: &[String]) -> (r: usize)
    ensures
        r == overlap(strs(agent_caps@), strs(required@)),
{
    let mut count: usize = 0;
    let mut i: usize = 0;
    while i < required.len()
        invariant
            i <= required.len(),
            count <= i,
            count == overlap(strs(agent_caps@), strs(required@.take(i as int))),
        decreases required.len() - i,
    {
        let has = strings_contain(agent_caps, &required[i]);
        proof {
            assert(strs(required@.take(i + 1)).drop_last() =~= strs(required@.take(i as int)));
            assert(strs(required@.take(i + 1)).last() == required@[i as int]@);
        }
        if has {
            count = count + 1;
        }
        i = i + 1;
    }
    assert(required@.take(required.len() as int) =~= required@);
    count
}

/// Index of the best-matching agent (the last among equals).
fn best_agent(agents: &Vec<AgentCapabilityRecord>, required: &Vec<String>) -> (r: Option<usize>)
    ensures
        match r {
            Some(j) => j as int == best_index(agents@, strs(required@)) && j < agents.len(),
            None => best_index(agents@, strs(required@)) == -1 && agents.len() == 0,
        },
{
    let ghost req = strs(required@);
    let mut best: Option<usize> = None;
    let mut best_score: usize = 0;
    let mut i: usize = 0;
    while i < agents.len()
        invariant
            req == strs(required@),
            i <= agents.len(),
            match best {
                Some(j) => j < i && j as int == best_index(agents@.take(i as int), req)
                    && best_score == agent_overlap(agents@[j as int], req),
                None => i == 0,
            },
        decreases agents.len() - i,
    {
        let score = capability_overlap(agents[i].capabilities.as_slice(), required.as_slice());
        proof {
            assert(score == agent_overlap(agents@[i as int], req));
            assert(agents@.take(i + 1).drop_last() =~= agents@.take(i as int));
            assert(agents@.take(i + 1)[i as int] == agents@[i as int]);
            match best {
                Some(j) => {
                    assert(agents@.take(i + 1)[j as int] == agents@[j as int]);
                },
                None => {},
            }
        }
        match best {
            None => {
                best = Some(i);
                best_score = score;
            },
            Some(_) => {
                if score >= best_score {
                    best = Some(i);
                    best_score = score;
                }
            },
        }
        proof {
            let t = agents@.take(i + 1);
            let jp = best_index(t.drop_last(), req);
            assert(best_index(t, req) == if jp < 0 || agent_overlap(t[i as int], req) >= agent_overlap(t[jp], req) {
                i as int
            } else {
                jp
            });
        }
        i = i + 1;
    }
    assert(agents@.take(agents.len() as int) =~= agents@);
    best
}

// ── Capability inference ─────────────────────────────────────────────────────

fn add_cap_if(lower: &Vec<char>, kw: &str, cap: &str, caps: &mut Vec<String>)
    ensures
        strs(final(caps)@) == cap_step(strs(old(caps)@), lower@, kw@, cap@),
{
    let kwv = chars_of(kw);
    if contains_exec(lower, &kwv) {
        let c = to_string(cap);
        if !strings_contain(caps.as_slice(), &c) {
            caps.push(c);
            assert(strs(caps@) =~= strs(old(caps)@).push(cap@));
        }
    }
}

/// Capabilities inferred from an already lower-cased description.
pub fn infer_capabilities_from_lowercase(lower: &str) -> (caps: Vec<String>)
    ensures
        strs(caps@) == caps_for_lowercase(lower@),
{
    let l = chars_of(lower);
    let mut caps: Vec<String> = Vec::new();
    assert(strs(caps@) =~= Seq::<Seq<char>>::empty());
    add_cap_if(&l, "research", "research", &mut caps);
    add_cap_if(&l, "search", "research", &mut caps);
    add_cap_if(&l, "summar", "summarization", &mut caps);
    add_cap_if(&l, "code", "coding", &mut caps);
    add_cap_if(&l, "implement", "coding", &mut caps);
    add_cap_if(&l, "write", "coding", &mut caps);
    add_cap_if(&l, "review", "review", &mut caps);
    add_cap_if(&l, "test", "testing", &mut caps);
    add_cap_if(&l, "deploy", "deployment", &mut caps);
    add_cap_if(&l, "analyz", "analysis", &mut caps);
    add_cap_if(&l, "analys", "analysis", &mut caps);
    add_cap_if(&l, "web", "web-search", &mut caps);
    caps
}

/// Capabilities a description asks for, by keyword.
pub fn infer_capabilities(desc: &str) -> (caps: Vec<String>)
    ensures
        strs(caps@) == caps_of(desc@),
{
    let lower = to_lowercase(desc);
    infer_capabilities_from_lowercase(lower.as_str())
}

// ── Planning ─────────────────────────────────────────────────────────────────

proof fn lemma_flatten_push(gs: Seq<Seq<Seq<char>>>, k: int)
    requires
        0 <= k < gs.len(),
    ensures
        flatten(gs.take(k + 1)) == flatten(gs.take(k)) + gs[k],
        flatten(gs.take(k + 1)).len() == group_start(gs, k + 1),
        flatten(gs.take(k)).len() == group_start(gs, k),
    decreases k,
{
    assert(gs.take(k + 1).drop_last() =~= gs.take(k));
    assert(gs.take(k + 1).last() == gs[k]);
    if k > 0 {
        lemma_flatten_push(gs, k - 1);
    } else {
        assert(gs.take(0) =~= Seq::<Seq<Seq<char>>>::empty());
        assert(flatten(gs.take(0)).len() == 0);
    }
    assert(flatten(gs.take(k + 1)).len() == flatten(gs.take(k)).len() + gs[k].len());
    assert(group_start(gs, k + 1) == group_start(gs, k) + gs[k].len());
}

impl Orchestrator {
    pub closed spec fn agents_view(&self) -> Seq<AgentCapabilityRecord> {
        self.agents@
    }

    pub fn new() -> (o: Self)
        ensures
            o.agents_view() == Seq::<AgentCapabilityRecord>::empty(),
    {
        Orchestrator { agents: Vec::new() }
    }

    /// Adds an agent with its capabilities.
    pub fn register_agent(&mut self, pid: u32, name: String, capabilities: Vec<String>)
        ensures
            final(self).agents_view() == old(self).agents_view().push(
                AgentCapabilityRecord { pid, name, capabilities },
            ),
    {
        self.agents.push(AgentCapabilityRecord { pid, name, capabilities });
    }

    /// One planned sub-task for `desc`.
    fn plan_subtask(&self, desc: String) -> (st: SubTask)
        ensures
            planned_subtask(self.agents_view(), st, desc@),
    {
        let caps = infer_capabilities(desc.as_str());
        let best = best_agent(&self.agents, &caps);
        let assigned = match best {
            Some(j) => Some(self.agents[j].pid),
            None => None,
        };
        SubTask {
            description: desc,
            assigned_agent: assigned,
            status: SubTaskStatus::Pending,
            required_capabilities: caps,
        }
    }

    /// Splits `task_description` into sub-tasks (groups separated by
    /// " then ", the parts of a group by " and "), assigns each to the
    /// best-matching agent, and links each group after the first to the
    /// sub-tasks it waits for.
    pub fn orchestrate(&self, task_description: &str) -> (r: Result<OrchestrationPlan, OrchestratorError>)
        ensures
            r matches Ok(plan) && is_plan_for(self.agents_view(), task_description@, plan),
    {
        let d = chars_of(task_description);
        let then_v: Vec<char> = vec![' ', 't', 'h', 'e', 'n', ' '];
        let and_v: Vec<char> = vec![' ', 'a', 'n', 'd', ' '];
        assert(then_v@ =~= then_sep());
        assert(and_v@ =~= and_sep());
        let ghost gs = task_groups(d@);
        let groups = split_exec(&d, &then_v);
        let mut subtasks: Vec<SubTask> = Vec::new();
        let mut deps: Vec<(usize, usize)> = Vec::new();
        let mut ti: usize = 0;
        let mut prev_group_start: usize = 0;
        assert(gs.take(0) =~= Seq::<Seq<Seq<char>>>::empty());
        while ti < groups.len()
            invariant
                gs == task_groups(d@),
                then_v@ == then_sep(),
                and_v@ == and_sep(),
                groups@.len() == gs.len(),
                forall|k: int| 0 <= k < groups@.len() ==> piece_at(d@, then_sep(), #[trigger] groups@[k], k),
                ti <= groups.len(),
                subtasks@.len() == flatten(gs.take(ti as int)).len(),
                subtasks@.len() == group_start(gs, ti as int),
                forall|i: int|
                    0 <= i < subtasks@.len() ==> planned_subtask(
                        self.agents@,
                        #[trigger] subtasks@[i],
                        flatten(gs.take(ti as int))[i],
                    ),
                deps@ == plan_deps(gs, ti as int),
                ti > 0 ==> prev_group_start as int == group_start(gs, ti - 1),
            decreases groups.len() - ti,
        {
            let (gs0, ge0) = groups[ti];
            let g = sub_vec(&d, gs0, ge0);
            proof {
                assert(piece_at(d@, then_sep(), groups@[ti as int], ti as int));
                assert(g@ == split_on(d@, then_sep())[ti as int]);
                assert(gs[ti as int] == kept_parts(split_on(g@, and_sep())));
                lemma_flatten_push(gs, ti as int);
            }
            let ands = split_exec(&g, &and_v);
            let group_start_idx = subtasks.len();
            let ghost base = flatten(gs.take(ti as int));
            let ghost ands_s = split_on(g@, and_sep());
            let mut j: usize = 0;
            assert(ands_s.take(0) =~= Seq::<Seq<char>>::empty());
            assert(base + kept_parts(ands_s.take(0)) =~= base);
            while j < ands.len()
                invariant
                    ands@.len() == ands_s.len(),
                    ands_s == split_on(g@, and_sep()),
                    forall|k: int| 0 <= k < ands@.len() ==> piece_at(g@, and_sep(), #[trigger] ands@[k], k),
                    j <= ands.len(),
                    group_start_idx == base.len(),
                    subtasks@.len() == base.len() + kept_parts(ands_s.take(j as int)).len(),
                    forall|i: int|
                        0 <= i < subtasks@.len() ==> planned_subtask(
                            self.agents@,
                            #[trigger] subtasks@[i],
                            (base + kept_parts(ands_s.take(j as int)))[i],
                        ),
                decreases ands.len() - j,
            {
                let (a0, b0) = ands[j];
                proof {
                    assert(piece_at(g@, and_sep(), ands@[j as int], j as int));
                    assert(ands_s.take(j + 1).drop_last() =~= ands_s.take(j as int));
                    assert(ands_s.take(j + 1).last() == ands_s[j as int]);
                }
                let (a, b) = trim_bounds(&g, a0, b0);
                if a < b {
                    let desc = string_of_range(&g, a, b);
                    let st = self.plan_subtask(desc);
                    let ghost old_sub = subtasks@;
                    subtasks.push(st);
                    proof {
                        let kp = kept_parts(ands_s.take(j + 1));
                        assert(kp == kept_parts(ands_s.take(j as int)).push(trim(ands_s[j as int])));
                        assert(base + kp =~= (base + kept_parts(ands_s.take(j as int))).push(
                            trim(ands_s[j as int]),
                        ));
                        assert forall|i: int|
                            0 <= i < subtasks@.len() implies planned_subtask(
                                self.agents@,
                                #[trigger] subtasks@[i],
                                (base + kp)[i],
                            ) by {
                            if i < old_sub.len() {
                                assert(subtasks@[i] == old_sub[i]);
                            }
                        }
                    }
                } else {
                    proof {
                        assert(kept_parts(ands_s.take(j + 1)) == kept_parts(ands_s.take(j as int)));
                    }
                }
                j = j + 1;
            }
            proof {
                assert(ands_s.take(ands_s.len() as int) =~= ands_s);
                assert(base + gs[ti as int] == flatten(gs.take(ti + 1)));
            }
            if ti > 0 {
                let prev_start: usize = prev_group_start;
                let ghost base_deps = deps@;
                let end = subtasks.len();
                let mut dep = prev_start;
                assert(base_deps + pairs(prev_start as int, prev_start as int, group_start_idx as int, end as int) =~= base_deps);
                while dep < group_start_idx
                    invariant
                        prev_start <= dep,
                        dep <= group_start_idx || dep == prev_start,
                        group_start_idx <= end,
                        deps@ == base_deps + pairs(
                            prev_start as int,
                            dep as int,
                            group_start_idx as int,
                            end as int,
                        ),
                    decreases group_start_idx - dep,
                {
                    let mut cur = group_start_idx;
                    let ghost before_row = deps@;
                    assert(before_row + row(dep as int, group_start_idx as int, group_start_idx as int) =~= before_row);
                    while cur < end
                        invariant
                            group_start_idx <= cur <= end,
                            deps@ == before_row + row(dep as int, group_start_idx as int, cur as int),
                        decreases end - cur,
                    {
                        deps.push((dep, cur));
                        proof {
                            assert(row(dep as int, group_start_idx as int, cur + 1) == row(
                                dep as int,
                                group_start_idx as int,
                                cur as int,
                            ).push((dep, cur)));
                            assert(deps@ =~= before_row + row(dep as int, group_start_idx as int, cur + 1));
                        }
                        cur = cur + 1;
                    }
                    proof {
                        assert(pairs(prev_start as int, dep + 1, group_start_idx as int, end as int)
                            == pairs(prev_start as int, dep as int, group_start_idx as int, end as int)
                            + row(dep as int, group_start_idx as int, end as int));
                        assert(deps@ =~= base_deps + pairs(
                            prev_start as int,
                            dep + 1,
                            group_start_idx as int,
                            end as int,
                        ));
                    }
                    dep = dep + 1;
                }
                proof {
                    if group_start_idx < prev_start {
                        assert(pairs(prev_start as int, prev_start as int, group_start_idx as int, end as int)
                            =~= Seq::<(usize, usize)>::empty());
                        assert(pairs(prev_start as int, group_start_idx as int, group_start_idx as int, end as int)
                            =~= Seq::<(usize, usize)>::empty());
                    }
                    assert(deps@ == base_deps + pairs(prev_start as int, group_start_idx as int, group_start_idx as int, end as int));
                    assert(group_start_idx as int == group_start(gs, ti as int));
                    assert(end as int == group_start(gs, ti as int) + gs[ti as int].len());
                    assert(base_deps == plan_deps(gs, ti as int));
                    lemma_group_start_mono(gs, ti - 1, ti as int);
                    assert(deps@ == plan_deps(gs, ti + 1));
                }
            } else {
                proof {
                    assert(plan_deps(gs, 1) == plan_deps(gs, 0));
                }
            }
            prev_group_start = group_start_idx;
            ti = ti + 1;
        }
        proof {
            assert(gs.take(gs.len() as int) =~= gs);
        }
        let plan = OrchestrationPlan {
            task_description: to_string(task_description),
            subtasks,
            dependencies: deps,
        };
        Ok(plan)
    }

    /// Runs one sub-task: an assigned agent completes it; an unassigned one
    /// goes to the best-matching registered agent, or fails when there is none.
    fn execute_subtask(&self, st: SubTask) -> (r: (SubTask, bool))
        ensures
            executed_subtask(self.agents_view(), st, r.0),
            r.1 == fails(self.agents_view(), st),
    {
        let SubTask { description, assigned_agent, status, required_capabilities } = st;
        match assigned_agent {
            Some(p) => (
                SubTask {
                    description,
                    assigned_agent: Some(p),
                    status: SubTaskStatus::Completed,
                    required_capabilities,
                },
                false,
            ),
            None => {
                let best = best_agent(&self.agents, &required_capabilities);
                match best {
                    Some(j) => {
                        let pid = self.agents[j].pid;
                        (
                            SubTask {
                                description,
                                assigned_agent: Some(pid),
                                status: SubTaskStatus::Completed,
                                required_capabilities,
                            },
                            false,
                        )
                    },
                    None => (
                        SubTask {
                            description,
                            assigned_agent: None,
                            status: SubTaskStatus::Failed(to_string("no agent could complete task")),
                            required_capabilities,
                        },
                        true,
                    ),
                }
            },
        }
    }

    /// Executes a plan: refuses it when its dependencies leave the sub-task
    /// range or form a cycle; otherwise runs every sub-task (see
    /// `executed_subtask`) and reports success when none failed.
    pub fn execute_plan(&self, plan: OrchestrationPlan) -> (r: Result<OrchestrationReport, OrchestratorError>)
        ensures
            match r {
                Ok(rep) => {
                    let n = plan.subtasks@.len();
                    &&& edges_in_range(n, plan.dependencies@)
                    &&& has_topo_order(n, plan.dependencies@)
                    &&& rep.plan.task_description == plan.task_description
                    &&& rep.plan.dependencies == plan.dependencies
                    &&& rep.plan.subtasks@.len() == n
                    &&& forall|i: int|
                        0 <= i < n ==> executed_subtask(
                            self.agents_view(),
                            plan.subtasks@[i],
                            #[trigger] rep.plan.subtasks@[i],
                        )
                    &&& rep.success == (failed_count(self.agents_view(), plan.subtasks@) == 0)
                    &&& rep.summary@ == summary_text(n, failed_count(self.agents_view(), plan.subtasks@))
                },
                Err(e) => e is CyclicDependency && (!edges_in_range(
                    plan.subtasks@.len(),
                    plan.dependencies@,
                ) || !has_topo_order(plan.subtasks@.len(), plan.dependencies@)),
            },
    {
        let ghost orig = plan.subtasks@;
        let OrchestrationPlan { task_description, subtasks, dependencies } = plan;
        let n = subtasks.len();
        let order = topological_sort(n, dependencies.as_slice());
        match order {
            None => {
                return Err(OrchestratorError::CyclicDependency);
            },
            Some(o) => {
                proof {
                    assert(has_topo_order(n as nat, dependencies@));
                }
            },
        }
        let mut olds = subtasks;
        let mut news: Vec<SubTask> = Vec::new();
        let mut failed: usize = 0;
        while olds.len() > 0
            invariant
                orig.len() == n,
                news@.len() + olds@.len() == n,
                olds@ == orig.subrange(news@.len() as int, n as int),
                forall|i: int|
                    0 <= i < news@.len() ==> executed_subtask(
                        self.agents_view(),
                        orig[i],
                        #[trigger] news@[i],
                    ),
                failed == failed_count(self.agents_view(), orig.take(news@.len() as int)),
                failed <= news@.len(),
            decreases olds@.len(),
        {
            let ghost k = news@.len();
            let st = olds.remove(0);
            let (done, f) = self.execute_subtask(st);
            proof {
                assert(st == orig[k as int]);
                assert(orig.take(k as int + 1).drop_last() =~= orig.take(k as int));
                assert(orig.take(k as int + 1).last() == orig[k as int]);
            }
            let ghost old_news = news@;
            news.push(done);
            if f {
                failed = failed + 1;
            }
            proof {
                assert(olds@ =~= orig.subrange(news@.len() as int, n as int));
                assert forall|i: int|
                    0 <= i < news@.len() implies executed_subtask(
                        self.agents_view(),
                        orig[i],
                        #[trigger] news@[i],
                    ) by {
                    if i < old_news.len() {
                        assert(news@[i] == old_news[i]);
                    }
                }
            }
        }
        proof {
            assert(orig.take(n as int) =~= orig);
        }
        let success = failed == 0;
        let mut summary = String::new();
        if success {
            push_str(&mut summary, "All ");
            push_decimal(&mut summary, n as u64);
            push_str(&mut summary, " sub-tasks completed successfully.");
        } else {
            push_decimal(&mut summary, (n - failed) as u64);
            push_str(&mut summary, "/");
            push_decimal(&mut summary, n as u64);
            push_str(&mut summary, " sub-tasks completed; ");
            push_decimal(&mut summary, failed as u64);
            push_str(&mut summary, " failed.");
        }
        proof {
            assert(summary@ =~= summary_text(n as nat, failed as nat));
        }
        Ok(OrchestrationReport {
            plan: OrchestrationPlan { task_description, subtasks: news, dependencies },
            success,
            summary,
        })
    }
}


impl OrchestratorError {
    /// The error's message, as the program prints it.
    pub fn message(&self) -> (s: String)
        ensures
            match *self {
                OrchestratorError::NoAgentsRegistered => s@ == "no agents registered"@,
                OrchestratorError::CyclicDependency => s@ == "cyclic dependency in plan"@,
                OrchestratorError::Hawk(e) => crate::error::hawk_error_shown(e, s@),
            },
    {
        match self {
            OrchestratorError::NoAgentsRegistered => crate::text::to_string("no agents registered"),
            OrchestratorError::CyclicDependency => crate::text::to_string("cyclic dependency in plan"),
            OrchestratorError::Hawk(e) => e.message(),
        }
    }
}

} // verus!
