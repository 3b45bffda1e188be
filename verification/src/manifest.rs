//! Agent manifests: what an agent is, what it may touch, the resources it
//! gets, and the rules a manifest must satisfy before an agent is started.
use vstd::prelude::*;

use crate::error::HawkError;
use crate::text::{
    chars_of, dec, push_decimal, push_str, push_string, starts_with, starts_with_exec, str_eq, texts,
    to_string, trim, trim_bounds,
};

verus! {

#[derive(Debug, Clone)]
pub struct AgentManifest {
    pub info: AgentInfo,
    pub permissions: Permissions,
    pub resources: Resources,
    pub llm: LlmConfig,
    pub talon_requirements: TalonRequirements,
    pub capabilities: Capabilities,
}

#[derive(Debug, Clone)]
pub struct AgentInfo {
    pub name: String,
    pub version: String,
    pub description: String,
    pub framework: String,
    pub entry_command: String,
}

#[derive(Debug, Clone, Default)]
pub struct Permissions {
    pub filesystem: Vec<String>,
    pub network: Vec<String>,
    pub commands: Vec<String>,
    pub secrets: Vec<String>,
}

#[derive(Debug, Clone)]
pub struct Resources {
    pub cpu_percent: u8,
    pub memory_mb: u64,
    pub max_open_fds: u64,
}

impl Default for Resources {
    fn default() -> (r: Self)
        ensures
            r.cpu_percent == 25,
            r.memory_mb == 512,
            r.max_open_fds == 64,
    {
        Resources { cpu_percent: 25, memory_mb: 512, max_open_fds: 64 }
    }
}

#[derive(Debug, Clone, Default)]
pub struct LlmConfig {
    pub provider: String,
    pub privacy: String,
    pub budget_tokens: u64,
}

#[derive(Debug, Clone, Default)]
pub struct TalonRequirements {
    pub required: Vec<String>,
}

#[derive(Debug, Clone, Default)]
pub struct Capabilities {
    pub tags: Vec<String>,
}

// ── Rules ────────────────────────────────────────────────────────────────────

/// `s` with every trailing `c` removed.
pub open spec fn strip_end(s: Seq<char>, c: char) -> Seq<char>
    decreases s.len(),
{
    if s.len() > 0 && s.last() == c {
        strip_end(s.drop_last(), c)
    } else {
        s
    }
}

/// An endpoint pattern is allowed when, without its trailing `*`s and then
/// `/`s, it starts with `http://` or `https://`.
pub open spec fn endpoint_ok(endpoint: Seq<char>) -> bool {
    let base = strip_end(strip_end(endpoint, '*'), '/');
    starts_with(base, "http://"@) || starts_with(base, "https://"@)
}

pub open spec fn endpoint_msg(endpoint: Seq<char>) -> Seq<char> {
    "[permissions.network] endpoint \""@ + endpoint + "\" must start with http:// or https://"@
}

/// The first endpoint of `eps` that is not allowed.
pub open spec fn first_bad_endpoint(eps: Seq<Seq<char>>) -> Option<Seq<char>>
    decreases eps.len(),
{
    if eps.len() == 0 {
        None
    } else if !endpoint_ok(eps[0]) {
        Some(eps[0])
    } else {
        first_bad_endpoint(eps.drop_first())
    }
}

pub open spec fn privacy_ok(p: Seq<char>) -> bool {
    p.len() == 0 || p == "cloud"@ || p == "local-only"@
}

/// Why a manifest is refused (the first rule it breaks), if it is.
pub open spec fn manifest_problem(m: AgentManifest) -> Option<Seq<char>> {
    let cpu = m.resources.cpu_percent;
    if trim(m.info.name@).len() == 0 {
        Some("[agent] name must not be empty"@)
    } else if trim(m.info.version@).len() == 0 {
        Some("[agent] version must not be empty"@)
    } else if !(1 <= cpu <= 100) {
        Some("[resources] cpu_percent "@ + dec(cpu as nat) + " is out of range; must be 1..=100"@)
    } else if m.resources.memory_mb < 1 {
        Some("[resources] memory_mb must be >= 1"@)
    } else if m.resources.max_open_fds < 1 {
        Some("[resources] max_open_fds must be >= 1"@)
    } else if first_bad_endpoint(texts(m.permissions.network@)) is Some {
        Some(endpoint_msg(first_bad_endpoint(texts(m.permissions.network@))->0))
    } else if !privacy_ok(m.llm.privacy@) {
        Some("[llm] privacy \""@ + m.llm.privacy@ + "\" is invalid; expected one of: cloud, local-only"@)
    } else {
        None
    }
}

proof fn lemma_no_bad_endpoint(eps: Seq<Seq<char>>)
    ensures
        first_bad_endpoint(eps) is None <==> forall|i: int| 0 <= i < eps.len() ==> endpoint_ok(#[trigger] eps[i]),
    decreases eps.len(),
{
    if eps.len() > 0 {
        lemma_no_bad_endpoint(eps.drop_first());
        assert forall|i: int| 0 < i < eps.len() implies #[trigger] eps[i] == eps.drop_first()[i - 1] by {}
        if forall|i: int| 0 <= i < eps.drop_first().len() ==> endpoint_ok(#[trigger] eps.drop_first()[i]) {
            assert forall|i: int| 0 < i < eps.len() implies endpoint_ok(#[trigger] eps[i]) by {
                assert(eps[i] == eps.drop_first()[i - 1]);
            }
        }
    }
}

/// A manifest is accepted exactly when its name and version are not blank,
/// its CPU share is 1 to 100 percent, it gets at least 1 MB and 1 file
/// descriptor, every network endpoint (without trailing `*`s and `/`s)
/// starts with `http://` or `https://`, and its LLM privacy is unset,
/// "cloud" or "local-only".
pub proof fn manifest_accepted_iff_within_rules(m: AgentManifest)
    ensures
        manifest_problem(m) is None <==> {
            &&& trim(m.info.name@).len() > 0
            &&& trim(m.info.version@).len() > 0
            &&& 1 <= m.resources.cpu_percent <= 100
            &&& m.resources.memory_mb >= 1
            &&& m.resources.max_open_fds >= 1
            &&& forall|i: int|
                0 <= i < m.permissions.network@.len() ==> {
                    let base = strip_end(strip_end(#[trigger] m.permissions.network@[i]@, '*'), '/');
                    starts_with(base, "http://"@) || starts_with(base, "https://"@)
                }
            &&& (m.llm.privacy@.len() == 0 || m.llm.privacy@ == "cloud"@ || m.llm.privacy@ == "local-only"@)
        },
{
    let eps = texts(m.permissions.network@);
    lemma_no_bad_endpoint(eps);
    let all_ok = forall|i: int|
        0 <= i < m.permissions.network@.len() ==> {
            let base = strip_end(strip_end(#[trigger] m.permissions.network@[i]@, '*'), '/');
            starts_with(base, "http://"@) || starts_with(base, "https://"@)
        };
    if first_bad_endpoint(eps) is None {
        assert forall|i: int| 0 <= i < m.permissions.network@.len() implies {
            let base = strip_end(strip_end(#[trigger] m.permissions.network@[i]@, '*'), '/');
            starts_with(base, "http://"@) || starts_with(base, "https://"@)
        } by {
            assert(eps[i] == m.permissions.network@[i]@);
            assert(endpoint_ok(eps[i]));
        }
    }
    if all_ok {
        assert forall|i: int| 0 <= i < eps.len() implies endpoint_ok(#[trigger] eps[i]) by {
            assert(eps[i] == m.permissions.network@[i]@);
        }
    }
}

fn trim_is_empty(s: &str) -> (b: bool)
    ensures
        b == (trim(s@).len() == 0),
{
    let v = chars_of(s);
    let (a, b) = trim_bounds(&v, 0, v.len());
    assert(v@.subrange(0, v@.len() as int) =~= v@);
    a == b
}

fn strip_end_exec(v: &Vec<char>, c: char, to: usize) -> (r: usize)
    requires
        to <= v.len(),
    ensures
        r <= to,
        v@.subrange(0, r as int) == strip_end(v@.subrange(0, to as int), c),
    decreases to,
{
    if to > 0 && v[to - 1] == c {
        proof {
            assert(v@.subrange(0, to as int).drop_last() =~= v@.subrange(0, to - 1));
        }
        strip_end_exec(v, c, to - 1)
    } else {
        to
    }
}

fn validate_network_endpoint(endpoint: &str) -> (r: Result<(), HawkError>)
    ensures
        endpoint_ok(endpoint@) ==> r is Ok,
        !endpoint_ok(endpoint@) ==> (r matches Err(HawkError::InvalidManifest(m)) && m@ == endpoint_msg(endpoint@)),
{
    let v = chars_of(endpoint);
    let a = strip_end_exec(&v, '*', v.len());
    let b = strip_end_exec(&v, '/', a);
    let base = crate::text::sub_vec(&v, 0, b);
    proof {
        assert(v@.subrange(0, v@.len() as int) =~= v@);
        assert(v@.subrange(0, a as int).subrange(0, b as int) =~= v@.subrange(0, b as int));
    }
    let http = chars_of("http://");
    let https = chars_of("https://");
    if !starts_with_exec(&base, &http) && !starts_with_exec(&base, &https) {
        let mut m = to_string("[permissions.network] endpoint \"");
        push_str(&mut m, endpoint);
        push_str(&mut m, "\" must start with http:// or https://");
        return Err(HawkError::InvalidManifest(m));
    }
    Ok(())
}

fn invalid(msg: &str) -> (e: HawkError)
    ensures
        e matches HawkError::InvalidManifest(m) && m@ == msg@,
{
    HawkError::InvalidManifest(to_string(msg))
}

/// Checks a manifest against the rules; the error names the first rule
/// broken.
pub fn validate(m: &AgentManifest) -> (r: Result<(), HawkError>)
    ensures
        match manifest_problem(*m) {
            None => r is Ok,
            Some(msg) => r matches Err(HawkError::InvalidManifest(e)) && e@ == msg,
        },
{
    if trim_is_empty(m.info.name.as_str()) {
        return Err(invalid("[agent] name must not be empty"));
    }
    if trim_is_empty(m.info.version.as_str()) {
        return Err(invalid("[agent] version must not be empty"));
    }
    let cpu = m.resources.cpu_percent;
    if !(1 <= cpu && cpu <= 100) {
        let mut msg = to_string("[resources] cpu_percent ");
        push_decimal(&mut msg, cpu as u64);
        push_str(&mut msg, " is out of range; must be 1..=100");
        return Err(HawkError::InvalidManifest(msg));
    }
    if m.resources.memory_mb < 1 {
        return Err(invalid("[resources] memory_mb must be >= 1"));
    }
    if m.resources.max_open_fds < 1 {
        return Err(invalid("[resources] max_open_fds must be >= 1"));
    }
    let ghost eps = texts(m.permissions.network@);
    let mut i: usize = 0;
    assert(eps.skip(0) =~= eps);
    while i < m.permissions.network.len()
        invariant
            i <= m.permissions.network@.len(),
            eps == texts(m.permissions.network@),
            trim(m.info.name@).len() != 0,
            trim(m.info.version@).len() != 0,
            1 <= m.resources.cpu_percent <= 100,
            m.resources.memory_mb >= 1,
            m.resources.max_open_fds >= 1,
            first_bad_endpoint(eps) == first_bad_endpoint(eps.skip(i as int)),
        decreases m.permissions.network.len() - i,
    {
        proof {
            assert(eps.skip(i as int).drop_first() =~= eps.skip(i + 1));
            assert(eps.skip(i as int)[0] == m.permissions.network@[i as int]@);
        }
        match validate_network_endpoint(m.permissions.network[i].as_str()) {
            Ok(()) => {},
            Err(e) => return Err(e),
        }
        i = i + 1;
    }
    proof {
        assert(eps.skip(i as int).len() == 0);
    }
    let p = m.llm.privacy.as_str();
    if !(p.unicode_len() == 0 || str_eq(p, "cloud") || str_eq(p, "local-only")) {
        let mut msg = to_string("[llm] privacy \"");
        push_string(&mut msg, &m.llm.privacy);
        push_str(&mut msg, "\" is invalid; expected one of: cloud, local-only");
        return Err(HawkError::InvalidManifest(msg));
    }
    Ok(())
}

} // verus!
