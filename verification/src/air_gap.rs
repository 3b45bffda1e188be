//! Air-gap mode: when enabled, nothing leaves the machine. Remote network
//! requests, cloud LLM providers and the networked package operations are
//! refused; local endpoints and local providers stay allowed.
use vstd::prelude::*;

use crate::llm_router::{local_providers, providers_for_air_gap, LlmProvider};
use crate::text::{
    chars_eq, chars_of, find_from, first_match, lemma_first_match_bounds, match_at, push_decimal, push_str, push_string, str_eq, sub_vec,
    to_string,
};

verus! {

#[derive(Debug, Clone, PartialEq)]
pub enum AirGapError {
    Blocked { agent_pid: u32, endpoint: String },
    CloudProviderBlocked { provider_name: String },
    NetworkOperationBlocked { operation: String },
}

impl AirGapError {
    /// The message this error displays.
    pub fn message(&self) -> (m: String)
        ensures
            m@ == match self {
                AirGapError::Blocked { agent_pid, endpoint } => "air-gap: agent "@ + crate::text::dec(
                    *agent_pid as nat,
                ) + " blocked from "@ + endpoint@,
                AirGapError::CloudProviderBlocked { provider_name } => "air-gap: cloud provider '"@
                    + provider_name@ + "' blocked"@,
                AirGapError::NetworkOperationBlocked { operation } => "air-gap: network operation '"@
                    + operation@ + "' blocked"@,
            },
    {
        match self {
            AirGapError::Blocked { agent_pid, endpoint } => {
                let mut m = to_string("air-gap: agent ");
                push_decimal(&mut m, *agent_pid as u64);
                push_str(&mut m, " blocked from ");
                push_string(&mut m, endpoint);
                m
            },
            AirGapError::CloudProviderBlocked { provider_name } => {
                let mut m = to_string("air-gap: cloud provider '");
                push_string(&mut m, provider_name);
                push_str(&mut m, "' blocked");
                m
            },
            AirGapError::NetworkOperationBlocked { operation } => {
                let mut m = to_string("air-gap: network operation '");
                push_string(&mut m, operation);
                push_str(&mut m, "' blocked");
                m
            },
        }
    }
}

/// What follows the first `://` of a URL, or the whole text if it has none.
pub open spec fn after_scheme(e: Seq<char>) -> Seq<char> {
    let i = first_match(e, "://"@, 0);
    if i < 0 {
        e
    } else {
        e.subrange(i + 3, e.len() as int)
    }
}

/// The longest prefix of `s` holding none of the characters of `stops`.
pub open spec fn prefix_until(s: Seq<char>, stops: Seq<char>) -> Seq<char>
    decreases s.len(),
{
    if s.len() == 0 || stops.contains(s[0]) {
        Seq::empty()
    } else {
        seq![s[0]] + prefix_until(s.drop_first(), stops)
    }
}

/// What follows the last `c` in `s`, or `s` itself if it holds no `c`.
pub open spec fn after_last(s: Seq<char>, c: char) -> Seq<char>
    decreases s.len(),
{
    if s.len() == 0 {
        s
    } else if s.last() == c {
        Seq::empty()
    } else {
        after_last(s.drop_last(), c).push(s.last())
    }
}

/// The host an endpoint URL names: its authority (up to the first `/`, `?`
/// or `#` after the scheme), without user information before an `@` and
/// without a `:port`.
pub open spec fn endpoint_host(e: Seq<char>) -> Seq<char> {
    let authority = prefix_until(after_scheme(e), seq!['/', '?', '#']);
    prefix_until(after_last(authority, '@'), seq![':'])
}

/// An endpoint on this machine: one whose host is `localhost` or
/// `127.0.0.1`.
pub open spec fn is_local_endpoint(endpoint: Seq<char>) -> bool {
    endpoint_host(endpoint) == "localhost"@ || endpoint_host(endpoint) == "127.0.0.1"@
}

proof fn lemma_prefix_until(s: Seq<char>, stops: Seq<char>, b: int)
    requires
        0 <= b <= s.len(),
        forall|k: int| 0 <= k < b ==> !stops.contains(#[trigger] s[k]),
        b == s.len() || stops.contains(s[b]),
    ensures
        prefix_until(s, stops) == s.subrange(0, b),
    decreases s.len(),
{
    if s.len() == 0 || b == 0 {
        assert(s.subrange(0, b) =~= Seq::<char>::empty());
    } else {
        let t = s.drop_first();
        assert forall|k: int| 0 <= k < b - 1 implies !stops.contains(#[trigger] t[k]) by {
            assert(t[k] == s[k + 1]);
        }
        if b - 1 < t.len() {
            assert(t[b - 1] == s[b]);
        }
        assert(!stops.contains(s[0]));
        lemma_prefix_until(t, stops, b - 1);
        assert(seq![s[0]] + t.subrange(0, b - 1) =~= s.subrange(0, b));
    }
}

proof fn lemma_after_last(s: Seq<char>, c: char, p: int)
    requires
        0 <= p <= s.len(),
        forall|k: int| p <= k < s.len() ==> #[trigger] s[k] != c,
        p == 0 || s[p - 1] == c,
    ensures
        after_last(s, c) == s.subrange(p, s.len() as int),
    decreases s.len(),
{
    if s.len() == 0 {
        assert(s.subrange(p, 0) =~= s);
    } else if s.last() == c {
        assert(p == s.len());
        assert(s.subrange(p, s.len() as int) =~= Seq::<char>::empty());
    } else {
        let t = s.drop_last();
        assert(p < s.len());
        assert forall|k: int| p <= k < t.len() implies #[trigger] t[k] != c by {
            assert(t[k] == s[k]);
        }
        if p > 0 {
            assert(t[p - 1] == s[p - 1]);
        }
        lemma_after_last(t, c, p);
        assert(t.subrange(p, t.len() as int).push(s.last()) =~= s.subrange(p, s.len() as int));
    }
}

/// Whether `c` is one of `cs`.
fn char_in(c: char, cs: &Vec<char>) -> (b: bool)
    ensures
        b == cs@.contains(c),
{
    let mut i: usize = 0;
    while i < cs.len()
        invariant
            i <= cs.len(),
            forall|j: int| 0 <= j < i ==> cs@[j] != c,
        decreases cs.len() - i,
    {
        if cs[i] == c {
            assert(cs@[i as int] == c);
            return true;
        }
        i = i + 1;
    }
    false
}

/// `prefix_until(v[from..to], stops)` ends at the returned index.
fn scan_until(v: &Vec<char>, from: usize, to: usize, stops: &Vec<char>) -> (e: usize)
    requires
        from <= to <= v.len(),
    ensures
        from <= e <= to,
        prefix_until(v@.subrange(from as int, to as int), stops@) == v@.subrange(from as int, e as int),
{
    let mut e = from;
    while e < to && !char_in(v[e], stops)
        invariant
            from <= e <= to <= v.len(),
            forall|k: int| from <= k < e ==> !stops@.contains(#[trigger] v@[k]),
        decreases to - e,
    {
        e = e + 1;
    }
    proof {
        let r = v@.subrange(from as int, to as int);
        assert forall|k: int| 0 <= k < e - from implies !stops@.contains(#[trigger] r[k]) by {
            assert(r[k] == v@[from + k]);
        }
        if e < to {
            assert(r[e - from] == v@[e as int]);
        }
        lemma_prefix_until(r, stops@, e - from);
        assert(r.subrange(0, e - from) =~= v@.subrange(from as int, e as int));
    }
    e
}

/// `after_last(v[from..to], c)` starts at the returned index.
fn scan_after_last(v: &Vec<char>, from: usize, to: usize, c: char) -> (h: usize)
    requires
        from <= to <= v.len(),
    ensures
        from <= h <= to,
        after_last(v@.subrange(from as int, to as int), c) == v@.subrange(h as int, to as int),
{
    let mut h = from;
    let mut k = from;
    while k < to
        invariant
            from <= h <= k <= to <= v.len(),
            h == from || v@[h - 1] == c,
            forall|m: int| h <= m < k ==> #[trigger] v@[m] != c,
        decreases to - k,
    {
        if v[k] == c {
            h = k + 1;
        }
        k = k + 1;
    }
    proof {
        let a = v@.subrange(from as int, to as int);
        let p = h - from;
        assert forall|m: int| p <= m < a.len() implies #[trigger] a[m] != c by {
            assert(a[m] == v@[from + m]);
        }
        if p > 0 {
            assert(a[p - 1] == v@[h - 1]);
        }
        lemma_after_last(a, c, p);
        assert(a.subrange(p, a.len() as int) =~= v@.subrange(h as int, to as int));
    }
    h
}

/// Whether `endpoint` names this machine as its host.
pub fn endpoint_is_local(endpoint: &str) -> (b: bool)
    ensures
        b == is_local_endpoint(endpoint@),
{
    let v = chars_of(endpoint);
    let n = v.len();
    let sep: Vec<char> = vec![':', '/', '/'];
    proof {
        reveal_strlit("://");
        reveal_strlit("localhost");
        reveal_strlit("127.0.0.1");
    }
    assert(sep@ =~= "://"@);
    let start: usize = match find_from(&v, &sep, 0) {
        Some(i) => {
            proof {
                lemma_first_match_bounds(v@, sep@, 0);
                assert(match_at(v@, sep@, i as int));
            }
            i + 3
        },
        None => 0,
    };
    assert(v@.subrange(start as int, n as int) == after_scheme(endpoint@)) by {
        if start == 0 {
            assert(v@.subrange(0, n as int) =~= v@);
        }
    }
    let stops: Vec<char> = vec!['/', '?', '#'];
    assert(stops@ =~= seq!['/', '?', '#']);
    let ae = scan_until(&v, start, n, &stops);
    let hs = scan_after_last(&v, start, ae, '@');
    let colon: Vec<char> = vec![':'];
    assert(colon@ =~= seq![':']);
    let he = scan_until(&v, hs, ae, &colon);
    let host = sub_vec(&v, hs, he);
    let localhost: Vec<char> = vec!['l', 'o', 'c', 'a', 'l', 'h', 'o', 's', 't'];
    let loopback: Vec<char> = vec!['1', '2', '7', '.', '0', '.', '0', '.', '1'];
    assert(localhost@ =~= "localhost"@);
    assert(loopback@ =~= "127.0.0.1"@);
    chars_eq(&host, &localhost) || chars_eq(&host, &loopback)
}

/// The package operations that need the network.
pub open spec fn is_networked_operation(op: Seq<char>) -> bool {
    op == "publish"@ || op == "search_remote"@
}

pub struct AirGapEnforcer {
    enabled: bool,
}

impl AirGapEnforcer {
    pub closed spec fn enabled_view(&self) -> bool {
        self.enabled
    }

    pub fn new(enabled: bool) -> (e: Self)
        ensures
            e.enabled_view() == enabled,
    {
        AirGapEnforcer { enabled }
    }

    pub fn is_enabled(&self) -> (b: bool)
        ensures
            b == self.enabled_view(),
    {
        self.enabled
    }

    /// Allows a request from `agent_pid` to `endpoint` unless air-gapped and
    /// the endpoint is remote.
    pub fn check_network_request(&self, agent_pid: u32, endpoint: &str) -> (r: Result<(), AirGapError>)
        ensures
            !self.enabled_view() || is_local_endpoint(endpoint@) ==> r is Ok,
            self.enabled_view() && !is_local_endpoint(endpoint@) ==> (r matches Err(AirGapError::Blocked { agent_pid: p, endpoint: e })
                && p == agent_pid && e@ == endpoint@),
    {
        if !self.enabled {
            return Ok(());
        }
        if endpoint_is_local(endpoint) {
            return Ok(());
        }
        Err(AirGapError::Blocked { agent_pid, endpoint: to_string(endpoint) })
    }

    /// Allows `provider` unless air-gapped and the provider is in the cloud.
    pub fn check_llm_provider(&self, provider: &LlmProvider) -> (r: Result<(), AirGapError>)
        ensures
            !self.enabled_view() || provider.is_local ==> r is Ok,
            self.enabled_view() && !provider.is_local ==> (r matches Err(AirGapError::CloudProviderBlocked { provider_name: n })
                && n@ == provider.name@),
    {
        if !self.enabled {
            return Ok(());
        }
        if provider.is_local {
            return Ok(());
        }
        Err(AirGapError::CloudProviderBlocked { provider_name: to_string(provider.name.as_str()) })
    }

    /// The providers that may be used: all of them, or only the local ones
    /// when air-gapped.
    pub fn filter_llm_providers<'a>(&self, providers: &'a [LlmProvider]) -> (r: Vec<&'a LlmProvider>)
        ensures
            r@.map_values(|p: &LlmProvider| *p) == if self.enabled_view() {
                local_providers(providers@)
            } else {
                providers@
            },
    {
        providers_for_air_gap(providers, self.enabled)
    }

    /// Allows a package operation unless air-gapped and it needs the network.
    pub fn check_nest_operation(&self, operation: &str) -> (r: Result<(), AirGapError>)
        ensures
            !self.enabled_view() || !is_networked_operation(operation@) ==> r is Ok,
            self.enabled_view() && is_networked_operation(operation@) ==> (r matches Err(
                AirGapError::NetworkOperationBlocked { operation: o },
            ) && o@ == operation@),
    {
        if !self.enabled {
            return Ok(());
        }
        if str_eq(operation, "publish") || str_eq(operation, "search_remote") {
            Err(AirGapError::NetworkOperationBlocked { operation: to_string(operation) })
        } else {
            Ok(())
        }
    }
}

/// The providers that `filter_llm_providers` keeps are exactly those that
/// `check_llm_provider` lets through.
pub proof fn filter_agrees_with_check(enabled: bool, s: Seq<LlmProvider>)
    ensures
        forall|i: int| 0 <= i < s.len() ==> ((if enabled { local_providers(s) } else { s }).contains(#[trigger] s[i])
            <==> (!enabled || s[i].is_local)),
{
    crate::llm_router::air_gap_keeps_exactly_local(s);
    assert forall|i: int| 0 <= i < s.len() implies ((if enabled { local_providers(s) } else { s }).contains(#[trigger] s[i])
        <==> (!enabled || s[i].is_local)) by {
        if enabled && local_providers(s).contains(s[i]) {
            let k = choose|k: int| 0 <= k < local_providers(s).len() && local_providers(s)[k] == s[i];
            assert(local_providers(s)[k].is_local);
        }
        if !enabled {
            assert(s[i] == s[i]);
        }
    }
}

} // verus!
