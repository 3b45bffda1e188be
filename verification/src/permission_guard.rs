//! The permission guard: every file, network, command and secret access of
//! an agent is checked against the allowlists of its manifest, unless the
//! user trusts the agent. Each denial of a registered agent is kept for the
//! program to log.
use vstd::prelude::*;

use crate::manifest::AgentManifest;
use crate::text::{char_is_ws, chars_of, dec, is_ws, push_decimal, push_str, str_eq, string_of_range, texts, to_string};
use crate::types::PermissionResult;

verus! {

/// Whether `value` matches the glob `pattern`, when the pattern is a valid
/// glob; nothing when it is not.
pub uninterp spec fn glob_verdict(pattern: Seq<char>, value: Seq<char>) -> Option<bool>;

/// `glob::Pattern::new(pattern)` and then `Pattern::matches(value)`.
/// Claimed: `None` when the pattern does not compile, else whether it
/// matches, as `glob_verdict` names.
#[verifier::external_body]
fn glob_match_result(pattern: &str, value: &str) -> (r: Option<bool>)
    ensures
        r == glob_verdict(pattern@, value@),
{
    match glob::Pattern::new(pattern) {
        Ok(p) => Some(p.matches(value)),
        Err(_) => None,
    }
}

/// An allowlist entry admits `value`: as a glob, or, when it is not a valid
/// glob, by being equal to it.
pub open spec fn admits(pattern: Seq<char>, value: Seq<char>) -> bool {
    match glob_verdict(pattern, value) {
        Some(b) => b,
        None => pattern == value,
    }
}

/// Whether an allowlist entry admits `value`.
pub fn glob_match(pattern: &str, value: &str) -> (b: bool)
    ensures
        b == admits(pattern@, value@),
{
    match glob_match_result(pattern, value) {
        Some(b) => b,
        None => str_eq(pattern, value),
    }
}

/// Some entry of `list` admits `value`.
pub open spec fn any_admits(list: Seq<Seq<char>>, value: Seq<char>) -> bool {
    exists|i: int| 0 <= i < list.len() && admits(#[trigger] list[i], value)
}

/// The first whitespace-separated word of a command line, or the whole line
/// when it has none.
pub open spec fn command_base(c: Seq<char>) -> Seq<char> {
    if exists|i: int| 0 <= i < c.len() && !is_ws(c[i]) {
        let a = choose|a: int| 0 <= a < c.len() && !is_ws(c[a]) && forall|j: int| 0 <= j < a ==> is_ws(#[trigger] c[j]);
        let b = choose|b: int|
            a < b <= c.len() && (b == c.len() || is_ws(c[b])) && forall|j: int| a <= j < b ==> !is_ws(#[trigger] c[j]);
        c.subrange(a, b)
    } else {
        c
    }
}

fn first_word(command: &str) -> (r: String)
    ensures
        r@ == command_base(command@),
{
    let v = chars_of(command);
    let n = v.len();
    let mut a: usize = 0;
    while a < n && char_is_ws(v[a])
        invariant
            a <= n,
            n == v@.len(),
            forall|j: int| 0 <= j < a ==> is_ws(#[trigger] v@[j]),
        decreases n - a,
    {
        a = a + 1;
    }
    if a == n {
        proof {
            assert(!exists|i: int| 0 <= i < command@.len() && !is_ws(command@[i]));
        }
        return to_string(command);
    }
    let mut b = a + 1;
    while b < n && !char_is_ws(v[b])
        invariant
            a < b <= n,
            n == v@.len(),
            !is_ws(v@[a as int]),
            forall|j: int| a <= j < b ==> !is_ws(#[trigger] v@[j]),
        decreases n - b,
    {
        b = b + 1;
    }
    proof {
        let c = command@;
        assert(c == v@);
        assert(exists|i: int| 0 <= i < c.len() && !is_ws(c[i])) by {
            assert(!is_ws(c[a as int]));
        }
        let a2 = choose|x: int| 0 <= x < c.len() && !is_ws(c[x]) && forall|j: int| 0 <= j < x ==> is_ws(#[trigger] c[j]);
        assert(a2 == a as int) by {
            if a2 < a {
                assert(is_ws(c[a2]));
            }
            if a2 > a {
                assert(is_ws(c[a as int]));
            }
        }
        let b2 = choose|y: int|
            a2 < y <= c.len() && (y == c.len() || is_ws(c[y])) && forall|j: int| a2 <= j < y ==> !is_ws(#[trigger] c[j]);
        assert(b == c.len() || is_ws(c[b as int]));
        assert(b2 == b as int) by {
            if b2 < b {
                assert(!is_ws(c[b2]));
            }
            if b2 > b {
                assert(!is_ws(c[b as int]));
            }
        }
    }
    string_of_range(&v, a, b)
}

/// A denial to be logged: which kind of access and the resource asked for.
#[derive(Debug, Clone, PartialEq)]
pub struct Denial {
    pub pid: u32,
    pub kind: String,
    pub resource: String,
}

pub open spec fn denial_view(d: Denial) -> (u32, Seq<char>, Seq<char>) {
    (d.pid, d.kind@, d.resource@)
}

pub open spec fn denial_views(ds: Seq<Denial>) -> Seq<(u32, Seq<char>, Seq<char>)> {
    ds.map_values(|d: Denial| denial_view(d))
}

/// The manifests of running agents, the agents the user trusts, and the
/// denials not yet logged.
pub struct PermissionGuard {
    manifests: Vec<(u32, AgentManifest)>,
    trusted: Vec<u32>,
    denials: Vec<Denial>,
}

/// The manifest registered for `pid` (the latest registration counts).
pub open spec fn manifest_of(ms: Seq<(u32, AgentManifest)>, pid: u32) -> Option<AgentManifest>
    decreases ms.len(),
{
    if ms.len() == 0 {
        None
    } else if ms.last().0 == pid {
        Some(ms.last().1)
    } else {
        manifest_of(ms.drop_last(), pid)
    }
}

/// How a check of one kind of access ends for an agent with manifest
/// allowlist `list`: the reason of a denial, or none when allowed.
pub open spec fn check_outcome(
    trusted: bool,
    manifest: Option<Seq<Seq<char>>>,
    pid: u32,
    allowed: bool,
    denied_reason: Seq<char>,
) -> Option<Seq<char>> {
    if trusted {
        None
    } else {
        match manifest {
            None => Some("no manifest registered for pid "@ + dec(pid as nat)),
            Some(_) => if allowed {
                None
            } else {
                Some(denied_reason)
            },
        }
    }
}

pub open spec fn result_view(r: PermissionResult) -> Option<Seq<char>> {
    match r {
        PermissionResult::Allowed => None,
        PermissionResult::Denied { reason } => Some(reason@),
    }
}

impl PermissionGuard {
    pub closed spec fn manifests_view(&self) -> Seq<(u32, AgentManifest)> {
        self.manifests@
    }

    pub closed spec fn trusted_view(&self) -> Seq<u32> {
        self.trusted@
    }

    pub closed spec fn denials_view(&self) -> Seq<Denial> {
        self.denials@
    }

    pub open spec fn is_trusted_spec(&self, pid: u32) -> bool {
        self.trusted_view().contains(pid)
    }

    /// A guard with no agent registered or trusted.
    pub fn new() -> (g: Self)
        ensures
            g.manifests_view().len() == 0,
            g.trusted_view().len() == 0,
            g.denials_view().len() == 0,
    {
        PermissionGuard { manifests: Vec::new(), trusted: Vec::new(), denials: Vec::new() }
    }

    /// Registers the manifest of the agent running as `pid`.
    pub fn register(&mut self, pid: u32, manifest: AgentManifest)
        ensures
            final(self).manifests_view() == old(self).manifests_view().push((pid, manifest)),
            final(self).trusted_view() == old(self).trusted_view(),
            final(self).denials_view() == old(self).denials_view(),
    {
        self.manifests.push((pid, manifest));
    }

    /// Whether the user trusts the agent running as `pid`.
    pub fn is_trusted(&self, pid: u32) -> (b: bool)
        ensures
            b == self.is_trusted_spec(pid),
    {
        let mut i: usize = 0;
        while i < self.trusted.len()
            invariant
                i <= self.trusted@.len(),
                forall|j: int| 0 <= j < i ==> self.trusted@[j] != pid,
            decreases self.trusted.len() - i,
        {
            if self.trusted[i] == pid {
                return true;
            }
            i = i + 1;
        }
        false
    }

    /// Trusts every running agent named `agent_name` for the session.
    pub fn trust(&mut self, agent_name: &str, session: String)
        ensures
            forall|p: u32| #[trigger] final(self).is_trusted_spec(p) <==> (old(self).is_trusted_spec(p)
                || exists|i: int|
                0 <= i < old(self).manifests_view().len() && old(self).manifests_view()[i].0 == p
                    && old(self).manifests_view()[i].1.info.name@ == agent_name@),
            final(self).manifests_view() == old(self).manifests_view(),
            final(self).denials_view() == old(self).denials_view(),
    {
        let mut i: usize = 0;
        while i < self.manifests.len()
            invariant
                i <= self.manifests@.len(),
                self.manifests@ == old(self).manifests@,
                self.denials@ == old(self).denials@,
                forall|p: u32| #[trigger] self.trusted@.contains(p) <==> (old(self).trusted@.contains(p) || exists|
                    j: int,
                | 0 <= j < i && self.manifests@[j].0 == p && self.manifests@[j].1.info.name@ == agent_name@),
            decreases self.manifests.len() - i,
        {
            if str_eq(self.manifests[i].1.info.name.as_str(), agent_name) {
                let pid = self.manifests[i].0;
                let ghost before = self.trusted@;
                self.trusted.push(pid);
                proof {
                    assert forall|p: u32| #[trigger] self.trusted@.contains(p) <==> (before.contains(p) || p == pid) by {
                        if self.trusted@.contains(p) && p != pid {
                            let k = choose|k: int| 0 <= k < self.trusted@.len() && self.trusted@[k] == p;
                            assert(before[k] == p);
                        }
                        if before.contains(p) {
                            let k = choose|k: int| 0 <= k < before.len() && before[k] == p;
                            assert(self.trusted@[k] == p);
                        }
                        if p == pid {
                            assert(self.trusted@[before.len() as int] == p);
                        }
                    }
                }
            }
            i = i + 1;
        }
        proof {
            assert forall|p: u32| #[trigger] self.is_trusted_spec(p) <==> (old(self).is_trusted_spec(p)
                || exists|j: int|
                0 <= j < old(self).manifests_view().len() && old(self).manifests_view()[j].0 == p
                    && old(self).manifests_view()[j].1.info.name@ == agent_name@) by {
                assert(self.trusted@.contains(p) == self.is_trusted_spec(p));
                assert(old(self).trusted@.contains(p) == old(self).is_trusted_spec(p));
                assert(self.manifests@ == old(self).manifests_view());
                assert(i == self.manifests@.len());
                if self.trusted@.contains(p) && !old(self).trusted@.contains(p) {
                    let j = choose|j: int| 0 <= j < i && self.manifests@[j].0 == p && self.manifests@[j].1.info.name@ == agent_name@;
                    assert(old(self).manifests_view()[j].0 == p);
                }
            }
        }
    }

    /// The denials not yet logged, oldest first; the guard forgets them.
    pub fn take_denials(&mut self) -> (r: Vec<Denial>)
        ensures
            r@ == old(self).denials_view(),
            final(self).denials_view().len() == 0,
            final(self).manifests_view() == old(self).manifests_view(),
            final(self).trusted_view() == old(self).trusted_view(),
    {
        let mut out: Vec<Denial> = Vec::new();
        std::mem::swap(&mut out, &mut self.denials);
        out
    }

    fn find_manifest(&self, pid: u32) -> (r: Option<usize>)
        ensures
            match r {
                Some(i) => i < self.manifests@.len() && manifest_of(self.manifests@, pid) == Some(
                    self.manifests@[i as int].1,
                ),
                None => manifest_of(self.manifests@, pid) is None,
            },
    {
        let ghost ms = self.manifests@;
        let mut k = self.manifests.len();
        assert(ms.take(k as int) =~= ms);
        while k > 0
            invariant
                k <= ms.len(),
                ms == self.manifests@,
                manifest_of(ms, pid) == manifest_of(ms.take(k as int), pid),
            decreases k,
        {
            assert(ms.take(k as int).drop_last() =~= ms.take(k - 1));
            if self.manifests[k - 1].0 == pid {
                return Some(k - 1);
            }
            k = k - 1;
        }
        None
    }

    fn deny(&mut self, pid: u32, kind: &str, resource: &str, reason: String) -> (r: PermissionResult)
        ensures
            r matches PermissionResult::Denied { reason: m } && m == reason,
            denial_views(final(self).denials_view()) == denial_views(old(self).denials_view()).push(
                (pid, kind@, resource@),
            ),
            final(self).manifests_view() == old(self).manifests_view(),
            final(self).trusted_view() == old(self).trusted_view(),
    {
        self.denials.push(Denial { pid, kind: to_string(kind), resource: to_string(resource) });
        proof {
            assert(denial_views(self.denials@) =~= denial_views(old(self).denials@).push((pid, kind@, resource@)));
        }
        PermissionResult::Denied { reason }
    }

    fn no_manifest(pid: u32) -> (r: PermissionResult)
        ensures
            result_view(r) == Some("no manifest registered for pid "@ + dec(pid as nat)),
    {
        let mut m = to_string("no manifest registered for pid ");
        push_decimal(&mut m, pid as u64);
        PermissionResult::Denied { reason: m }
    }
}

fn any_admits_exec(list: &Vec<String>, value: &str) -> (b: bool)
    ensures
        b == any_admits(texts(list@), value@),
{
    let mut i: usize = 0;
    while i < list.len()
        invariant
            i <= list@.len(),
            forall|j: int| 0 <= j < i ==> !admits(#[trigger] texts(list@)[j], value@),
        decreases list.len() - i,
    {
        if glob_match(list[i].as_str(), value) {
            assert(admits(texts(list@)[i as int], value@));
            return true;
        }
        i = i + 1;
    }
    false
}

fn contains_exec(list: &Vec<String>, value: &str) -> (b: bool)
    ensures
        b == texts(list@).contains(value@),
{
    let mut i: usize = 0;
    while i < list.len()
        invariant
            i <= list@.len(),
            forall|j: int| 0 <= j < i ==> #[trigger] texts(list@)[j] != value@,
        decreases list.len() - i,
    {
        if str_eq(list[i].as_str(), value) {
            assert(texts(list@)[i as int] == value@);
            return true;
        }
        i = i + 1;
    }
    false
}

/// The denials after a check: one more, for `(pid, kind, resource)`, when
/// the check denied a registered, untrusted agent.
pub open spec fn logged(
    before: Seq<Denial>,
    after: Seq<Denial>,
    pid: u32,
    kind: Seq<char>,
    resource: Seq<char>,
    denied: bool,
) -> bool {
    denial_views(after) == if denied {
        denial_views(before).push((pid, kind, resource))
    } else {
        denial_views(before)
    }
}

/// Which allowlist of a manifest a check reads.
pub open spec fn allowlist(m: AgentManifest, kind: int) -> Seq<Seq<char>> {
    if kind == 0 {
        texts(m.permissions.filesystem@)
    } else if kind == 1 {
        texts(m.permissions.network@)
    } else if kind == 2 {
        texts(m.permissions.commands@)
    } else {
        texts(m.permissions.secrets@)
    }
}

/// Whether an allowlist lets `value` through: paths and endpoints by glob,
/// commands by their first word, secrets by name.
pub open spec fn lets_through(list: Seq<Seq<char>>, kind: int, value: Seq<char>) -> bool {
    if kind <= 1 {
        any_admits(list, value)
    } else if kind == 2 {
        list.contains(command_base(value))
    } else {
        list.contains(value)
    }
}

pub open spec fn kind_name(kind: int) -> Seq<char> {
    if kind == 0 {
        "fs_access"@
    } else if kind == 1 {
        "network"@
    } else if kind == 2 {
        "command"@
    } else {
        "secret"@
    }
}

pub open spec fn denial_reason(kind: int, value: Seq<char>) -> Seq<char> {
    if kind == 0 {
        "filesystem path '"@ + value + "' not in manifest allowlist"@
    } else if kind == 1 {
        "network endpoint '"@ + value + "' not in manifest allowlist"@
    } else if kind == 2 {
        "command '"@ + value + "' not in manifest allowlist"@
    } else {
        "secret key '"@ + value + "' not in manifest secrets list"@
    }
}

/// The answer to a check of `value` of one kind by agent `pid`: allowed
/// when the agent is trusted; denied when it has no manifest; else allowed
/// exactly when its allowlist lets the value through.
pub open spec fn verdict(g: PermissionGuard, pid: u32, kind: int, value: Seq<char>) -> Option<Seq<char>> {
    check_outcome(
        g.is_trusted_spec(pid),
        match manifest_of(g.manifests_view(), pid) {
            Some(m) => Some(allowlist(m, kind)),
            None => None,
        },
        pid,
        match manifest_of(g.manifests_view(), pid) {
            Some(m) => lets_through(allowlist(m, kind), kind, value),
            None => false,
        },
        denial_reason(kind, value),
    )
}

/// Whether the check is a denial that gets logged: of a registered agent
/// that is not trusted.
pub open spec fn logs_denial(g: PermissionGuard, pid: u32, kind: int, value: Seq<char>) -> bool {
    !g.is_trusted_spec(pid) && manifest_of(g.manifests_view(), pid) is Some && verdict(g, pid, kind, value) is Some
}

impl PermissionGuard {
    fn check(&mut self, pid: u32, kind: u8, value: &str) -> (r: PermissionResult)
        requires
            kind <= 3,
        ensures
            result_view(r) == verdict(*old(self), pid, kind as int, value@),
            logged(
                old(self).denials_view(),
                final(self).denials_view(),
                pid,
                kind_name(kind as int),
                value@,
                logs_denial(*old(self), pid, kind as int, value@),
            ),
            final(self).manifests_view() == old(self).manifests_view(),
            final(self).trusted_view() == old(self).trusted_view(),
    {
        if self.is_trusted(pid) {
            return PermissionResult::Allowed;
        }
        let i = match self.find_manifest(pid) {
            Some(i) => i,
            None => return Self::no_manifest(pid),
        };
        let perms = &self.manifests[i].1.permissions;
        let allowed = if kind == 0 {
            any_admits_exec(&perms.filesystem, value)
        } else if kind == 1 {
            any_admits_exec(&perms.network, value)
        } else if kind == 2 {
            let base = first_word(value);
            contains_exec(&perms.commands, base.as_str())
        } else {
            contains_exec(&perms.secrets, value)
        };
        if allowed {
            return PermissionResult::Allowed;
        }
        let (kind_text, head, tail) = if kind == 0 {
            ("fs_access", "filesystem path '", "' not in manifest allowlist")
        } else if kind == 1 {
            ("network", "network endpoint '", "' not in manifest allowlist")
        } else if kind == 2 {
            ("command", "command '", "' not in manifest allowlist")
        } else {
            ("secret", "secret key '", "' not in manifest secrets list")
        };
        let mut reason = to_string(head);
        push_str(&mut reason, value);
        push_str(&mut reason, tail);
        self.deny(pid, kind_text, value, reason)
    }

    /// Checks a file access by agent `pid` against its filesystem allowlist
    /// (globs).
    pub fn check_fs_access(&mut self, pid: u32, path: &str) -> (r: PermissionResult)
        ensures
            result_view(r) == verdict(*old(self), pid, 0, path@),
            logged(old(self).denials_view(), final(self).denials_view(), pid, "fs_access"@, path@, logs_denial(*old(self), pid, 0, path@)),
            final(self).manifests_view() == old(self).manifests_view(),
            final(self).trusted_view() == old(self).trusted_view(),
    {
        self.check(pid, 0, path)
    }

    /// Checks a network access by agent `pid` against its network allowlist
    /// (globs).
    pub fn check_network(&mut self, pid: u32, endpoint: &str) -> (r: PermissionResult)
        ensures
            result_view(r) == verdict(*old(self), pid, 1, endpoint@),
            logged(old(self).denials_view(), final(self).denials_view(), pid, "network"@, endpoint@, logs_denial(*old(self), pid, 1, endpoint@)),
            final(self).manifests_view() == old(self).manifests_view(),
            final(self).trusted_view() == old(self).trusted_view(),
    {
        self.check(pid, 1, endpoint)
    }

    /// Checks a command run by agent `pid`: its first word must be on the
    /// command allowlist.
    pub fn check_command(&mut self, pid: u32, command: &str) -> (r: PermissionResult)
        ensures
            result_view(r) == verdict(*old(self), pid, 2, command@),
            logged(old(self).denials_view(), final(self).denials_view(), pid, "command"@, command@, logs_denial(*old(self), pid, 2, command@)),
            final(self).manifests_view() == old(self).manifests_view(),
            final(self).trusted_view() == old(self).trusted_view(),
    {
        self.check(pid, 2, command)
    }

    /// Checks a secret read by agent `pid` against its secrets list.
    pub fn check_secret(&mut self, pid: u32, key: &str) -> (r: PermissionResult)
        ensures
            result_view(r) == verdict(*old(self), pid, 3, key@),
            logged(old(self).denials_view(), final(self).denials_view(), pid, "secret"@, key@, logs_denial(*old(self), pid, 3, key@)),
            final(self).manifests_view() == old(self).manifests_view(),
            final(self).trusted_view() == old(self).trusted_view(),
    {
        self.check(pid, 3, key)
    }
}

/// A trusted agent is allowed everything, and nothing it does is logged.
pub proof fn trust_bypasses_every_check(g: PermissionGuard, pid: u32, kind: int, value: Seq<char>)
    requires
        g.is_trusted_spec(pid),
    ensures
        verdict(g, pid, kind, value) is None,
        !logs_denial(g, pid, kind, value),
{
}

/// An agent that registered no manifest, and is not trusted, is denied
/// everything.
pub proof fn unregistered_agents_are_denied(g: PermissionGuard, pid: u32, kind: int, value: Seq<char>)
    requires
        !g.is_trusted_spec(pid),
        manifest_of(g.manifests_view(), pid) is None,
    ensures
        verdict(g, pid, kind, value) is Some,
{
}

} // verus!
