//! Memory offered to other agents: as MCP tools (`memory_store`,
//! `memory_query`) and as A2A actions (`store`, `query`). A request's JSON
//! fields arrive as plain values; the reply is a plain value the program
//! renders as JSON in each protocol's shape.
use vstd::prelude::*;
use vstd::utf8::encode_utf8;

use crate::base64::{b64_decode, b64_encode, base64_decode, base64_encode};
use crate::memory::{
    prefix_string, query_result, scope_prefix, stored, EntryView, InMemoryStore, MemoryScope, ScopeView,
};
use crate::text::{chars_of, push_str, starts_with, starts_with_exec, str_eq, string_of_range, to_string};

verus! {

/// The fields of a request that the handlers read: each present when the
/// JSON has it with the expected type (a string, or for `source_agent` an
/// unsigned integer).
#[derive(Debug, Clone, Default)]
pub struct MemoryParams {
    pub scope: Option<String>,
    pub key: Option<String>,
    pub value: Option<String>,
    pub source_agent: Option<u64>,
}

/// One entry as the Aura daemon lists it.
#[derive(Debug, Clone, Default)]
pub struct AuraMemoryItem {
    pub key: String,
    pub value: String,
    pub agent_id: String,
    pub timestamp: String,
}

/// A handler's answer.
#[derive(Debug, Clone, PartialEq)]
pub enum MemoryReply {
    /// The value was stored.
    Stored,
    /// The entry found, its value in base64 and its scope as text.
    Found { key: String, value: String, scope: String, timestamp: String, source_agent: u32 },
    /// No entry under the key.
    NotFound,
    Error(String),
}

// ── Scopes as text ───────────────────────────────────────────────────────────

pub open spec fn is_digit(c: char) -> bool {
    '0' <= c <= '9'
}

/// The number decimal digits stand for.
pub open spec fn digits_value(s: Seq<char>) -> nat
    decreases s.len(),
{
    if s.len() == 0 {
        0
    } else {
        10 * digits_value(s.drop_last()) + (s.last() as nat - 48) as nat
    }
}

/// All characters are decimal digits.
pub open spec fn all_digits(d: Seq<char>) -> bool {
    forall|i: int| 0 <= i < d.len() ==> is_digit(#[trigger] d[i])
}

/// The digits after an optional leading `+`.
pub open spec fn unsigned_digits(s: Seq<char>) -> Seq<char> {
    if s.len() > 0 && s[0] == '+' {
        s.drop_first()
    } else {
        s
    }
}

/// What `u32::from_str` gives: an optional `+`, then one or more decimal
/// digits whose value fits in 32 bits.
pub open spec fn u32_value(s: Seq<char>) -> Option<u32> {
    let d = unsigned_digits(s);
    if d.len() > 0 && all_digits(d) && digits_value(d) <= u32::MAX {
        Some(digits_value(d) as u32)
    } else {
        None
    }
}

proof fn lemma_digits_value_grows(s: Seq<char>, i: int)
    requires
        0 <= i <= s.len(),
        all_digits(s),
    ensures
        digits_value(s.take(i)) <= digits_value(s),
    decreases s.len() - i,
{
    if i < s.len() {
        lemma_digits_value_grows(s, i + 1);
        assert(s.take(i + 1).drop_last() =~= s.take(i));
    } else {
        assert(s.take(i) =~= s);
    }
}

/// Parses a decimal `u32` as `str::parse::<u32>` does.
pub fn parse_u32(s: &str) -> (r: Option<u32>)
    ensures
        r == u32_value(s@),
{
    let v = chars_of(s);
    let n = v.len();
    assert(v@ == s@);
    let start: usize = if n > 0 && v[0] == '+' {
        1
    } else {
        0
    };
    let ghost d = unsigned_digits(s@);
    assert(d =~= v@.skip(start as int));
    if start == n {
        assert(d.len() == 0);
        return None;
    }
    let mut value: u64 = 0;
    let mut i = start;
    while i < n
        invariant
            start <= i <= n,
            n == v@.len(),
            d == v@.skip(start as int),
            d == unsigned_digits(s@),
            value <= u32::MAX,
            value == digits_value(d.take(i - start)),
            forall|j: int| 0 <= j < i - start ==> is_digit(#[trigger] d[j]),
        decreases n - i,
    {
        let c = v[i];
        if !('0' <= c && c <= '9') {
            assert(d[i - start] == c);
            assert(!is_digit(d[i - start]));
            assert(!all_digits(d));
            return None;
        }
        let digit = (c as u32 - 48) as u64;
        proof {
            assert(d.take(i - start + 1).drop_last() =~= d.take(i - start));
            assert(d.take(i - start + 1).last() == c);
        }
        let next = value * 10 + digit;
        if next > 0xffff_ffff {
            proof {
                if all_digits(d) {
                    lemma_digits_value_grows(d, i - start + 1);
                }
            }
            return None;
        }
        value = next;
        i = i + 1;
    }
    assert(d.take(n - start) =~= d);
    Some(value as u32)
}

/// The scope a request names: `global` (also when none is given),
/// `session:<id>`, or `agent:<pid>` with a decimal pid.
pub open spec fn scope_request(scope: Option<Seq<char>>) -> Result<ScopeView, Seq<char>> {
    let s = match scope {
        Some(t) => t,
        None => "global"@,
    };
    if s == "global"@ {
        Ok(ScopeView::Global)
    } else if starts_with(s, "session:"@) {
        Ok(ScopeView::Session(s.skip(8)))
    } else if starts_with(s, "agent:"@) {
        match u32_value(s.skip(6)) {
            Some(pid) => Ok(ScopeView::Agent(pid)),
            None => Err("invalid agent pid: "@ + s.skip(6)),
        }
    } else {
        Err("unknown scope: "@ + s)
    }
}

/// Reads the scope a request names.
pub fn parse_scope(scope: Option<&str>) -> (r: Result<MemoryScope, String>)
    ensures
        match scope_request(
            match scope {
                Some(t) => Some(t@),
                None => None,
            },
        ) {
            Ok(s) => r matches Ok(m) && m@ == s,
            Err(e) => r matches Err(m) && m@ == e,
        },
{
    proof {
        reveal_strlit("global");
        reveal_strlit("session:");
        reveal_strlit("agent:");
    }
    let text = match scope {
        Some(t) => t,
        None => "global",
    };
    if str_eq(text, "global") {
        return Ok(MemoryScope::Global);
    }
    let v = chars_of(text);
    let session = chars_of("session:");
    let agent = chars_of("agent:");
    if starts_with_exec(&v, &session) {
        return Ok(MemoryScope::Session(string_of_range(&v, 8, v.len())));
    }
    if starts_with_exec(&v, &agent) {
        let pid_text = string_of_range(&v, 6, v.len());
        proof {
            assert(pid_text@ =~= text@.skip(6));
        }
        return match parse_u32(pid_text.as_str()) {
            Some(pid) => Ok(MemoryScope::Agent(pid)),
            None => {
                let mut m = to_string("invalid agent pid: ");
                push_str(&mut m, pid_text.as_str());
                Err(m)
            },
        };
    }
    let mut m = to_string("unknown scope: ");
    push_str(&mut m, text);
    Err(m)
}

// ── The handlers ─────────────────────────────────────────────────────────────

pub open spec fn opt_text(o: Option<String>) -> Option<Seq<char>> {
    match o {
        Some(s) => Some(s@),
        None => None,
    }
}

/// What a store request asks for, or why it is refused: the scope first,
/// then the key, then the value (base64), each must be there and valid. A
/// missing source agent is agent 0; a larger one is cut to 32 bits.
pub open spec fn store_request(p: MemoryParams) -> Result<(ScopeView, Seq<char>, Seq<u8>, u32), Seq<char>> {
    match scope_request(opt_text(p.scope)) {
        Err(e) => Err(e),
        Ok(scope) => match p.key {
            None => Err("missing field: key"@),
            Some(k) => match p.value {
                None => Err("missing field: value"@),
                Some(v) => match b64_decode(encode_utf8(v@)) {
                    Err(e) => Err(e),
                    Ok(bytes) => Ok(
                        (
                            scope,
                            k@,
                            bytes,
                            match p.source_agent {
                                Some(a) => a as u32,
                                None => 0,
                            },
                        ),
                    ),
                },
            },
        },
    }
}

/// A reply shows entry `e`: its key, its value in base64, its scope as
/// text, its time and its source agent.
pub open spec fn shows(r: MemoryReply, e: EntryView) -> bool {
    r matches MemoryReply::Found { key, value, scope, timestamp, source_agent } && key@ == e.key && value@
        == b64_encode(e.value) && scope@ == scope_prefix(e.scope) && timestamp@ == e.timestamp && source_agent
        == e.source_agent
}

fn do_store(store: &mut InMemoryStore, params: &MemoryParams) -> (r: MemoryReply)
    ensures
        match store_request(*params) {
            Err(e) => (r matches MemoryReply::Error(m) && m@ == e) && final(store).live() == old(store).live(),
            Ok((s, k, v, a)) => r is Stored && stored(old(store).live(), final(store).live(), s, k, v, a),
        },
        final(store).archived() == old(store).archived(),
{
    let scope = match parse_scope(
        match &params.scope {
            Some(s) => Some(s.as_str()),
            None => None,
        },
    ) {
        Ok(s) => s,
        Err(e) => return MemoryReply::Error(e),
    };
    let key = match &params.key {
        Some(k) => k,
        None => return MemoryReply::Error(to_string("missing field: key")),
    };
    let value_b64 = match &params.value {
        Some(v) => v,
        None => return MemoryReply::Error(to_string("missing field: value")),
    };
    let value = match base64_decode(value_b64.as_str()) {
        Ok(v) => v,
        Err(e) => return MemoryReply::Error(e),
    };
    let source_agent: u32 = match params.source_agent {
        Some(a) => a as u32,
        None => 0,
    };
    let _ = store.store(scope, key.as_str(), value.as_slice(), source_agent);
    MemoryReply::Stored
}

fn do_query(store: &InMemoryStore, params: &MemoryParams) -> (r: MemoryReply)
    ensures
        match params.key {
            None => r matches MemoryReply::Error(m) && m@ == "missing field: key"@,
            Some(k) => (r is NotFound && query_result(store.live(), k@, None)) || exists|e: EntryView|
                #[trigger] shows(r, e) && query_result(store.live(), k@, Some(e)),
        },
{
    let key = match &params.key {
        Some(k) => k,
        None => return MemoryReply::Error(to_string("missing field: key")),
    };
    match store.query(key.as_str()) {
        Ok(Some(entry)) => {
            let r = MemoryReply::Found {
                key: to_string(entry.key.as_str()),
                value: base64_encode(entry.value.as_slice()),
                scope: prefix_string(&entry.scope),
                timestamp: to_string(entry.timestamp.as_str()),
                source_agent: entry.source_agent,
            };
            assert(shows(r, entry@));
            r
        },
        _ => MemoryReply::NotFound,
    }
}

/// Memory as MCP tools: `memory_store` and `memory_query`.
pub struct McpMemoryProvider {
    store: InMemoryStore,
}

impl McpMemoryProvider {
    pub closed spec fn store_view(&self) -> InMemoryStore {
        self.store
    }

    pub fn new(store: InMemoryStore) -> (p: Self)
        ensures
            p.store_view() == store,
    {
        McpMemoryProvider { store }
    }

    /// Answers one MCP tool call.
    pub fn handle_tool_call(&mut self, tool_name: &str, params: MemoryParams) -> (r: MemoryReply)
        ensures
            final(self).store_view().archived() == old(self).store_view().archived(),
            tool_name@ == "memory_store"@ ==> match store_request(params) {
                Err(e) => (r matches MemoryReply::Error(m) && m@ == e) && final(self).store_view().live() == old(
                    self,
                ).store_view().live(),
                Ok((s, k, v, a)) => r is Stored && stored(
                    old(self).store_view().live(),
                    final(self).store_view().live(),
                    s,
                    k,
                    v,
                    a,
                ),
            },
            tool_name@ != "memory_store"@ ==> final(self).store_view().live() == old(self).store_view().live(),
            tool_name@ == "memory_query"@ ==> match params.key {
                None => r matches MemoryReply::Error(m) && m@ == "missing field: key"@,
                Some(k) => (r is NotFound && query_result(old(self).store_view().live(), k@, None)) || exists|
                    e: EntryView,
                | #[trigger] shows(r, e) && query_result(old(self).store_view().live(), k@, Some(e)),
            },
            tool_name@ != "memory_store"@ && tool_name@ != "memory_query"@ ==> (r matches MemoryReply::Error(m)
                && m@ == "unknown tool: "@ + tool_name@),
    {
        proof {
            reveal_strlit("memory_store");
            reveal_strlit("memory_query");
            assert("memory_store"@[7] != "memory_query"@[7]);
        }
        if str_eq(tool_name, "memory_store") {
            do_store(&mut self.store, &params)
        } else if str_eq(tool_name, "memory_query") {
            do_query(&self.store, &params)
        } else {
            let mut m = to_string("unknown tool: ");
            push_str(&mut m, tool_name);
            MemoryReply::Error(m)
        }
    }
}

/// Memory as an A2A agent card: actions `store` and `query`.
pub struct A2aMemoryCard {
    store: InMemoryStore,
}

impl A2aMemoryCard {
    pub closed spec fn store_view(&self) -> InMemoryStore {
        self.store
    }

    pub fn new(store: InMemoryStore) -> (c: Self)
        ensures
            c.store_view() == store,
    {
        A2aMemoryCard { store }
    }

    /// Answers one A2A request.
    pub fn handle_request(&mut self, action: &str, params: MemoryParams) -> (r: MemoryReply)
        ensures
            final(self).store_view().archived() == old(self).store_view().archived(),
            action@ == "store"@ ==> match store_request(params) {
                Err(e) => (r matches MemoryReply::Error(m) && m@ == e) && final(self).store_view().live() == old(
                    self,
                ).store_view().live(),
                Ok((s, k, v, a)) => r is Stored && stored(
                    old(self).store_view().live(),
                    final(self).store_view().live(),
                    s,
                    k,
                    v,
                    a,
                ),
            },
            action@ != "store"@ ==> final(self).store_view().live() == old(self).store_view().live(),
            action@ == "query"@ ==> match params.key {
                None => r matches MemoryReply::Error(m) && m@ == "missing field: key"@,
                Some(k) => (r is NotFound && query_result(old(self).store_view().live(), k@, None)) || exists|
                    e: EntryView,
                | #[trigger] shows(r, e) && query_result(old(self).store_view().live(), k@, Some(e)),
            },
            action@ != "store"@ && action@ != "query"@ ==> (r matches MemoryReply::Error(m) && m@
                == "unknown action: "@ + action@),
    {
        proof {
            reveal_strlit("store");
            reveal_strlit("query");
            assert("store"@[0] != "query"@[0]);
        }
        if str_eq(action, "store") {
            do_store(&mut self.store, &params)
        } else if str_eq(action, "query") {
            do_query(&self.store, &params)
        } else {
            let mut m = to_string("unknown action: ");
            push_str(&mut m, action);
            MemoryReply::Error(m)
        }
    }
}

} // verus!
