//! Shared agent memory: entries stored under a scope (global, one session,
//! one agent), looked up by bare key with agent entries taking priority over
//! session entries over global ones, and session entries moved to an archive
//! when the session ends.
//!
//! Entries live under a composite key `"<scope prefix>:<key>"`; lookups match
//! composite keys by prefix and suffix.
use vstd::prelude::*;
use vstd::slice::slice_to_vec;
use vstd::utf8::{decode_utf8, encode_utf8, encode_utf8_decode_utf8, encode_utf8_valid_utf8, valid_utf8};

use crate::text::{
    chars_of, dec, ends_with, ends_with_exec, push_decimal, push_str, push_string, starts_with,
    starts_with_exec, str_eq, to_string,
};

verus! {

#[derive(Debug)]
pub enum MemoryError {
    KeyNotFound(String),
    LockPoisoned,
    InvalidParams(String),
}

#[derive(Debug, Clone, PartialEq, Eq, Hash)]
pub enum MemoryScope {
    Global,
    Session(String),
    Agent(u32),
}

/// A scope as a mathematical value.
pub enum ScopeView {
    Global,
    Session(Seq<char>),
    Agent(u32),
}

impl View for MemoryScope {
    type V = ScopeView;

    open spec fn view(&self) -> ScopeView {
        match self {
            MemoryScope::Global => ScopeView::Global,
            MemoryScope::Session(id) => ScopeView::Session(id@),
            MemoryScope::Agent(pid) => ScopeView::Agent(*pid),
        }
    }
}

#[derive(Debug, Clone)]
pub struct MemoryEntry {
    pub key: String,
    pub value: Vec<u8>,
    pub scope: MemoryScope,
    pub timestamp: String,
    pub source_agent: u32,
}

/// An entry as a mathematical value.
pub struct EntryView {
    pub key: Seq<char>,
    pub value: Seq<u8>,
    pub scope: ScopeView,
    pub timestamp: Seq<char>,
    pub source_agent: u32,
}

impl View for MemoryEntry {
    type V = EntryView;

    open spec fn view(&self) -> EntryView {
        EntryView {
            key: self.key@,
            value: self.value@,
            scope: self.scope@,
            timestamp: self.timestamp@,
            source_agent: self.source_agent,
        }
    }
}

/// The operations every memory backend offers.
pub trait SharedMemory {
    fn store(&mut self, scope: MemoryScope, key: &str, value: &[u8], source_agent: u32) -> Result<(), MemoryError>;

    fn query(&self, key: &str) -> Result<Option<MemoryEntry>, MemoryError>;

    fn archive_session(&mut self, session_id: &str) -> Result<(), MemoryError>;
}

// ── Specification ────────────────────────────────────────────────────────────

pub open spec fn scope_prefix(s: ScopeView) -> Seq<char> {
    match s {
        ScopeView::Global => "global"@,
        ScopeView::Session(id) => "session:"@ + id,
        ScopeView::Agent(pid) => "agent:"@ + dec(pid as nat),
    }
}

/// The key an entry is stored under.
pub open spec fn composite_key(s: ScopeView, key: Seq<char>) -> Seq<char> {
    scope_prefix(s) + ":"@ + key
}

pub open spec fn agent_match(ck: Seq<char>, key: Seq<char>) -> bool {
    starts_with(ck, "agent:"@) && ends_with(ck, ":"@ + key)
}

pub open spec fn session_match(ck: Seq<char>, key: Seq<char>) -> bool {
    starts_with(ck, "session:"@) && ends_with(ck, ":"@ + key)
}

pub open spec fn global_key(key: Seq<char>) -> Seq<char> {
    "global"@ + ":"@ + key
}

/// What a lookup of `key` may give: an entry whose composite key matches in
/// the agent tier if there is one, else one in the session tier, else the
/// global entry, else nothing. Within a tier any matching entry may be
/// chosen.
pub open spec fn query_result(m: Map<Seq<char>, EntryView>, key: Seq<char>, r: Option<EntryView>) -> bool {
    if exists|ck: Seq<char>| m.dom().contains(ck) && agent_match(ck, key) {
        exists|ck: Seq<char>| m.dom().contains(ck) && agent_match(ck, key) && r == Some(m[ck])
    } else if exists|ck: Seq<char>| m.dom().contains(ck) && session_match(ck, key) {
        exists|ck: Seq<char>| m.dom().contains(ck) && session_match(ck, key) && r == Some(m[ck])
    } else if m.dom().contains(global_key(key)) {
        r == Some(m[global_key(key)])
    } else {
        r is None
    }
}

/// `after` is `before` with the entry for (`scope`, `key`) set to `value`
/// from `agent`, stamped with some time.
pub open spec fn stored(
    before: Map<Seq<char>, EntryView>,
    after: Map<Seq<char>, EntryView>,
    scope: ScopeView,
    key: Seq<char>,
    value: Seq<u8>,
    agent: u32,
) -> bool {
    let ck = composite_key(scope, key);
    &&& after.dom().contains(ck)
    &&& after == before.insert(
        ck,
        EntryView { key, value, scope, timestamp: after[ck].timestamp, source_agent: agent },
    )
}

/// The composite keys that belong to session `id`.
pub open spec fn session_keys(m: Map<Seq<char>, EntryView>, id: Seq<char>) -> Set<Seq<char>> {
    m.dom().filter(|k: Seq<char>| starts_with(k, "session:"@ + id + ":"@))
}

/// `e` is an entry of session `id` in `m`.
pub open spec fn in_session(m: Map<Seq<char>, EntryView>, id: Seq<char>, e: EntryView) -> bool {
    exists|k: Seq<char>| #[trigger] session_keys(m, id).contains(k) && m[k] == e
}

/// Every entry sits under its own composite key.
pub open spec fn keyed_by_scope(m: Map<Seq<char>, EntryView>) -> bool {
    forall|k: Seq<char>| #[trigger] m.dom().contains(k) ==> k == composite_key(m[k].scope, m[k].key)
}

pub open spec fn slot_map(s: Seq<(String, MemoryEntry)>) -> Map<Seq<char>, EntryView>
    decreases s.len(),
{
    if s.len() == 0 {
        Map::empty()
    } else {
        slot_map(s.drop_last()).insert(s.last().0@, s.last().1@)
    }
}

pub open spec fn slots_wf(s: Seq<(String, MemoryEntry)>) -> bool {
    &&& forall|i: int, j: int| 0 <= i < j < s.len() ==> #[trigger] s[i].0@ != #[trigger] s[j].0@
    &&& forall|i: int| 0 <= i < s.len() ==> #[trigger] s[i].0@ == composite_key(s[i].1@.scope, s[i].1@.key)
}

proof fn lemma_slot_map_index(s: Seq<(String, MemoryEntry)>, i: int)
    requires
        slots_wf(s),
        0 <= i < s.len(),
    ensures
        slot_map(s).dom().contains(s[i].0@),
        slot_map(s)[s[i].0@] == s[i].1@,
    decreases s.len(),
{
    if i < s.len() - 1 {
        assert(slots_wf(s.drop_last()));
        lemma_slot_map_index(s.drop_last(), i);
        assert(s.drop_last()[i] == s[i]);
        assert(s[i].0@ != s[s.len() - 1].0@);
    }
}

proof fn lemma_slot_map_dom(s: Seq<(String, MemoryEntry)>, k: Seq<char>)
    requires
        slot_map(s).dom().contains(k),
    ensures
        exists|i: int| 0 <= i < s.len() && #[trigger] s[i].0@ == k,
    decreases s.len(),
{
    if s.len() > 0 && s.last().0@ != k {
        lemma_slot_map_dom(s.drop_last(), k);
        let i = choose|i: int| 0 <= i < s.drop_last().len() && #[trigger] s.drop_last()[i].0@ == k;
        assert(s[i].0@ == k);
    } else if s.len() > 0 {
        assert(s[s.len() - 1].0@ == k);
    }
}

proof fn lemma_slot_map_keyed(s: Seq<(String, MemoryEntry)>)
    requires
        slots_wf(s),
    ensures
        keyed_by_scope(slot_map(s)),
{
    assert forall|k: Seq<char>| #[trigger] slot_map(s).dom().contains(k) implies k == composite_key(
        slot_map(s)[k].scope,
        slot_map(s)[k].key,
    ) by {
        lemma_slot_map_dom(s, k);
        let i = choose|i: int| 0 <= i < s.len() && #[trigger] s[i].0@ == k;
        lemma_slot_map_index(s, i);
    }
}

proof fn lemma_slot_map_update(s: Seq<(String, MemoryEntry)>, i: int, x: (String, MemoryEntry))
    requires
        slots_wf(s),
        0 <= i < s.len(),
        x.0@ == s[i].0@,
    ensures
        slot_map(s.update(i, x)) == slot_map(s).insert(x.0@, x.1@),
    decreases s.len(),
{
    let t = s.update(i, x);
    if i == s.len() - 1 {
        assert(t.drop_last() =~= s.drop_last());
        assert(slot_map(t) =~= slot_map(s).insert(x.0@, x.1@));
    } else {
        assert(slots_wf(s.drop_last()));
        assert(t.drop_last() =~= s.drop_last().update(i, x));
        lemma_slot_map_update(s.drop_last(), i, x);
        assert(s[i].0@ != s[s.len() - 1].0@);
        assert(slot_map(t) =~= slot_map(s).insert(x.0@, x.1@));
    }
}

proof fn lemma_slot_map_absent(s: Seq<(String, MemoryEntry)>, k: Seq<char>)
    requires
        forall|i: int| 0 <= i < s.len() ==> #[trigger] s[i].0@ != k,
    ensures
        !slot_map(s).dom().contains(k),
{
    if slot_map(s).dom().contains(k) {
        lemma_slot_map_dom(s, k);
    }
}

proof fn lemma_slot_map_remove(s: Seq<(String, MemoryEntry)>, i: int)
    requires
        slots_wf(s),
        0 <= i < s.len(),
    ensures
        slots_wf(s.remove(i)),
        slot_map(s.remove(i)) == slot_map(s).remove(s[i].0@),
    decreases s.len(),
{
    let t = s.remove(i);
    let k = s[i].0@;
    assert forall|a: int, b: int| 0 <= a < b < t.len() implies #[trigger] t[a].0@ != #[trigger] t[b].0@ by {
        let a0 = if a < i { a } else { a + 1 };
        let b0 = if b < i { b } else { b + 1 };
        assert(t[a] == s[a0] && t[b] == s[b0]);
    }
    assert forall|a: int| 0 <= a < t.len() implies #[trigger] t[a].0@ == composite_key(t[a].1@.scope, t[a].1@.key) by {
        let a0 = if a < i { a } else { a + 1 };
        assert(t[a] == s[a0]);
    }
    if i == s.len() - 1 {
        assert(t =~= s.drop_last());
        assert forall|j: int| 0 <= j < s.drop_last().len() implies #[trigger] s.drop_last()[j].0@ != k by {
            assert(s.drop_last()[j] == s[j]);
        }
        lemma_slot_map_absent(s.drop_last(), k);
        assert(slot_map(t) =~= slot_map(s).remove(k));
    } else {
        assert(slots_wf(s.drop_last()));
        assert(t.drop_last() =~= s.drop_last().remove(i));
        assert(t.last() == s.last());
        assert(s.drop_last()[i] == s[i]);
        lemma_slot_map_remove(s.drop_last(), i);
        assert(s[i].0@ != s[s.len() - 1].0@);
        assert(slot_map(t) =~= slot_map(s).remove(k));
    }
}

proof fn lemma_session_keys_insert(m: Map<Seq<char>, EntryView>, k: Seq<char>, v: EntryView, id: Seq<char>)
    ensures
        session_keys(m.insert(k, v), id) == if starts_with(k, "session:"@ + id + ":"@) {
            session_keys(m, id).insert(k)
        } else {
            session_keys(m, id)
        },
{
    if starts_with(k, "session:"@ + id + ":"@) {
        assert(session_keys(m.insert(k, v), id) =~= session_keys(m, id).insert(k));
    } else {
        assert(session_keys(m.insert(k, v), id) =~= session_keys(m, id));
    }
}

// ── Laws ─────────────────────────────────────────────────────────────────────

/// What was stored globally under `key` is what a lookup of `key` returns,
/// as long as no agent or session entry matches `key`.
pub proof fn global_store_is_read_back(
    before: Map<Seq<char>, EntryView>,
    after: Map<Seq<char>, EntryView>,
    key: Seq<char>,
    value: Seq<u8>,
    agent: u32,
    r: Option<EntryView>,
)
    requires
        stored(before, after, ScopeView::Global, key, value, agent),
        forall|ck: Seq<char>| after.dom().contains(ck) ==> !agent_match(ck, key) && !session_match(ck, key),
        query_result(after, key, r),
    ensures
        r matches Some(e) && e.value == value && e.key == key && e.scope == ScopeView::Global
            && e.source_agent == agent,
{
    assert(composite_key(ScopeView::Global, key) == global_key(key));
}

/// A lookup that finds an agent-scope entry never answers with a session or
/// global one: whenever some agent entry matches, the result is an agent
/// entry for that key.
pub proof fn agent_entries_take_priority(m: Map<Seq<char>, EntryView>, key: Seq<char>, ck: Seq<char>, r: Option<EntryView>)
    requires
        keyed_by_scope(m),
        m.dom().contains(ck),
        agent_match(ck, key),
        query_result(m, key, r),
    ensures
        r matches Some(e) && e.scope is Agent,
{
    let k = choose|k: Seq<char>| m.dom().contains(k) && agent_match(k, key) && r == Some(m[k]);
    assert(k == composite_key(m[k].scope, m[k].key));
    reveal_strlit("agent:");
    reveal_strlit("global");
    reveal_strlit("session:");
    assert(k.subrange(0, 6) == "agent:"@);
    assert(k[0] == k.subrange(0, 6)[0]);
    if !(m[k].scope is Agent) {
        assert(k[0] == 'a');
        match m[k].scope {
            ScopeView::Global => assert(k[0] == 'g'),
            ScopeView::Session(_) => assert(k[0] == 's'),
            _ => {},
        }
    }
}

/// Once a session is archived, no live entry belongs to it.
pub proof fn archived_session_leaves_no_entry(m: Map<Seq<char>, EntryView>, id: Seq<char>, key: Seq<char>)
    ensures
        !m.remove_keys(session_keys(m, id)).dom().contains(composite_key(ScopeView::Session(id), key)),
{
    let ck = composite_key(ScopeView::Session(id), key);
    let pre = "session:"@ + id + ":"@;
    assert(ck =~= pre + key);
    assert(ck.subrange(0, pre.len() as int) =~= pre);
}

// ── Trusted outside calls ────────────────────────────────────────────────────

/// `chrono::Utc::now().to_rfc3339()`: the current time as text. Nothing is
/// claimed of it.
#[verifier::external_body]
fn now_rfc3339() -> (s: String) {
    chrono::Utc::now().to_rfc3339()
}

/// What `String::from_utf8_lossy` makes of `bytes`.
pub uninterp spec fn utf8_lossy(bytes: Seq<u8>) -> Seq<char>;

/// `String::from_utf8_lossy(..).into_owned()`. Claimed: the result is
/// `utf8_lossy` of the bytes, and valid UTF-8 is decoded as it stands.
#[verifier::external_body]
fn from_utf8_lossy(bytes: &[u8]) -> (s: String)
    ensures
        s@ == utf8_lossy(bytes@),
        valid_utf8(bytes@) ==> s@ == decode_utf8(bytes@),
{
    String::from_utf8_lossy(bytes).into_owned()
}

// ── Helpers ──────────────────────────────────────────────────────────────────

fn clone_scope(s: &MemoryScope) -> (r: MemoryScope)
    ensures
        r@ == s@,
{
    match s {
        MemoryScope::Global => MemoryScope::Global,
        MemoryScope::Session(id) => MemoryScope::Session(to_string(id.as_str())),
        MemoryScope::Agent(pid) => MemoryScope::Agent(*pid),
    }
}

fn clone_entry(e: &MemoryEntry) -> (r: MemoryEntry)
    ensures
        r@ == e@,
{
    MemoryEntry {
        key: to_string(e.key.as_str()),
        value: slice_to_vec(e.value.as_slice()),
        scope: clone_scope(&e.scope),
        timestamp: to_string(e.timestamp.as_str()),
        source_agent: e.source_agent,
    }
}

pub(crate) fn prefix_string(scope: &MemoryScope) -> (p: String)
    ensures
        p@ == scope_prefix(scope@),
{
    match scope {
        MemoryScope::Global => to_string("global"),
        MemoryScope::Session(id) => {
            let mut p = to_string("session:");
            push_string(&mut p, id);
            p
        },
        MemoryScope::Agent(pid) => {
            let mut p = to_string("agent:");
            push_decimal(&mut p, *pid as u64);
            p
        },
    }
}

fn composite_key_string(scope: &MemoryScope, key: &str) -> (ck: String)
    ensures
        ck@ == composite_key(scope@, key@),
{
    let mut ck = prefix_string(scope);
    push_str(&mut ck, ":");
    push_str(&mut ck, key);
    ck
}

/// Index of the slot under `k`.
fn find_key(v: &Vec<(String, MemoryEntry)>, k: &String) -> (r: Option<usize>)
    ensures
        r matches Some(i) ==> i < v@.len() && v@[i as int].0@ == k@,
        r is None ==> forall|j: int| 0 <= j < v@.len() ==> #[trigger] v@[j].0@ != k@,
{
    let mut i: usize = 0;
    while i < v.len()
        invariant
            i <= v.len(),
            forall|j: int| 0 <= j < i ==> #[trigger] v@[j].0@ != k@,
        decreases v.len() - i,
    {
        if str_eq(v[i].0.as_str(), k.as_str()) {
            return Some(i);
        }
        i = i + 1;
    }
    None
}

/// Sets the slot for `ck` to `e`, replacing an existing one.
fn put_slot(v: &mut Vec<(String, MemoryEntry)>, ck: String, e: MemoryEntry)
    requires
        slots_wf(old(v)@),
        ck@ == composite_key(e@.scope, e@.key),
    ensures
        slots_wf(final(v)@),
        slot_map(final(v)@) == slot_map(old(v)@).insert(ck@, e@),
{
    match find_key(v, &ck) {
        Some(i) => {
            let ghost x = (ck, e);
            proof {
                lemma_slot_map_update(v@, i as int, x);
            }
            v.set(i, (ck, e));
            proof {
                assert(v@ =~= old(v)@.update(i as int, x));
                assert forall|a: int, b: int| 0 <= a < b < v@.len() implies #[trigger] v@[a].0@ != #[trigger] v@[b].0@ by {
                    assert(old(v)@[a].0@ != old(v)@[b].0@);
                }
            }
        },
        None => {
            v.push((ck, e));
            proof {
                assert(v@.drop_last() =~= old(v)@);
            }
        },
    }
}

/// First slot whose composite key starts with `pre` and ends with `suf`.
fn find_slot(v: &Vec<(String, MemoryEntry)>, pre: &Vec<char>, suf: &Vec<char>) -> (r: Option<usize>)
    ensures
        r matches Some(i) ==> i < v@.len() && starts_with(v@[i as int].0@, pre@) && ends_with(v@[i as int].0@, suf@),
        r is None ==> forall|i: int| 0 <= i < v@.len() ==> !(starts_with(#[trigger] v@[i].0@, pre@) && ends_with(v@[i].0@, suf@)),
{
    let mut i: usize = 0;
    while i < v.len()
        invariant
            i <= v.len(),
            forall|j: int| 0 <= j < i ==> !(starts_with(#[trigger] v@[j].0@, pre@) && ends_with(v@[j].0@, suf@)),
        decreases v.len() - i,
    {
        let ck = chars_of(v[i].0.as_str());
        if starts_with_exec(&ck, pre) && ends_with_exec(&ck, suf) {
            return Some(i);
        }
        i = i + 1;
    }
    None
}

// ── In-memory store ──────────────────────────────────────────────────────────

/// Memory held in this process: live entries and archived session entries,
/// each under its composite key.
pub struct InMemoryStore {
    entries: Vec<(String, MemoryEntry)>,
    archive: Vec<(String, MemoryEntry)>,
}

impl InMemoryStore {
    #[verifier::type_invariant]
    spec fn wf(&self) -> bool {
        slots_wf(self.entries@) && slots_wf(self.archive@)
    }

    /// Live entries by composite key.
    pub closed spec fn live(&self) -> Map<Seq<char>, EntryView> {
        slot_map(self.entries@)
    }

    /// Archived entries by composite key.
    pub closed spec fn archived(&self) -> Map<Seq<char>, EntryView> {
        slot_map(self.archive@)
    }

    pub fn new() -> (s: Self)
        ensures
            s.live() == Map::<Seq<char>, EntryView>::empty(),
            s.archived() == Map::<Seq<char>, EntryView>::empty(),
    {
        InMemoryStore { entries: Vec::new(), archive: Vec::new() }
    }

    /// Stores `value` under (`scope`, `key`), replacing what was there.
    pub fn store(&mut self, scope: MemoryScope, key: &str, value: &[u8], source_agent: u32) -> (r: Result<(), MemoryError>)
        ensures
            r is Ok,
            stored(old(self).live(), final(self).live(), scope@, key@, value@, source_agent),
            final(self).archived() == old(self).archived(),
            keyed_by_scope(final(self).live()),
    {
        proof {
            use_type_invariant(&*self);
        }
        let ck = composite_key_string(&scope, key);
        let entry = MemoryEntry {
            key: to_string(key),
            value: slice_to_vec(value),
            scope,
            timestamp: now_rfc3339(),
            source_agent,
        };
        let ghost e = entry@;
        let mut slots: Vec<(String, MemoryEntry)> = Vec::new();
        std::mem::swap(&mut slots, &mut self.entries);
        put_slot(&mut slots, ck, entry);
        self.entries = slots;
        proof {
            lemma_slot_map_keyed(self.entries@);
            let ckv = composite_key(scope@, key@);
            assert(self.live() == old(self).live().insert(ckv, e));
            assert(self.live()[ckv] == e);
        }
        Ok(())
    }

    /// Looks `key` up: agent entries first, then session entries, then the
    /// global one.
    pub fn query(&self, key: &str) -> (r: Result<Option<MemoryEntry>, MemoryError>)
        ensures
            keyed_by_scope(self.live()),
            r matches Ok(found) && query_result(
                self.live(),
                key@,
                match found {
                    Some(e) => Some(e@),
                    None => None,
                },
            ),
    {
        proof {
            use_type_invariant(self);
            lemma_slot_map_keyed(self.entries@);
        }
        let mut suffix = to_string(":");
        push_str(&mut suffix, key);
        let suf = chars_of(suffix.as_str());
        let agent_pre = chars_of("agent:");
        let session_pre = chars_of("session:");
        proof {
            reveal_strlit("agent:");
            reveal_strlit("session:");
        }
        let ghost m = self.live();
        match find_slot(&self.entries, &agent_pre, &suf) {
            Some(i) => {
                let e = clone_entry(&self.entries[i].1);
                proof {
                    lemma_slot_map_index(self.entries@, i as int);
                    let ck = self.entries@[i as int].0@;
                    assert(m.dom().contains(ck) && agent_match(ck, key@) && Some(e@) == Some(m[ck]));
                }
                return Ok(Some(e));
            },
            None => {},
        }
        proof {
            assert forall|ck: Seq<char>| m.dom().contains(ck) implies !agent_match(ck, key@) by {
                lemma_slot_map_dom(self.entries@, ck);
            }
        }
        match find_slot(&self.entries, &session_pre, &suf) {
            Some(i) => {
                let e = clone_entry(&self.entries[i].1);
                proof {
                    lemma_slot_map_index(self.entries@, i as int);
                    let ck = self.entries@[i as int].0@;
                    assert(m.dom().contains(ck) && session_match(ck, key@) && Some(e@) == Some(m[ck]));
                }
                return Ok(Some(e));
            },
            None => {},
        }
        proof {
            assert forall|ck: Seq<char>| m.dom().contains(ck) implies !session_match(ck, key@) by {
                lemma_slot_map_dom(self.entries@, ck);
            }
        }
        let mut gk = to_string("global:");
        push_str(&mut gk, key);
        proof {
            reveal_strlit("global:");
            reveal_strlit("global");
            reveal_strlit(":");
            assert(gk@ =~= global_key(key@));
        }
        match find_key(&self.entries, &gk) {
            Some(i) => {
                proof {
                    lemma_slot_map_index(self.entries@, i as int);
                }
                Ok(Some(clone_entry(&self.entries[i].1)))
            },
            None => {
                proof {
                    lemma_slot_map_absent(self.entries@, gk@);
                }
                Ok(None)
            },
        }
    }

    /// Drops the live entry under composite key `ck`, if there is one.
    fn forget(&mut self, ck: &String)
        ensures
            final(self).live() == old(self).live().remove(ck@),
            final(self).archived() == old(self).archived(),
    {
        proof {
            use_type_invariant(&*self);
        }
        let mut slots: Vec<(String, MemoryEntry)> = Vec::new();
        std::mem::swap(&mut slots, &mut self.entries);
        match find_key(&slots, ck) {
            Some(i) => {
                proof {
                    lemma_slot_map_remove(slots@, i as int);
                }
                let _gone = slots.remove(i);
            },
            None => {
                proof {
                    lemma_slot_map_absent(slots@, ck@);
                    assert(slot_map(slots@).remove(ck@) =~= slot_map(slots@));
                }
            },
        }
        self.entries = slots;
    }

    /// Moves every entry of session `session_id` into the archive, replacing
    /// archived entries with the same composite key.
    pub fn archive_session(&mut self, session_id: &str) -> (r: Result<(), MemoryError>)
        ensures
            r is Ok,
            keyed_by_scope(final(self).live()),
            keyed_by_scope(final(self).archived()),
            final(self).live() == old(self).live().remove_keys(session_keys(old(self).live(), session_id@)),
            final(self).archived() == old(self).archived().union_prefer_right(
                old(self).live().restrict(session_keys(old(self).live(), session_id@)),
            ),
    {
        proof {
            use_type_invariant(&*self);
        }
        let mut prefix = to_string("session:");
        push_str(&mut prefix, session_id);
        push_str(&mut prefix, ":");
        let pre = chars_of(prefix.as_str());
        let ghost p = "session:"@ + session_id@ + ":"@;
        assert(pre@ =~= p);
        let ghost s = self.entries@;
        let ghost a0 = self.archived();
        let mut arch: Vec<(String, MemoryEntry)> = Vec::new();
        std::mem::swap(&mut arch, &mut self.archive);
        proof {
            assert(s.take(0) =~= Seq::<(String, MemoryEntry)>::empty());
            let m0 = slot_map(s.take(0));
            assert(m0.remove_keys(session_keys(m0, session_id@)) =~= Map::<Seq<char>, EntryView>::empty());
            assert(a0.union_prefer_right(m0.restrict(session_keys(m0, session_id@))) =~= a0);
        }
        let mut kept: Vec<(String, MemoryEntry)> = Vec::new();
        let mut old_entries: Vec<(String, MemoryEntry)> = Vec::new();
        std::mem::swap(&mut old_entries, &mut self.entries);
        let n = old_entries.len();
        let mut i: usize = 0;
        while i < n
            invariant
                n == s.len(),
                old_entries@ == s,
                slots_wf(s),
                pre@ == p,
                p == "session:"@ + session_id@ + ":"@,
                i <= n,
                slots_wf(kept@),
                slots_wf(arch@),
                forall|j: int| 0 <= j < kept@.len() ==> exists|l: int| 0 <= l < i && #[trigger] kept@[j].0@ == s[l].0@,
                slot_map(kept@) == slot_map(s.take(i as int)).remove_keys(session_keys(slot_map(s.take(i as int)), session_id@)),
                slot_map(arch@) == a0.union_prefer_right(
                    slot_map(s.take(i as int)).restrict(session_keys(slot_map(s.take(i as int)), session_id@)),
                ),
            decreases n - i,
        {
            let ghost mi = slot_map(s.take(i as int));
            let ghost ki = s[i as int].0@;
            let ghost ei = s[i as int].1@;
            assert(s.take(i + 1).drop_last() =~= s.take(i as int));
            assert(slot_map(s.take(i + 1)) == mi.insert(ki, ei));
            let ck = clone_slot_key(&old_entries[i].0);
            let e = clone_entry(&old_entries[i].1);
            let ckv = chars_of(ck.as_str());
            if starts_with_exec(&ckv, &pre) {
                assert(ckv@ == ki && starts_with(ki, p));
                put_slot(&mut arch, ck, e);
                proof {
                    let m2 = mi.insert(ki, ei);
                    lemma_session_keys_insert(mi, ki, ei, session_id@);
                    assert(session_keys(m2, session_id@) =~= session_keys(mi, session_id@).insert(ki));
                    assert(m2.remove_keys(session_keys(m2, session_id@)) =~= mi.remove_keys(session_keys(mi, session_id@)));
                    assert(a0.union_prefer_right(m2.restrict(session_keys(m2, session_id@))) =~= a0.union_prefer_right(
                        mi.restrict(session_keys(mi, session_id@))).insert(ki, ei));
                }
            } else {
                assert(ckv@ == ki && !starts_with(ki, p));
                proof {
                    assert forall|j: int| 0 <= j < kept@.len() implies #[trigger] kept@[j].0@ != ki by {
                        let l = choose|l: int| 0 <= l < i && #[trigger] kept@[j].0@ == s[l].0@;
                        assert(s[l].0@ != s[i as int].0@);
                    }
                }
                let ghost kept_before = kept@;
                kept.push((ck, e));
                proof {
                    assert(kept@.drop_last() =~= kept_before);
                    let m2 = mi.insert(ki, ei);
                    lemma_session_keys_insert(mi, ki, ei, session_id@);
                    assert(session_keys(m2, session_id@) =~= session_keys(mi, session_id@));
                    assert(m2.remove_keys(session_keys(m2, session_id@)) =~= mi.remove_keys(session_keys(mi, session_id@)).insert(ki, ei));
                    assert(m2.restrict(session_keys(m2, session_id@)) =~= mi.restrict(session_keys(mi, session_id@)));
                    assert forall|j: int| 0 <= j < kept@.len() implies exists|l: int| 0 <= l < i + 1 && #[trigger] kept@[j].0@ == s[l].0@ by {
                        if j == kept@.len() - 1 {
                            assert(kept@[j].0@ == s[i as int].0@);
                        } else {
                            assert(kept@[j] == kept_before[j]);
                        }
                    }
                }
            }
            i = i + 1;
        }
        proof {
            assert(s.take(n as int) =~= s);
            lemma_slot_map_keyed(kept@);
            lemma_slot_map_keyed(arch@);
        }
        self.entries = kept;
        self.archive = arch;
        Ok(())
    }

    /// The archived entries of session `session_id`.
    pub fn archived_entries(&self, session_id: &str) -> (r: Vec<MemoryEntry>)
        ensures
            forall|i: int| 0 <= i < r@.len() ==> #[trigger] in_session(self.archived(), session_id@, r@[i]@),
            forall|k: Seq<char>| #[trigger] session_keys(self.archived(), session_id@).contains(k) ==> exists|i: int|
                0 <= i < r@.len() && r@[i]@ == self.archived()[k],
            forall|i: int, j: int| 0 <= i < j < r@.len() ==> composite_key(r@[i]@.scope, r@[i]@.key)
                != composite_key(r@[j]@.scope, r@[j]@.key),
    {
        proof {
            use_type_invariant(self);
        }
        let mut prefix = to_string("session:");
        push_str(&mut prefix, session_id);
        push_str(&mut prefix, ":");
        let pre = chars_of(prefix.as_str());
        let ghost p = "session:"@ + session_id@ + ":"@;
        assert(pre@ =~= p);
        let ghost a = self.archive@;
        let ghost am = self.archived();
        let mut out: Vec<MemoryEntry> = Vec::new();
        let ghost mut idx: Seq<int> = Seq::empty();
        let mut i: usize = 0;
        while i < self.archive.len()
            invariant
                slots_wf(a),
                a == self.archive@,
                am == self.archived(),
                pre@ == p,
                p == "session:"@ + session_id@ + ":"@,
                i <= a.len(),
                idx.len() == out@.len(),
                forall|j: int| 0 <= j < idx.len() ==> 0 <= #[trigger] idx[j] < i && out@[j]@ == a[idx[j]].1@
                    && starts_with(a[idx[j]].0@, p),
                forall|j1: int, j2: int| 0 <= j1 < j2 < idx.len() ==> #[trigger] idx[j1] < #[trigger] idx[j2],
                forall|l: int| 0 <= l < i && starts_with(#[trigger] a[l].0@, p) ==> exists|j: int| 0 <= j < idx.len() && idx[j] == l,
            decreases a.len() - i,
        {
            let ckv = chars_of(self.archive[i].0.as_str());
            if starts_with_exec(&ckv, &pre) {
                let e = clone_entry(&self.archive[i].1);
                let ghost out_before = out@;
                let ghost idx_before = idx;
                out.push(e);
                proof {
                    idx = idx.push(i as int);
                    assert forall|j: int| 0 <= j < idx.len() implies 0 <= #[trigger] idx[j] < i + 1 && out@[j]@ == a[idx[j]].1@
                        && starts_with(a[idx[j]].0@, p) by {
                        if j < idx_before.len() {
                            assert(out@[j] == out_before[j]);
                        }
                    }
                    assert forall|l: int| 0 <= l < i + 1 && starts_with(#[trigger] a[l].0@, p) implies exists|j: int|
                        0 <= j < idx.len() && idx[j] == l by {
                        if l == i {
                            assert(idx[idx.len() - 1] == l);
                        } else {
                            let j = choose|j: int| 0 <= j < idx_before.len() && idx_before[j] == l;
                            assert(idx[j] == l);
                        }
                    }
                }
            }
            i = i + 1;
        }
        proof {
            assert forall|j: int| 0 <= j < out@.len() implies #[trigger] in_session(self.archived(), session_id@, out@[j]@) by {
                lemma_slot_map_index(a, idx[j]);
                let k = a[idx[j]].0@;
                assert(session_keys(self.archived(), session_id@).contains(k) && self.archived()[k] == out@[j]@);
            }
            assert forall|k: Seq<char>| #[trigger] session_keys(am, session_id@).contains(k) implies exists|j: int|
                0 <= j < out@.len() && out@[j]@ == am[k] by {
                lemma_slot_map_dom(a, k);
                let l = choose|l: int| 0 <= l < a.len() && #[trigger] a[l].0@ == k;
                lemma_slot_map_index(a, l);
                let j = choose|j: int| 0 <= j < idx.len() && idx[j] == l;
                assert(out@[j]@ == am[k]);
            }
            assert forall|j1: int, j2: int| 0 <= j1 < j2 < out@.len() implies composite_key(out@[j1]@.scope, out@[j1]@.key)
                != composite_key(out@[j2]@.scope, out@[j2]@.key) by {
                assert(idx[j1] < idx[j2]);
                assert(a[idx[j1]].0@ != a[idx[j2]].0@);
            }
        }
        out
    }
}

impl InMemoryStore {
    /// Every live entry, each once.
    pub fn live_entries(&self) -> (r: Vec<MemoryEntry>)
        ensures
            lists_live(self.live(), r@.map_values(|e: MemoryEntry| e@)),
    {
        proof {
            use_type_invariant(self);
        }
        let ghost a = self.entries@;
        let mut out: Vec<MemoryEntry> = Vec::new();
        let mut i: usize = 0;
        while i < self.entries.len()
            invariant
                a == self.entries@,
                slots_wf(a),
                i <= a.len(),
                out@.len() == i,
                forall|j: int| 0 <= j < i ==> #[trigger] out@[j]@ == a[j].1@,
            decreases a.len() - i,
        {
            out.push(clone_entry(&self.entries[i].1));
            i = i + 1;
        }
        proof {
            let vs = out@.map_values(|e: MemoryEntry| e@);
            let m = self.live();
            assert forall|j: int| 0 <= j < vs.len() implies #[trigger] m.dom().contains(a[j].0@) && m[a[j].0@] == vs[j] by {
                lemma_slot_map_index(a, j);
            }
            assert forall|k: Seq<char>| #[trigger] m.dom().contains(k) implies exists|j: int| 0 <= j < vs.len() && a[j].0@ == k by {
                lemma_slot_map_dom(a, k);
            }
            lemma_lists_live(m, vs, a);
        }
        out
    }
}

/// `v` is the entry under some key of `m`.
pub open spec fn live_value(m: Map<Seq<char>, EntryView>, v: EntryView) -> bool {
    exists|k: Seq<char>| #[trigger] m.dom().contains(k) && m[k] == v
}

/// Some entry of `m` has key `key` and a value whose text is `text`.
pub open spec fn live_text(m: Map<Seq<char>, EntryView>, key: Seq<char>, text: Seq<char>) -> bool {
    exists|k: Seq<char>| #[trigger] m.dom().contains(k) && m[k].key == key && text == utf8_lossy(m[k].value)
}

/// `vs` holds the live entries of `m`, each once.
pub open spec fn lists_live(m: Map<Seq<char>, EntryView>, vs: Seq<EntryView>) -> bool {
    &&& forall|j: int| 0 <= j < vs.len() ==> #[trigger] live_value(m, vs[j])
    &&& forall|k: Seq<char>| #[trigger] m.dom().contains(k) ==> exists|j: int| 0 <= j < vs.len() && vs[j] == m[k]
    &&& vs.len() == m.dom().len()
}

proof fn lemma_lists_live(m: Map<Seq<char>, EntryView>, vs: Seq<EntryView>, a: Seq<(String, MemoryEntry)>)
    requires
        slots_wf(a),
        m == slot_map(a),
        vs.len() == a.len(),
        forall|j: int| 0 <= j < vs.len() ==> #[trigger] m.dom().contains(a[j].0@) && m[a[j].0@] == vs[j],
        forall|k: Seq<char>| #[trigger] m.dom().contains(k) ==> exists|j: int| 0 <= j < vs.len() && a[j].0@ == k,
    ensures
        lists_live(m, vs),
{
    assert forall|j: int| 0 <= j < vs.len() implies #[trigger] live_value(m, vs[j]) by {
        assert(m.dom().contains(a[j].0@));
    }
    assert forall|k: Seq<char>| #[trigger] m.dom().contains(k) implies exists|j: int| 0 <= j < vs.len() && vs[j] == m[k] by {
        let j = choose|j: int| 0 <= j < vs.len() && a[j].0@ == k;
        assert(m.dom().contains(a[j].0@));
    }
    lemma_slot_map_len(a);
}

proof fn lemma_slot_map_len(a: Seq<(String, MemoryEntry)>)
    requires
        slots_wf(a),
    ensures
        slot_map(a).dom().finite(),
        slot_map(a).dom().len() == a.len(),
    decreases a.len(),
{
    if a.len() > 0 {
        let b = a.drop_last();
        assert(slots_wf(b));
        lemma_slot_map_len(b);
        assert forall|j: int| 0 <= j < b.len() implies #[trigger] b[j].0@ != a.last().0@ by {
            assert(a[j].0@ != a[a.len() - 1].0@);
        }
        lemma_slot_map_absent(b, a.last().0@);
    }
}

// ── Aura-backed store ────────────────────────────────────────────────────────

/// `r` is what reading `key` as text gives: the lossy UTF-8 text of the
/// value a lookup finds (its exact text when the bytes are valid UTF-8), or
/// nothing.
pub open spec fn kv_read(m: Map<Seq<char>, EntryView>, key: Seq<char>, r: Option<Seq<char>>) -> bool {
    exists|e: Option<EntryView>|
        #[trigger] query_result(m, key, e) && match (e, r) {
            (Some(x), Some(t)) => t == utf8_lossy(x.value) && (valid_utf8(x.value) ==> t == decode_utf8(x.value)),
            (None, None) => true,
            _ => false,
        }
}

/// Text stored with `store_kv` under a key that no agent or session entry
/// matches reads back unchanged.
pub proof fn kv_store_is_read_back(
    before: Map<Seq<char>, EntryView>,
    after: Map<Seq<char>, EntryView>,
    key: Seq<char>,
    value: Seq<char>,
    r: Option<Seq<char>>,
)
    requires
        stored(before, after, ScopeView::Global, key, encode_utf8(value), 0),
        forall|ck: Seq<char>| after.dom().contains(ck) ==> !agent_match(ck, key) && !session_match(ck, key),
        kv_read(after, key, r),
    ensures
        r == Some(value),
{
    let e = choose|e: Option<EntryView>| #[trigger] query_result(after, key, e) && match (e, r) {
        (Some(x), Some(t)) => t == utf8_lossy(x.value) && (valid_utf8(x.value) ==> t == decode_utf8(x.value)),
        (None, None) => true,
        _ => false,
    };
    global_store_is_read_back(before, after, key, encode_utf8(value), 0, e);
    encode_utf8_valid_utf8(value);
    encode_utf8_decode_utf8(value);
}

/// Over a history of stores, an agent entry keeps priority: once `key` is
/// stored in an agent's scope, a lookup of `key` answers with an agent
/// entry, whatever is stored afterwards in the session or global scope.
pub proof fn agent_store_outranks_later_stores(
    m0: Map<Seq<char>, EntryView>,
    m1: Map<Seq<char>, EntryView>,
    later: Seq<(ScopeView, Seq<char>, Seq<u8>, u32)>,
    states: Seq<Map<Seq<char>, EntryView>>,
    key: Seq<char>,
    pid: u32,
    value: Seq<u8>,
    agent: u32,
    r: Option<EntryView>,
)
    requires
        stored(m0, m1, ScopeView::Agent(pid), key, value, agent),
        states.len() == later.len() + 1,
        states[0] == m1,
        forall|k: int| 0 <= k < later.len() ==> !((#[trigger] later[k]).0 is Agent) && stored(
            states[k],
            states[k + 1],
            later[k].0,
            later[k].1,
            later[k].2,
            later[k].3,
        ),
        keyed_by_scope(states.last()),
        query_result(states.last(), key, r),
    ensures
        r matches Some(e) && e.scope is Agent,
{
    let ck = composite_key(ScopeView::Agent(pid), key);
    assert forall|k: int| 0 <= k <= later.len() implies #[trigger] states[k].dom().contains(ck) by {
        lemma_key_stays(states, later, ck, k);
    }
    reveal_strlit("agent:");
    reveal_strlit(":");
    assert(ck =~= "agent:"@ + (dec(pid as nat) + ":"@ + key));
    assert(ck.subrange(0, 6) =~= "agent:"@);
    assert(ck.subrange(ck.len() - (":"@ + key).len(), ck.len() as int) =~= ":"@ + key);
    assert(agent_match(ck, key));
    agent_entries_take_priority(states.last(), key, ck, r);
}

proof fn lemma_key_stays(
    states: Seq<Map<Seq<char>, EntryView>>,
    later: Seq<(ScopeView, Seq<char>, Seq<u8>, u32)>,
    ck: Seq<char>,
    k: int,
)
    requires
        states.len() == later.len() + 1,
        states[0].dom().contains(ck),
        forall|j: int| 0 <= j < later.len() ==> !((#[trigger] later[j]).0 is Agent) && stored(
            states[j],
            states[j + 1],
            later[j].0,
            later[j].1,
            later[j].2,
            later[j].3,
        ),
        0 <= k <= later.len(),
    ensures
        states[k].dom().contains(ck),
    decreases k,
{
    if k > 0 {
        lemma_key_stays(states, later, ck, k - 1);
        assert(!(later[k - 1].0 is Agent));
    }
}

// ── Lookups after a run of stores ────────────────────────────────────────────

/// One `store` call: scope, key, value and the storing agent.
pub type StoreCall = (ScopeView, Seq<char>, Seq<u8>, u32);

/// The composite key a store call writes.
pub open spec fn call_key(c: StoreCall) -> Seq<char> {
    composite_key(c.0, c.1)
}

/// The index of the last of the first `n` calls that wrote `ck`, or -1.
pub open spec fn last_call(calls: Seq<StoreCall>, n: int, ck: Seq<char>) -> int
    decreases n,
{
    if n <= 0 {
        -1
    } else if call_key(calls[n - 1]) == ck {
        n - 1
    } else {
        last_call(calls, n - 1, ck)
    }
}

/// `maps` are the live entries after each of `calls` in turn, from none.
pub open spec fn stores_from_empty(calls: Seq<StoreCall>, maps: Seq<Map<Seq<char>, EntryView>>) -> bool {
    &&& maps.len() == calls.len() + 1
    &&& maps[0] == Map::<Seq<char>, EntryView>::empty()
    &&& forall|i: int|
        0 <= i < calls.len() ==> stored(
            maps[i],
            maps[i + 1],
            (#[trigger] calls[i]).0,
            calls[i].1,
            calls[i].2,
            calls[i].3,
        )
}

proof fn lemma_last_call(calls: Seq<StoreCall>, n: int, ck: Seq<char>)
    requires
        0 <= n <= calls.len(),
    ensures
        last_call(calls, n, ck) < n,
        last_call(calls, n, ck) >= 0 ==> call_key(calls[last_call(calls, n, ck)]) == ck && forall|j: int|
            last_call(calls, n, ck) < j < n ==> call_key(#[trigger] calls[j]) != ck,
        last_call(calls, n, ck) < 0 ==> forall|j: int| 0 <= j < n ==> call_key(#[trigger] calls[j]) != ck,
    decreases n,
{
    if n > 0 {
        lemma_last_call(calls, n - 1, ck);
    }
}

proof fn lemma_map_after_calls(calls: Seq<StoreCall>, maps: Seq<Map<Seq<char>, EntryView>>, n: int, ck: Seq<char>)
    requires
        stores_from_empty(calls, maps),
        0 <= n <= calls.len(),
    ensures
        maps[n].dom().contains(ck) <==> last_call(calls, n, ck) >= 0,
        last_call(calls, n, ck) >= 0 ==> ({
            let c = calls[last_call(calls, n, ck)];
            let e = maps[n][ck];
            e.scope == c.0 && e.key == c.1 && e.value == c.2 && e.source_agent == c.3
        }),
    decreases n,
{
    if n > 0 {
        lemma_map_after_calls(calls, maps, n - 1, ck);
        assert(stored(maps[n - 1], maps[n], calls[n - 1].0, calls[n - 1].1, calls[n - 1].2, calls[n - 1].3));
    }
}

/// `s` has no colon.
pub open spec fn no_colon(s: Seq<char>) -> bool {
    !s.contains(':')
}

proof fn lemma_suffix_is_key(p: Seq<char>, key: Seq<char>, k: Seq<char>)
    requires
        no_colon(key),
        no_colon(k),
    ensures
        ends_with(p + ":"@ + key, ":"@ + k) <==> key == k,
{
    reveal_strlit(":");
    let ck = p + ":"@ + key;
    let t = ":"@ + k;
    let n = ck.len();
    if key == k {
        assert(ck.subrange(n - t.len(), n as int) =~= t);
    }
    if ends_with(ck, t) {
        let suf = ck.subrange(n - t.len(), n as int);
        assert(suf == t);
        if k.len() == key.len() {
            assert(suf =~= ":"@ + key);
            assert(key =~= suf.drop_first());
            assert(k =~= t.drop_first());
        } else if k.len() < key.len() {
            let q = key.len() - k.len() - 1;
            assert(suf[0] == ck[n - t.len()]);
            assert(ck[n - t.len()] == key[q]);
            assert(t[0] == ':');
            assert(key.contains(key[q]));
        } else {
            let q = k.len() - key.len();
            assert(ck[p.len() as int] == ':');
            assert(suf[q] == ck[n - t.len() + q]);
            assert(n - t.len() + q == p.len());
            assert(t[q] == k[q - 1]);
            assert(k.contains(k[q - 1]));
        }
    }
}

proof fn lemma_scope_first_char(s: ScopeView, key: Seq<char>)
    ensures
        composite_key(s, key).len() > 0,
        composite_key(s, key)[0] == match s {
            ScopeView::Global => 'g',
            ScopeView::Session(_) => 's',
            ScopeView::Agent(_) => 'a',
        },
{
    reveal_strlit("global");
    reveal_strlit("session:");
    reveal_strlit("agent:");
    reveal_strlit(":");
}

proof fn lemma_matches_of_call(s: ScopeView, key: Seq<char>, k: Seq<char>)
    requires
        no_colon(key),
        no_colon(k),
    ensures
        agent_match(composite_key(s, key), k) <==> s is Agent && key == k,
        session_match(composite_key(s, key), k) <==> s is Session && key == k,
        composite_key(s, key) == global_key(k) <==> s is Global && key == k,
{
    reveal_strlit("global");
    reveal_strlit("session:");
    reveal_strlit("agent:");
    reveal_strlit(":");
    let ck = composite_key(s, key);
    lemma_suffix_is_key(scope_prefix(s), key, k);
    lemma_scope_first_char(s, key);
    match s {
        ScopeView::Agent(pid) => {
            assert(ck.subrange(0, 6) =~= "agent:"@);
        },
        ScopeView::Session(id) => {
            assert(ck.subrange(0, 8) =~= "session:"@);
        },
        ScopeView::Global => {
            if ck == global_key(k) {
                assert(key =~= ck.skip(7));
                assert(k =~= global_key(k).skip(7));
            }
        },
    }
    if starts_with(ck, "agent:"@) {
        assert(ck[0] == ck.subrange(0, 6)[0]);
    }
    if starts_with(ck, "session:"@) {
        assert(ck[0] == ck.subrange(0, 8)[0]);
    }
    if ck == global_key(k) {
        assert(global_key(k)[0] == 'g');
    }
}

/// A lookup after a run of stores, from an empty store and with keys that
/// hold no colon, finds `key` exactly when some store used it; it answers
/// with an agent's entry for `key` if any agent stored one, else a
/// session's, else the global one; and the entry holds the value and agent
/// of the latest store to its scope and key.
pub proof fn query_after_stores(
    calls: Seq<StoreCall>,
    maps: Seq<Map<Seq<char>, EntryView>>,
    key: Seq<char>,
    r: Option<EntryView>,
)
    requires
        stores_from_empty(calls, maps),
        forall|i: int| 0 <= i < calls.len() ==> no_colon(#[trigger] calls[i].1),
        no_colon(key),
        query_result(maps.last(), key, r),
    ensures
        r is None <==> forall|i: int| 0 <= i < calls.len() ==> (#[trigger] calls[i]).1 != key,
        r matches Some(e) ==> e.key == key && exists|i: int|
            0 <= i < calls.len() && (#[trigger] calls[i]).0 == e.scope && calls[i].1 == key && e.value
                == calls[i].2 && e.source_agent == calls[i].3 && forall|j: int|
                i < j < calls.len() ==> !((#[trigger] calls[j]).0 == e.scope && calls[j].1 == key),
        (exists|i: int| 0 <= i < calls.len() && (#[trigger] calls[i]).1 == key && calls[i].0 is Agent) ==> (r matches Some(
            e,
        ) && e.scope is Agent),
        (forall|i: int| 0 <= i < calls.len() && (#[trigger] calls[i]).1 == key ==> calls[i].0 is Session) && (exists|i: int|
            0 <= i < calls.len() && (#[trigger] calls[i]).1 == key) ==> (r matches Some(e) && e.scope is Session),
        (forall|i: int| 0 <= i < calls.len() && (#[trigger] calls[i]).1 == key ==> calls[i].0 is Global) && (exists|i: int|
            0 <= i < calls.len() && (#[trigger] calls[i]).1 == key) ==> (r matches Some(e) && e.scope is Global),
{
    let n = calls.len() as int;
    let m = maps.last();
    assert(m == maps[n]);
    // Every key in the final map was written by a call, and what it holds.
    assert forall|ck: Seq<char>| #[trigger] m.dom().contains(ck) implies 0 <= last_call(calls, n, ck) < n && ({
        let c = calls[last_call(calls, n, ck)];
        m[ck].scope == c.0 && m[ck].key == c.1 && m[ck].value == c.2 && m[ck].source_agent == c.3
            && call_key(c) == ck && forall|j: int| last_call(calls, n, ck) < j < n ==> call_key(#[trigger] calls[j]) != ck
    }) by {
        lemma_map_after_calls(calls, maps, n, ck);
        lemma_last_call(calls, n, ck);
    }
    // Every call's key is in the final map.
    assert forall|i: int| 0 <= i < n implies #[trigger] m.dom().contains(call_key(calls[i])) by {
        lemma_map_after_calls(calls, maps, n, call_key(calls[i]));
        lemma_last_call(calls, n, call_key(calls[i]));
    }
    // What matching a stored key means, given no colons.
    assert forall|ck: Seq<char>| #[trigger] m.dom().contains(ck) implies (agent_match(ck, key) <==> m[ck].scope is Agent
        && m[ck].key == key) && (session_match(ck, key) <==> m[ck].scope is Session && m[ck].key == key) && (ck
        == global_key(key) <==> m[ck].scope is Global && m[ck].key == key) by {
        let l = last_call(calls, n, ck);
        assert(no_colon(calls[l].1));
        lemma_matches_of_call(calls[l].0, calls[l].1, key);
    }
    if let Some(e) = r {
        // The entry answered is some stored entry for `key`.
        let ck = choose|ck: Seq<char>| m.dom().contains(ck) && r == Some(m[ck]) && (agent_match(ck, key) || session_match(ck, key) || ck == global_key(key));
        let l = last_call(calls, n, ck);
        assert(calls[l].0 == e.scope && calls[l].1 == key);
        assert forall|j: int| l < j < n implies !((#[trigger] calls[j]).0 == e.scope && calls[j].1 == key) by {
            assert(call_key(calls[j]) != ck);
        }
    }
    if r is None {
        assert forall|i: int| 0 <= i < n implies (#[trigger] calls[i]).1 != key by {
            let ck = call_key(calls[i]);
            assert(m.dom().contains(ck));
            assert(no_colon(calls[i].1));
            lemma_matches_of_call(calls[i].0, calls[i].1, key);
        }
    }
    if exists|i: int| 0 <= i < n && (#[trigger] calls[i]).1 == key {
        let i = choose|i: int| 0 <= i < n && (#[trigger] calls[i]).1 == key;
        let ck = call_key(calls[i]);
        assert(m.dom().contains(ck));
        assert(no_colon(calls[i].1));
        lemma_matches_of_call(calls[i].0, calls[i].1, key);
    }
    if exists|i: int| 0 <= i < n && (#[trigger] calls[i]).1 == key && calls[i].0 is Agent {
        let i = choose|i: int| 0 <= i < n && (#[trigger] calls[i]).1 == key && calls[i].0 is Agent;
        let ck = call_key(calls[i]);
        assert(m.dom().contains(ck));
        assert(no_colon(calls[i].1));
        lemma_matches_of_call(calls[i].0, calls[i].1, key);
        assert(agent_match(ck, key));
    }
    if (forall|i: int| 0 <= i < n && (#[trigger] calls[i]).1 == key ==> calls[i].0 is Session) && (exists|i: int|
        0 <= i < n && (#[trigger] calls[i]).1 == key) {
        let i = choose|i: int| 0 <= i < n && (#[trigger] calls[i]).1 == key;
        let ck = call_key(calls[i]);
        assert(m.dom().contains(ck));
        assert(no_colon(calls[i].1));
        lemma_matches_of_call(calls[i].0, calls[i].1, key);
        assert(session_match(ck, key));
        assert forall|c: Seq<char>| m.dom().contains(c) implies !agent_match(c, key) by {
            let l = last_call(calls, n, c);
            if agent_match(c, key) {
                assert(calls[l].1 == key);
            }
        }
    }
    if (forall|i: int| 0 <= i < n && (#[trigger] calls[i]).1 == key ==> calls[i].0 is Global) && (exists|i: int|
        0 <= i < n && (#[trigger] calls[i]).1 == key) {
        let i = choose|i: int| 0 <= i < n && (#[trigger] calls[i]).1 == key;
        let ck = call_key(calls[i]);
        assert(m.dom().contains(ck));
        assert(no_colon(calls[i].1));
        lemma_matches_of_call(calls[i].0, calls[i].1, key);
        assert(ck == global_key(key));
        assert forall|c: Seq<char>| m.dom().contains(c) implies !agent_match(c, key) && !session_match(c, key) by {
            let l = last_call(calls, n, c);
            if agent_match(c, key) || session_match(c, key) {
                assert(calls[l].1 == key);
            }
        }
    }
}

/// After `remove(key)`, reading `key` as text gives nothing, as long as no
/// agent or session entry matches `key`.
pub proof fn kv_remove_is_read_back_empty(
    before: Map<Seq<char>, EntryView>,
    after: Map<Seq<char>, EntryView>,
    key: Seq<char>,
    r: Option<Seq<char>>,
)
    requires
        after == before.remove(composite_key(ScopeView::Global, key)),
        forall|ck: Seq<char>| after.dom().contains(ck) ==> !agent_match(ck, key) && !session_match(ck, key),
        kv_read(after, key, r),
    ensures
        r is None,
{
    assert(composite_key(ScopeView::Global, key) == global_key(key));
    assert(!after.dom().contains(global_key(key)));
}

/// The in-process side of the Aura memory bridge: the store used when the
/// `aura` CLI is not installed. The program routes to the CLI itself when it
/// is, and comes here otherwise.
pub struct AuraMemoryStore {
    fallback: InMemoryStore,
}

impl AuraMemoryStore {
    pub closed spec fn fallback_view(&self) -> InMemoryStore {
        self.fallback
    }

    pub fn new() -> (s: Self)
        ensures
            s.fallback_view().live() == Map::<Seq<char>, EntryView>::empty(),
            s.fallback_view().archived() == Map::<Seq<char>, EntryView>::empty(),
    {
        AuraMemoryStore { fallback: InMemoryStore::new() }
    }

    /// The in-process store.
    pub fn fallback(&self) -> (f: &InMemoryStore)
        ensures
            *f == self.fallback_view(),
    {
        &self.fallback
    }

    /// Stores `value`'s UTF-8 bytes globally under `key`.
    pub fn store_kv(&mut self, key: &str, value: &str) -> (ok: bool)
        ensures
            ok,
            stored(old(self).fallback_view().live(), final(self).fallback_view().live(), ScopeView::Global, key@, encode_utf8(value@), 0),
            final(self).fallback_view().archived() == old(self).fallback_view().archived(),
    {
        self.fallback.store(MemoryScope::Global, key, value.as_bytes(), 0).is_ok()
    }

    /// The value found for `key`, as text.
    pub fn get_kv(&self, key: &str) -> (r: Option<String>)
        ensures
            kv_read(self.fallback_view().live(), key@, match r {
                Some(t) => Some(t@),
                None => None,
            }),
    {
        match self.fallback.query(key) {
            Ok(Some(e)) => {
                let t = from_utf8_lossy(e.value.as_slice());
                proof {
                    let x = Some(e@);
                    assert(query_result(self.fallback_view().live(), key@, x));
                }
                Some(t)
            },
            _ => {
                proof {
                    let x: Option<EntryView> = None;
                    assert(query_result(self.fallback_view().live(), key@, x));
                }
                None
            },
        }
    }

    /// Every live entry as (key, text of its value).
    #[verifier::spinoff_prover]
    pub fn list(&self) -> (r: Vec<(String, String)>)
        ensures
            r@.len() == self.fallback_view().live().dom().len(),
            forall|j: int| 0 <= j < r@.len() ==> #[trigger] live_text(self.fallback_view().live(), r@[j].0@, r@[j].1@),
    {
        let es = self.fallback.live_entries();
        let ghost vs = es@.map_values(|e: MemoryEntry| e@);
        let mut out: Vec<(String, String)> = Vec::new();
        let mut i: usize = 0;
        while i < es.len()
            invariant
                i <= es@.len(),
                vs == es@.map_values(|e: MemoryEntry| e@),
                out@.len() == i,
                forall|j: int| 0 <= j < i ==> #[trigger] out@[j].0@ == vs[j].key && out@[j].1@ == utf8_lossy(vs[j].value),
            decreases es@.len() - i,
        {
            let k = to_string(es[i].key.as_str());
            let t = from_utf8_lossy(es[i].value.as_slice());
            let ghost before = out@;
            out.push((k, t));
            proof {
                assert(vs[i as int] == es@[i as int]@);
                assert forall|j: int| 0 <= j < i + 1 implies #[trigger] out@[j].0@ == vs[j].key && out@[j].1@ == utf8_lossy(vs[j].value) by {
                    if j < i {
                        assert(out@[j] == before[j]);
                    }
                }
            }
            i = i + 1;
        }
        proof {
            let m = self.fallback_view().live();
            assert forall|j: int| 0 <= j < out@.len() implies #[trigger] live_text(m, out@[j].0@, out@[j].1@) by {
                assert(live_value(m, vs[j]));
                let k = choose|k: Seq<char>| #[trigger] m.dom().contains(k) && m[k] == vs[j];
                assert(m.dom().contains(k) && out@[j].0@ == m[k].key);
            }
        }
        out
    }

    /// Deletes the global entry for `key`.
    pub fn remove(&mut self, key: &str) -> (ok: bool)
        ensures
            ok,
            final(self).fallback_view().live() == old(self).fallback_view().live().remove(
                composite_key(ScopeView::Global, key@),
            ),
            final(self).fallback_view().archived() == old(self).fallback_view().archived(),
    {
        let ck = composite_key_string(&MemoryScope::Global, key);
        self.fallback.forget(&ck);
        true
    }
}

impl Default for AuraMemoryStore {
    fn default() -> (s: Self)
        ensures
            s.fallback_view().live() == Map::<Seq<char>, EntryView>::empty(),
            s.fallback_view().archived() == Map::<Seq<char>, EntryView>::empty(),
    {
        Self::new()
    }
}

impl SharedMemory for AuraMemoryStore {
    /// Stores in the fallback store, as `InMemoryStore::store` does.
    fn store(&mut self, scope: MemoryScope, key: &str, value: &[u8], source_agent: u32) -> (r: Result<(), MemoryError>)
        ensures
            r is Ok,
            stored(
                old(self).fallback_view().live(),
                final(self).fallback_view().live(),
                scope@,
                key@,
                value@,
                source_agent,
            ),
            final(self).fallback_view().archived() == old(self).fallback_view().archived(),
    {
        self.fallback.store(scope, key, value, source_agent)
    }

    /// Looks `key` up in the fallback store, as `InMemoryStore::query` does.
    fn query(&self, key: &str) -> (r: Result<Option<MemoryEntry>, MemoryError>)
        ensures
            r matches Ok(found) && query_result(
                self.fallback_view().live(),
                key@,
                match found {
                    Some(e) => Some(e@),
                    None => None,
                },
            ),
    {
        self.fallback.query(key)
    }

    /// Archives the session in the fallback store, as
    /// `InMemoryStore::archive_session` does.
    fn archive_session(&mut self, session_id: &str) -> (r: Result<(), MemoryError>)
        ensures
            r is Ok,
            final(self).fallback_view().live() == old(self).fallback_view().live().remove_keys(
                session_keys(old(self).fallback_view().live(), session_id@),
            ),
            final(self).fallback_view().archived() == old(self).fallback_view().archived().union_prefer_right(
                old(self).fallback_view().live().restrict(session_keys(old(self).fallback_view().live(), session_id@)),
            ),
    {
        self.fallback.archive_session(session_id)
    }
}

fn clone_slot_key(s: &String) -> (r: String)
    ensures
        r@ == s@,
{
    to_string(s.as_str())
}

impl Default for InMemoryStore {
    fn default() -> (s: Self)
        ensures
            s.live() == Map::<Seq<char>, EntryView>::empty(),
            s.archived() == Map::<Seq<char>, EntryView>::empty(),
    {
        Self::new()
    }
}

impl SharedMemory for InMemoryStore {
    /// `InMemoryStore::store`.
    fn store(&mut self, scope: MemoryScope, key: &str, value: &[u8], source_agent: u32) -> (r: Result<(), MemoryError>)
        ensures
            r is Ok,
            stored(old(self).live(), final(self).live(), scope@, key@, value@, source_agent),
            final(self).archived() == old(self).archived(),
            keyed_by_scope(final(self).live()),
    {
        InMemoryStore::store(self, scope, key, value, source_agent)
    }

    /// `InMemoryStore::query`.
    fn query(&self, key: &str) -> (r: Result<Option<MemoryEntry>, MemoryError>)
        ensures
            keyed_by_scope(self.live()),
            r matches Ok(found) && query_result(
                self.live(),
                key@,
                match found {
                    Some(e) => Some(e@),
                    None => None,
                },
            ),
    {
        InMemoryStore::query(self, key)
    }

    /// `InMemoryStore::archive_session`.
    fn archive_session(&mut self, session_id: &str) -> (r: Result<(), MemoryError>)
        ensures
            r is Ok,
            keyed_by_scope(final(self).live()),
            keyed_by_scope(final(self).archived()),
            final(self).live() == old(self).live().remove_keys(session_keys(old(self).live(), session_id@)),
            final(self).archived() == old(self).archived().union_prefer_right(
                old(self).live().restrict(session_keys(old(self).live(), session_id@)),
            ),
    {
        InMemoryStore::archive_session(self, session_id)
    }
}


/// The message a memory error displays.
pub open spec fn memory_error_text(e: MemoryError) -> Seq<char> {
    match e {
        MemoryError::KeyNotFound(m) => "key not found: "@ + m@,
        MemoryError::LockPoisoned => "lock poisoned"@,
        MemoryError::InvalidParams(m) => "invalid params: "@ + m@,
    }
}

impl MemoryError {
    /// The error's message, as the program prints it.
    pub fn message(&self) -> (s: String)
        ensures
            s@ == memory_error_text(*self),
    {
        match self {
            MemoryError::KeyNotFound(m) => crate::error::prefixed("key not found: ", m),
            MemoryError::LockPoisoned => crate::text::to_string("lock poisoned"),
            MemoryError::InvalidParams(m) => crate::error::prefixed("invalid params: ", m),
        }
    }
}

} // verus!
