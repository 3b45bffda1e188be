//! Context compression. The sqz tool compresses when it is installed; the
//! built-in fallback drops repeated sentences and keeps the last words that
//! fit the token budget. Results are cached by the SHA-256 of the context,
//! and tokens processed and saved are counted per agent. Running sqz is the
//! program's work; it hands sqz's output here.
use std::collections::HashMap;
use vstd::prelude::*;
use vstd::utf8::encode_utf8;

use crate::signature::{hex_encode, hex_lower, sha256, sha256_digest};
use crate::text::{
    char_is_ws, chars_of, is_ws, push_str, push_string, split_exec, split_on, str_eq, string_of_range, to_string, trim, trim_bounds, trim_end,
};

verus! {

broadcast use vstd::std_specs::hash::group_hash_axioms;

#[derive(Debug)]
pub enum CompressError {
    Internal(String),
}

impl CompressError {
    /// The error's message, as the program prints it.
    pub fn message(&self) -> (s: String)
        ensures
            s@ == match *self {
                CompressError::Internal(m) => "compression failed: "@ + m@,
            },
    {
        match self {
            CompressError::Internal(m) => {
                let mut s = to_string("compression failed: ");
                push_string(&mut s, m);
                s
            },
        }
    }
}

/// A compressed context and what it took.
#[derive(Debug, Clone)]
pub struct CompressedContext {
    pub text: String,
    pub original_tokens: usize,
    pub compressed_tokens: usize,
    pub cache_hit: bool,
    pub used_sqz: bool,
}

/// Tokens one agent had compressed, and tokens saved.
#[derive(Debug, Clone, Copy, Default, PartialEq, Eq, Structural)]
pub struct AgentTokenStats {
    pub tokens_processed: u64,
    pub tokens_saved: u64,
}

// ── Words ────────────────────────────────────────────────────────────────────

/// The whitespace-separated words of `s` (`str::split_whitespace`).
pub open spec fn words(s: Seq<char>) -> Seq<Seq<char>>
    decreases s.len(),
{
    if s.len() == 0 {
        Seq::empty()
    } else {
        let w = words(s.drop_last());
        let c = s.last();
        if is_ws(c) {
            w
        } else if s.len() >= 2 && !is_ws(s[s.len() - 2]) {
            w.drop_last().push(w.last().push(c))
        } else {
            w.push(seq![c])
        }
    }
}

/// `parts` joined with `sep` between them.
pub open spec fn join(parts: Seq<Seq<char>>, sep: Seq<char>) -> Seq<char>
    decreases parts.len(),
{
    if parts.len() == 0 {
        Seq::empty()
    } else if parts.len() == 1 {
        parts[0]
    } else {
        join(parts.drop_last(), sep) + sep + parts.last()
    }
}

/// The word ranges of `v`, as `(start, end)` index pairs.
pub(crate) fn word_ranges(v: &Vec<char>) -> (r: Vec<(usize, usize)>)
    ensures
        r@.len() == words(v@).len(),
        forall|k: int| 0 <= k < r@.len() ==> (#[trigger] r@[k]).0 < r@[k].1 <= v@.len() && v@.subrange(
            r@[k].0 as int,
            r@[k].1 as int,
        ) == words(v@)[k],
{
    let mut r: Vec<(usize, usize)> = Vec::new();
    let mut i: usize = 0;
    while i < v.len()
        invariant
            i <= v@.len(),
            r@.len() == words(v@.take(i as int)).len(),
            forall|k: int| 0 <= k < r@.len() ==> (#[trigger] r@[k]).0 < r@[k].1 <= i && v@.subrange(
                r@[k].0 as int,
                r@[k].1 as int,
            ) == words(v@.take(i as int))[k],
            i > 0 && !is_ws(v@[i - 1]) ==> r@.len() > 0 && r@[r@.len() - 1].1 == i,
        decreases v.len() - i,
    {
        let c = v[i];
        let ghost t = v@.take(i + 1);
        let ghost w = words(v@.take(i as int));
        proof {
            assert(t.drop_last() =~= v@.take(i as int));
            assert(t.last() == c);
        }
        if char_is_ws(c) {
        } else if i > 0 && !char_is_ws(v[i - 1]) {
            let last = r.len() - 1;
            let (a, _) = r[last];
            r.set(last, (a, i + 1));
            proof {
                assert(t[t.len() - 2] == v@[i - 1]);
                assert(v@.subrange(a as int, i + 1) =~= v@.subrange(a as int, i as int).push(c));
                assert forall|k: int| 0 <= k < r@.len() implies (#[trigger] r@[k]).0 < r@[k].1 <= i + 1
                    && v@.subrange(r@[k].0 as int, r@[k].1 as int) == words(t)[k] by {
                    if k < last {
                        assert(words(t)[k] == w[k]);
                    }
                }
            }
        } else {
            r.push((i, i + 1));
            proof {
                if i > 0 {
                    assert(t[t.len() - 2] == v@[i - 1]);
                }
                assert(v@.subrange(i as int, i + 1) =~= seq![c]);
                assert forall|k: int| 0 <= k < r@.len() implies (#[trigger] r@[k]).0 < r@[k].1 <= i + 1
                    && v@.subrange(r@[k].0 as int, r@[k].1 as int) == words(t)[k] by {
                    if k < r@.len() - 1 {
                        assert(words(t)[k] == w[k]);
                    }
                }
            }
        }
        i = i + 1;
    }
    proof {
        assert(v@.take(i as int) =~= v@);
    }
    r
}

/// The number of whitespace-separated words, which is how tokens are
/// counted.
pub fn count_tokens(text: &str) -> (n: usize)
    ensures
        n == words(text@).len(),
{
    let v = chars_of(text);
    let r = word_ranges(&v);
    r.len()
}

// ── The fallback ─────────────────────────────────────────────────────────────

/// The sentences (pieces between `". "`) kept by the dedup pass: each
/// non-blank sentence whose trimmed text has not been kept before, in
/// order.
pub open spec fn kept_sentences(ps: Seq<Seq<char>>) -> Seq<Seq<char>>
    decreases ps.len(),
{
    if ps.len() == 0 {
        Seq::empty()
    } else {
        let k = kept_sentences(ps.drop_last());
        let p = ps.last();
        if trim(p).len() > 0 && !k.map_values(|q: Seq<char>| trim(q)).contains(trim(p)) {
            k.push(p)
        } else {
            k
        }
    }
}

/// The fallback compression of `context` for a budget of `threshold`
/// tokens: repeated sentences dropped, then, if still over budget, only the
/// last `threshold` words kept, joined by single spaces.
pub open spec fn fallback_text(context: Seq<char>, threshold: int) -> Seq<char> {
    let deduped = join(kept_sentences(split_on(context, ". "@)), ". "@);
    let ws = words(deduped);
    if ws.len() <= threshold {
        deduped
    } else {
        join(ws.skip(ws.len() - threshold), " "@)
    }
}

fn trimmed_seen(seen: &Vec<Vec<char>>, t: &Vec<char>) -> (b: bool)
    ensures
        b == seen@.map_values(|x: Vec<char>| x@).contains(t@),
{
    let ghost views = seen@.map_values(|x: Vec<char>| x@);
    let mut i: usize = 0;
    while i < seen.len()
        invariant
            i <= seen@.len(),
            views == seen@.map_values(|x: Vec<char>| x@),
            forall|j: int| 0 <= j < i ==> views[j] != t@,
        decreases seen.len() - i,
    {
        if crate::text::chars_eq(&seen[i], t) {
            assert(views[i as int] == t@);
            return true;
        }
        i = i + 1;
    }
    false
}

fn join_ranges(v: &Vec<char>, rs: &Vec<(usize, usize)>, from: usize, sep: &str) -> (s: String)
    requires
        from <= rs@.len(),
        forall|k: int| 0 <= k < rs@.len() ==> (#[trigger] rs@[k]).0 <= rs@[k].1 <= v@.len(),
    ensures
        s@ == join(rs@.skip(from as int).map_values(|r: (usize, usize)| v@.subrange(r.0 as int, r.1 as int)), sep@),
{
    let ghost parts = rs@.skip(from as int).map_values(|r: (usize, usize)| v@.subrange(r.0 as int, r.1 as int));
    let mut s = String::new();
    let mut i = from;
    while i < rs.len()
        invariant
            from <= i <= rs@.len(),
            forall|k: int| 0 <= k < rs@.len() ==> (#[trigger] rs@[k]).0 <= rs@[k].1 <= v@.len(),
            parts == rs@.skip(from as int).map_values(|r: (usize, usize)| v@.subrange(r.0 as int, r.1 as int)),
            s@ == join(parts.take(i - from), sep@),
        decreases rs.len() - i,
    {
        let (a, b) = rs[i];
        let piece = string_of_range(v, a, b);
        proof {
            assert(parts.take(i - from + 1).drop_last() =~= parts.take(i - from));
            assert(parts.take(i - from + 1).last() == piece@);
        }
        if i > from {
            push_str(&mut s, sep);
        }
        push_string(&mut s, &piece);
        proof {
            if i == from {
                assert(parts.take(1) =~= seq![piece@]);
            }
        }
        i = i + 1;
    }
    proof {
        assert(parts.take(i - from) =~= parts);
    }
    s
}

/// The built-in compression, used when sqz is not installed.
pub fn fallback_compress(context: &str, threshold: usize) -> (s: String)
    ensures
        s@ == fallback_text(context@, threshold as int),
{
    let v = chars_of(context);
    let sep = chars_of(". ");
    proof {
        reveal_strlit(". ");
    }
    let pieces = split_exec(&v, &sep);
    let ghost ps = split_on(v@, sep@);
    let mut kept: Vec<(usize, usize)> = Vec::new();
    let mut seen: Vec<Vec<char>> = Vec::new();
    let mut i: usize = 0;
    while i < pieces.len()
        invariant
            i <= pieces@.len(),
            pieces@.len() == ps.len(),
            ps == split_on(v@, sep@),
            forall|k: int| 0 <= k < pieces@.len() ==> crate::text::piece_at(v@, sep@, #[trigger] pieces@[k], k),
            forall|k: int| 0 <= k < kept@.len() ==> (#[trigger] kept@[k]).0 <= kept@[k].1 <= v@.len(),
            kept@.map_values(|r: (usize, usize)| v@.subrange(r.0 as int, r.1 as int)) == kept_sentences(ps.take(i as int)),
            seen@.map_values(|x: Vec<char>| x@) == kept_sentences(ps.take(i as int)).map_values(|q: Seq<char>| trim(q)),
        decreases pieces.len() - i,
    {
        let (a, b) = pieces[i];
        assert(crate::text::piece_at(v@, sep@, pieces@[i as int], i as int));
        let (ta, tb) = trim_bounds(&v, a, b);
        let t = crate::text::sub_vec(&v, ta, tb);
        let ghost p = ps[i as int];
        let ghost before = kept_sentences(ps.take(i as int));
        proof {
            assert(ps.take(i + 1).drop_last() =~= ps.take(i as int));
            assert(ps.take(i + 1).last() == p);
            assert(t@ == trim(p));
        }
        if tb > ta && !trimmed_seen(&seen, &t) {
            let ghost kv = kept@;
            let ghost sv = seen@;
            kept.push((a, b));
            seen.push(t);
            proof {
                assert(kept@.map_values(|r: (usize, usize)| v@.subrange(r.0 as int, r.1 as int)) =~= before.push(p));
                assert(seen@.map_values(|x: Vec<char>| x@) =~= sv.map_values(|x: Vec<char>| x@).push(trim(p)));
                assert(before.push(p).map_values(|q: Seq<char>| trim(q)) =~= before.map_values(|q: Seq<char>| trim(q)).push(trim(p)));
            }
        }
        i = i + 1;
    }
    proof {
        assert(ps.take(i as int) =~= ps);
    }
    let deduped = join_ranges(&v, &kept, 0, ". ");
    proof {
        assert(kept@.skip(0) =~= kept@);
    }
    let d = chars_of(deduped.as_str());
    let ws = word_ranges(&d);
    if ws.len() <= threshold {
        return deduped;
    }
    let start = ws.len() - threshold;
    let out = join_ranges(&d, &ws, start, " ");
    proof {
        reveal_strlit(" ");
        assert(ws@.skip(start as int).map_values(|r: (usize, usize)| d@.subrange(r.0 as int, r.1 as int)) =~= words(
            d@,
        ).skip(start as int));
    }
    out
}

// ── The engine ───────────────────────────────────────────────────────────────

fn trim_end_len(v: &Vec<char>) -> (e: usize)
    ensures
        e <= v@.len(),
        v@.subrange(0, e as int) == trim_end(v@),
{
    let mut e = v.len();
    assert(v@.subrange(0, e as int) =~= v@);
    while e > 0 && char_is_ws(v[e - 1])
        invariant
            e <= v@.len(),
            trim_end(v@) == trim_end(v@.subrange(0, e as int)),
        decreases e,
    {
        assert(v@.subrange(0, e as int).drop_last() =~= v@.subrange(0, e - 1));
        e = e - 1;
    }
    e
}

/// The cache key of a context: the lowercase hex SHA-256 of its UTF-8.
pub open spec fn context_hash(c: Seq<char>) -> Seq<char> {
    hex_lower(sha256_digest(encode_utf8(c)))
}

fn sha256_hex(input: &str) -> (s: String)
    ensures
        s@ == context_hash(input@),
{
    let d = sha256(input.as_bytes());
    hex_encode(d.as_slice())
}

/// A compression result as values: text, tokens before and after, whether
/// it came from the cache, whether sqz made it.
pub type ContextView = (Seq<char>, usize, usize, bool, bool);

pub open spec fn ctx_view(c: CompressedContext) -> ContextView {
    (c.text@, c.original_tokens, c.compressed_tokens, c.cache_hit, c.used_sqz)
}

pub type CacheView = Seq<(Seq<char>, ContextView)>;

pub open spec fn cache_views(s: Seq<(String, CompressedContext)>) -> CacheView {
    s.map_values(|e: (String, CompressedContext)| (e.0@, ctx_view(e.1)))
}

/// The cached result for `key` (the last entry counts).
pub open spec fn cached(s: CacheView, key: Seq<char>) -> Option<ContextView>
    decreases s.len(),
{
    if s.len() == 0 {
        None
    } else if s.last().0 == key {
        Some(s.last().1)
    } else {
        cached(s.drop_last(), key)
    }
}

/// The cache without `key`.
pub open spec fn uncached(s: CacheView, key: Seq<char>) -> CacheView
    decreases s.len(),
{
    if s.len() == 0 {
        Seq::empty()
    } else if s.last().0 == key {
        uncached(s.drop_last(), key)
    } else {
        uncached(s.drop_last(), key).push(s.last())
    }
}

pub open spec fn keys_distinct(s: CacheView) -> bool {
    forall|i: int, j: int| 0 <= i < j < s.len() ==> (#[trigger] s[i]).0 != (#[trigger] s[j]).0
}

proof fn lemma_uncached(s: CacheView, key: Seq<char>, j: Seq<char>)
    ensures
        cached(uncached(s, key), j) == if j == key {
            None
        } else {
            cached(s, j)
        },
    decreases s.len(),
{
    if s.len() > 0 {
        lemma_uncached(s.drop_last(), key, j);
        if s.last().0 != key {
            assert(uncached(s, key).drop_last() =~= uncached(s.drop_last(), key));
        }
    }
}

proof fn lemma_uncached_distinct(s: CacheView, key: Seq<char>)
    requires
        keys_distinct(s),
    ensures
        keys_distinct(uncached(s, key)),
        forall|i: int| 0 <= i < uncached(s, key).len() ==> (#[trigger] uncached(s, key)[i]).0 != key,
        forall|i: int| #![trigger uncached(s, key)[i]] 0 <= i < uncached(s, key).len() ==> exists|k: int| 0 <= k < s.len() && #[trigger] s[k] == uncached(s, key)[i],
    decreases s.len(),
{
    if s.len() > 0 {
        let d = s.drop_last();
        assert(keys_distinct(d));
        lemma_uncached_distinct(d, key);
        let u = uncached(d, key);
        if s.last().0 != key {
            let v = u.push(s.last());
            assert forall|i: int| #![trigger v[i]] 0 <= i < v.len() implies exists|k: int| 0 <= k < s.len() && #[trigger] s[k] == v[i] by {
                if i < u.len() {
                    let k = choose|k: int| 0 <= k < d.len() && #[trigger] d[k] == u[i];
                    assert(s[k] == v[i]);
                } else {
                    assert(s[s.len() - 1] == v[i]);
                }
            }
            assert forall|i: int, j: int| 0 <= i < j < v.len() implies (#[trigger] v[i]).0 != (#[trigger] v[j]).0 by {
                if j == u.len() {
                    let k = choose|k: int| 0 <= k < d.len() && #[trigger] d[k] == u[i];
                    assert(s[k].0 != s[s.len() - 1].0);
                }
            }
        } else {
            assert forall|i: int| #![trigger u[i]] 0 <= i < u.len() implies exists|k: int| 0 <= k < s.len() && #[trigger] s[k] == u[i] by {
                let k = choose|k: int| 0 <= k < d.len() && #[trigger] d[k] == u[i];
                assert(s[k] == u[i]);
            }
        }
    }
}

/// The totals of the engine after counting `processed` tokens and `saved`
/// saved ones for agent `pid`.
pub open spec fn counted(
    before: (u64, u64, Map<u32, AgentTokenStats>),
    after: (u64, u64, Map<u32, AgentTokenStats>),
    pid: u32,
    processed: int,
    saved: int,
) -> bool {
    let prev = if before.2.contains_key(pid) {
        before.2[pid]
    } else {
        AgentTokenStats { tokens_processed: 0, tokens_saved: 0 }
    };
    &&& after.0 == before.0 + processed
    &&& after.1 == before.1 + saved
    &&& after.2 == before.2.insert(
        pid,
        AgentTokenStats {
            tokens_processed: (prev.tokens_processed + processed) as u64,
            tokens_saved: (prev.tokens_saved + saved) as u64,
        },
    )
}

/// What the engine reports of its work.
#[derive(Debug, Clone)]
pub struct CompressionStats {
    pub total_tokens_processed: u64,
    pub total_tokens_saved: u64,
    pub cache_entries: usize,
    pub per_agent: HashMap<u32, AgentTokenStats>,
    pub sqz_stats: Option<String>,
}

/// The compression engine: its cache of results by context hash and the
/// tokens it has processed and saved, in all and per agent.
pub struct SqzEngine {
    cache: Vec<(String, CompressedContext)>,
    per_agent: HashMap<u32, AgentTokenStats>,
    total_processed: u64,
    total_saved: u64,
}

impl SqzEngine {
    #[verifier::type_invariant]
    spec fn cache_keys_distinct(&self) -> bool {
        keys_distinct(cache_views(self.cache@))
    }

    pub closed spec fn cache_view(&self) -> CacheView {
        cache_views(self.cache@)
    }

    /// Tokens processed and saved in all, and per agent.
    pub closed spec fn totals(&self) -> (u64, u64, Map<u32, AgentTokenStats>) {
        (self.total_processed, self.total_saved, self.per_agent@)
    }

    /// Counting `n` more tokens for `pid` fits the counters.
    pub open spec fn has_room_spec(&self, pid: u32, n: int) -> bool {
        let t = self.totals();
        let prev = if t.2.contains_key(pid) {
            t.2[pid]
        } else {
            AgentTokenStats { tokens_processed: 0, tokens_saved: 0 }
        };
        &&& t.0 + n <= u64::MAX
        &&& t.1 + n <= u64::MAX
        &&& prev.tokens_processed + n <= u64::MAX
        &&& prev.tokens_saved + n <= u64::MAX
    }

    pub fn new() -> (e: Self)
        ensures
            e.cache_view().len() == 0,
            e.totals() == (0u64, 0u64, Map::<u32, AgentTokenStats>::empty()),
    {
        let e = SqzEngine { cache: Vec::new(), per_agent: HashMap::new(), total_processed: 0, total_saved: 0 };
        assert(cache_views(e.cache@) =~= Seq::<(Seq<char>, ContextView)>::empty());
        e
    }

    fn agent_entry(&self, pid: u32) -> (r: AgentTokenStats)
        ensures
            r == (if self.totals().2.contains_key(pid) {
                self.totals().2[pid]
            } else {
                AgentTokenStats { tokens_processed: 0, tokens_saved: 0 }
            }),
    {
        match self.per_agent.get(&pid) {
            Some(s) => *s,
            None => AgentTokenStats { tokens_processed: 0, tokens_saved: 0 },
        }
    }

    /// Whether `n` more tokens for agent `pid` can be counted.
    pub fn has_room(&self, pid: u32, n: usize) -> (b: bool)
        ensures
            b == self.has_room_spec(pid, n as int),
    {
        let prev = self.agent_entry(pid);
        let m = n as u64;
        self.total_processed <= u64::MAX - m && self.total_saved <= u64::MAX - m && prev.tokens_processed
            <= u64::MAX - m && prev.tokens_saved <= u64::MAX - m
    }

    fn count(&mut self, pid: u32, processed: usize, saved: usize)
        requires
            old(self).has_room_spec(pid, processed as int),
            saved <= processed,
        ensures
            counted(old(self).totals(), final(self).totals(), pid, processed as int, saved as int),
            final(self).cache_view() == old(self).cache_view(),
    {
        proof {
            use_type_invariant(&*self);
        }
        let prev = self.agent_entry(pid);
        self.total_processed = self.total_processed + processed as u64;
        self.total_saved = self.total_saved + saved as u64;
        let mut map: HashMap<u32, AgentTokenStats> = HashMap::new();
        std::mem::swap(&mut map, &mut self.per_agent);
        map.insert(
            pid,
            AgentTokenStats {
                tokens_processed: prev.tokens_processed + processed as u64,
                tokens_saved: prev.tokens_saved + saved as u64,
            },
        );
        self.per_agent = map;
    }

    fn find_cached(&self, key: &String) -> (r: Option<usize>)
        ensures
            match r {
                Some(i) => i < self.cache@.len() && cached(self.cache_view(), key@) == Some(ctx_view(self.cache@[i as int].1)),
                None => cached(self.cache_view(), key@) is None,
            },
    {
        let ghost c = self.cache_view();
        let mut k = self.cache.len();
        assert(c.take(k as int) =~= c);
        while k > 0
            invariant
                k <= self.cache@.len(),
                c == cache_views(self.cache@),
                cached(c, key@) == cached(c.take(k as int), key@),
            decreases k,
        {
            assert(c.take(k as int).drop_last() =~= c.take(k - 1));
            if str_eq(self.cache[k - 1].0.as_str(), key.as_str()) {
                return Some(k - 1);
            }
            k = k - 1;
        }
        None
    }

    /// The first step of compressing `context` for a budget of `threshold`
    /// tokens: a context within budget comes back as it is; a context seen
    /// before comes back from the cache (and is counted for `agent_pid`).
    /// `None` means it must be compressed: the program runs sqz and calls
    /// `store_compressed`.
    pub fn lookup(&mut self, context: &str, threshold: usize, agent_pid: u32) -> (r: Option<CompressedContext>)
        requires
            old(self).has_room_spec(agent_pid, words(context@).len() as int),
        ensures
            final(self).cache_view() == old(self).cache_view(),
            lookup_outcome(
                old(self).cache_view(),
                old(self).totals(),
                final(self).totals(),
                context@,
                threshold,
                agent_pid,
                r,
            ),
    {
        let original_tokens = count_tokens(context);
        if original_tokens <= threshold {
            return Some(
                CompressedContext {
                    text: to_string(context),
                    original_tokens,
                    compressed_tokens: original_tokens,
                    cache_hit: false,
                    used_sqz: false,
                },
            );
        }
        let hash = sha256_hex(context);
        match self.find_cached(&hash) {
            None => None,
            Some(i) => {
                let c = &self.cache[i].1;
                let result = CompressedContext {
                    text: to_string(c.text.as_str()),
                    original_tokens: c.original_tokens,
                    compressed_tokens: c.compressed_tokens,
                    cache_hit: true,
                    used_sqz: c.used_sqz,
                };
                let saved = if original_tokens > result.compressed_tokens {
                    original_tokens - result.compressed_tokens
                } else {
                    0
                };
                self.count(agent_pid, original_tokens, saved);
                Some(result)
            },
        }
    }

    /// The second step: records the compression of `context` made by sqz
    /// (its output, trailing whitespace dropped) or, when sqz gave nothing,
    /// by the fallback; counts it for `agent_pid` and caches it.
    pub fn store_compressed(&mut self, context: &str, threshold: usize, agent_pid: u32, sqz_output: Option<String>) -> (r:
        CompressedContext)
        requires
            old(self).has_room_spec(agent_pid, words(context@).len() as int),
        ensures
            store_outcome(
                old(self).cache_view(),
                final(self).cache_view(),
                old(self).totals(),
                final(self).totals(),
                context@,
                threshold,
                agent_pid,
                match sqz_output {
                    Some(o) => Some(o@),
                    None => None,
                },
                r,
            ),
    {
        proof {
            use_type_invariant(&*self);
        }
        let original_tokens = count_tokens(context);
        let (text, used_sqz) = match sqz_output {
            Some(out) => {
                let v = chars_of(out.as_str());
                let e = trim_end_len(&v);
                let t = string_of_range(&v, 0, e);
                (t, true)
            },
            None => (fallback_compress(context, threshold), false),
        };
        let compressed_tokens = count_tokens(text.as_str());
        let saved = if original_tokens > compressed_tokens {
            original_tokens - compressed_tokens
        } else {
            0
        };
        self.count(agent_pid, original_tokens, saved);
        let result = CompressedContext { text, original_tokens, compressed_tokens, cache_hit: false, used_sqz };
        let copy = CompressedContext {
            text: to_string(result.text.as_str()),
            original_tokens,
            compressed_tokens,
            cache_hit: false,
            used_sqz,
        };
        let hash = sha256_hex(context);
        let ghost before = self.cache_view();
        let mut rest: Vec<(String, CompressedContext)> = Vec::new();
        let mut all: Vec<(String, CompressedContext)> = Vec::new();
        std::mem::swap(&mut all, &mut self.cache);
        let total = all.len();
        let mut k: usize = 0;
        while all.len() > 0
            invariant
                k <= before.len(),
                before.len() == total,
                k + all@.len() == before.len(),
                cache_views(all@) == before.skip(k as int),
                cache_views(rest@) == uncached(before.take(k as int), hash@),
            decreases all.len(),
        {
            let ghost old_all = all@;
            let e = all.remove(0);
            proof {
                assert(cache_views(old_all)[0] == (e.0@, ctx_view(e.1)));
                assert(all@ =~= old_all.skip(1));
                assert(cache_views(all@) =~= cache_views(old_all).skip(1));
                assert(before.skip(k + 1) =~= before.skip(k as int).skip(1));
                assert(before.take(k + 1).drop_last() =~= before.take(k as int));
                assert(before.take(k + 1).last() == (e.0@, ctx_view(e.1)));
            }
            if !str_eq(e.0.as_str(), hash.as_str()) {
                let ghost rv = cache_views(rest@);
                rest.push(e);
                proof {
                    assert(cache_views(rest@) =~= rv.push((e.0@, ctx_view(e.1))));
                }
            }
            k = k + 1;
        }
        proof {
            assert(before.take(k as int) =~= before);
            lemma_uncached_distinct(before, hash@);
        }
        let ghost kept = cache_views(rest@);
        rest.push((hash, copy));
        proof {
            assert(cache_views(rest@) =~= kept.push((hash@, ctx_view(result))));
            assert(cache_views(rest@).drop_last() =~= kept);
            assert forall|j: Seq<char>| j != context_hash(context@) implies #[trigger] cached(cache_views(rest@), j) == cached(before, j) by {
                lemma_uncached(before, hash@, j);
            }
            let cv = cache_views(rest@);
            assert forall|i: int, j: int| 0 <= i < j < cv.len() implies (#[trigger] cv[i]).0 != (#[trigger] cv[j]).0 by {
                if j < kept.len() {
                    assert(cv[i] == kept[i] && cv[j] == kept[j]);
                } else {
                    assert(cv[i] == kept[i]);
                }
            }
        }
        self.cache = rest;
        result
    }

    /// What the engine has done; `sqz_stats` is what `sqz stats` printed, if
    /// sqz is installed.
    pub fn get_stats(&self, sqz_stats: Option<String>) -> (s: CompressionStats)
        ensures
            s.total_tokens_processed == self.totals().0,
            s.total_tokens_saved == self.totals().1,
            s.per_agent@ == self.totals().2,
            s.cache_entries == self.cache_view().len(),
            s.sqz_stats == sqz_stats,
    {
        CompressionStats {
            total_tokens_processed: self.total_processed,
            total_tokens_saved: self.total_saved,
            cache_entries: self.cache.len(),
            per_agent: self.per_agent.clone(),
            sqz_stats,
        }
    }

    /// Forgets every cached result; the counts stay.
    pub fn invalidate_cache(&mut self)
        ensures
            final(self).cache_view().len() == 0,
            final(self).totals() == old(self).totals(),
    {
        self.cache = Vec::new();
        assert(cache_views(self.cache@) =~= Seq::<(Seq<char>, ContextView)>::empty());
    }
}

/// `a - b`, or zero when `b` is larger.
/// The totals kept by a compression engine: tokens processed and saved in
/// all, and per agent.
pub type Totals = (u64, u64, Map<u32, AgentTokenStats>);

/// What `lookup` does with `context` for a budget of `threshold` tokens:
/// within budget, the context as it is, nothing counted; over budget, the
/// cached result marked as a hit and counted, or nothing when uncached.
pub open spec fn lookup_outcome(
    cache: CacheView,
    before: Totals,
    after: Totals,
    context: Seq<char>,
    threshold: usize,
    pid: u32,
    r: Option<CompressedContext>,
) -> bool {
    let n = words(context).len();
    &&& n <= threshold ==> (r matches Some(c) && ctx_view(c) == (context, n as usize, n as usize, false, false))
        && after == before
    &&& n > threshold ==> match cached(cache, context_hash(context)) {
        None => r is None && after == before,
        Some(v) => (r matches Some(c) && ctx_view(c) == (v.0, v.1, v.2, true, v.4)) && counted(
            before,
            after,
            pid,
            n as int,
            saturated(n as int, v.2 as int),
        ),
    }
}

/// What `store_compressed` does: the compression (sqz's output with trailing
/// whitespace dropped, or the fallback), counted and cached under the
/// context's hash; no other cache entry changes.
pub open spec fn store_outcome(
    cache_before: CacheView,
    cache_after: CacheView,
    before: Totals,
    after: Totals,
    context: Seq<char>,
    threshold: usize,
    pid: u32,
    sqz_output: Option<Seq<char>>,
    r: CompressedContext,
) -> bool {
    let text = match sqz_output {
        Some(o) => trim_end(o),
        None => fallback_text(context, threshold as int),
    };
    &&& ctx_view(r) == (text, words(context).len() as usize, words(text).len() as usize, false, sqz_output is Some)
    &&& counted(before, after, pid, words(context).len() as int, saturated(words(context).len() as int, words(text).len() as int))
    &&& cached(cache_after, context_hash(context)) == Some(ctx_view(r))
    &&& forall|k: Seq<char>| k != context_hash(context) ==> #[trigger] cached(cache_after, k) == cached(cache_before, k)
}

/// Compressing the same context twice: the first call misses the cache and
/// stores the compression; the second is a cache hit giving the same text
/// and token counts, and counts the same saving again. A context within
/// budget comes back as it is, counting nothing.
pub proof fn repeated_compression_hits_the_cache(
    cache0: CacheView,
    cache1: CacheView,
    t0: Totals,
    t1: Totals,
    t2: Totals,
    context: Seq<char>,
    threshold: usize,
    pid: u32,
    sqz_output: Option<Seq<char>>,
    first: CompressedContext,
    second: Option<CompressedContext>,
)
    requires
        store_outcome(cache0, cache1, t0, t1, context, threshold, pid, sqz_output, first),
        lookup_outcome(cache1, t1, t2, context, threshold, pid, second),
    ensures
        words(context).len() > threshold ==> (second matches Some(c) && c.cache_hit && c.text@ == first.text@
            && c.original_tokens == first.original_tokens && c.compressed_tokens == first.compressed_tokens
            && c.used_sqz == first.used_sqz && counted(
            t1,
            t2,
            pid,
            words(context).len() as int,
            saturated(words(context).len() as int, first.compressed_tokens as int),
        )),
        words(context).len() <= threshold ==> (second matches Some(c) && c.text@ == context && !c.cache_hit
            && c.original_tokens == words(context).len() && c.compressed_tokens == words(context).len()) && t2 == t1,
{
}

pub open spec fn saturated(a: int, b: int) -> int {
    if a > b {
        a - b
    } else {
        0
    }
}

/// A context is counted as saving nothing more than its own tokens.
pub proof fn savings_never_exceed_tokens(original: int, compressed: int)
    requires
        original >= 0,
        compressed >= 0,
    ensures
        0 <= saturated(original, compressed) <= original,
{
}

} // verus!
