//! Routing of LLM requests to providers: providers are tried in priority
//! order (stable, lowest number first), cloud providers are skipped when a
//! request must stay local, and a request no provider can take is queued.
use vstd::multiset::Multiset;
use vstd::prelude::*;

use crate::text::{chars_of, char_is_ws, is_ws, push_str, push_string, str_eq, to_string};

verus! {

#[derive(Debug, Clone)]
pub struct LlmRequest {
    pub prompt: String,
    pub max_tokens: Option<u32>,
    pub model: Option<String>,
}

#[derive(Debug, Clone)]
pub struct LlmResponse {
    pub text: String,
    pub provider: String,
    pub prompt_tokens: u32,
    pub completion_tokens: u32,
}

#[derive(Debug, Clone)]
pub struct LlmProvider {
    pub name: String,
    pub endpoint: String,
    pub priority: u32,
    pub is_local: bool,
}

/// A provider as a mathematical value.
pub struct ProviderView {
    pub name: Seq<char>,
    pub endpoint: Seq<char>,
    pub priority: u32,
    pub is_local: bool,
}

impl View for LlmProvider {
    type V = ProviderView;

    open spec fn view(&self) -> ProviderView {
        ProviderView { name: self.name@, endpoint: self.endpoint@, priority: self.priority, is_local: self.is_local }
    }
}

#[derive(Debug, Clone, Copy, PartialEq, Eq, Structural)]
pub enum ProviderStatus {
    Available,
    Unavailable,
    Unknown,
}

#[derive(Debug, Clone)]
pub struct LlmProviderStatus {
    pub provider: LlmProvider,
    pub status: ProviderStatus,
}

#[derive(Debug, Clone, PartialEq)]
pub enum RouterError {
    NoProviderAvailable,
    ProviderFailed { provider: String, reason: String },
}

impl RouterError {
    /// The message this error displays.
    pub fn message(&self) -> (m: String)
        ensures
            m@ == match self {
                RouterError::NoProviderAvailable => "no LLM provider available"@,
                RouterError::ProviderFailed { provider, reason } => "provider '"@ + provider@ + "' failed: "@
                    + reason@,
            },
    {
        match self {
            RouterError::NoProviderAvailable => to_string("no LLM provider available"),
            RouterError::ProviderFailed { provider, reason } => {
                let mut m = to_string("provider '");
                push_string(&mut m, provider);
                push_str(&mut m, "' failed: ");
                push_string(&mut m, reason);
                m
            },
        }
    }
}

// ── Priority order ───────────────────────────────────────────────────────────

/// `s` with `p` put after every element, from the end, of higher priority
/// number: what one step of a stable insertion sort does.
pub open spec fn insert_by_priority(s: Seq<LlmProvider>, p: LlmProvider) -> Seq<LlmProvider>
    decreases s.len(),
{
    if s.len() == 0 {
        seq![p]
    } else if s.last().priority <= p.priority {
        s.push(p)
    } else {
        insert_by_priority(s.drop_last(), p).push(s.last())
    }
}

/// `s` stably sorted by priority (what `sort_by_key` on the priority gives).
pub open spec fn by_priority(s: Seq<LlmProvider>) -> Seq<LlmProvider>
    decreases s.len(),
{
    if s.len() == 0 {
        Seq::empty()
    } else {
        insert_by_priority(by_priority(s.drop_last()), s.last())
    }
}

pub open spec fn sorted_by_priority(s: Seq<LlmProvider>) -> bool {
    forall|i: int, j: int| 0 <= i < j < s.len() ==> #[trigger] s[i].priority <= #[trigger] s[j].priority
}

proof fn lemma_insert_at(s: Seq<LlmProvider>, p: LlmProvider, j: int)
    requires
        0 <= j <= s.len(),
        forall|i: int| j <= i < s.len() ==> #[trigger] s[i].priority > p.priority,
        j == 0 || s[j - 1].priority <= p.priority,
    ensures
        insert_by_priority(s, p) == s.insert(j, p),
    decreases s.len(),
{
    if s.len() == 0 {
        assert(s.insert(j, p) =~= seq![p]);
    } else if j == s.len() {
        assert(s.insert(j, p) =~= s.push(p));
    } else {
        lemma_insert_at(s.drop_last(), p, j);
        assert(s.drop_last().insert(j, p).push(s.last()) =~= s.insert(j, p));
    }
}

proof fn lemma_insert_sorted(s: Seq<LlmProvider>, p: LlmProvider)
    requires
        sorted_by_priority(s),
    ensures
        sorted_by_priority(insert_by_priority(s, p)),
        insert_by_priority(s, p).to_multiset() == s.to_multiset().insert(p),
        insert_by_priority(s, p).len() == s.len() + 1,
    decreases s.len(),
{
    broadcast use vstd::seq_lib::group_to_multiset_ensures;
    if s.len() == 0 {
        assert(seq![p] =~= Seq::<LlmProvider>::empty().push(p));
    } else if s.last().priority <= p.priority {
    } else {
        let d = s.drop_last();
        assert(sorted_by_priority(d));
        lemma_insert_sorted(d, p);
        let t = insert_by_priority(d, p);
        assert forall|i: int| 0 <= i < t.len() implies #[trigger] t[i].priority <= s.last().priority by {
            assert(t.to_multiset().count(t[i]) > 0);
            assert(d.to_multiset().insert(p).count(t[i]) > 0);
            if t[i] != p {
                assert(d.to_multiset().count(t[i]) > 0);
                let k = choose|k: int| 0 <= k < d.len() && d[k] == t[i];
                assert(s[k] == d[k]);
            }
        }
        assert(s =~= d.push(s.last()));
        assert(t.push(s.last()).to_multiset() =~= t.to_multiset().insert(s.last()));
        assert(s.to_multiset() =~= d.to_multiset().insert(s.last()));
        assert(t.push(s.last()).to_multiset() =~= s.to_multiset().insert(p));
    }
}

/// Sorting by priority orders the providers by priority and keeps every
/// provider, each as often as it was given.
pub proof fn priority_order_is_sorted_permutation(s: Seq<LlmProvider>)
    ensures
        sorted_by_priority(by_priority(s)),
        by_priority(s).to_multiset() == s.to_multiset(),
        by_priority(s).len() == s.len(),
    decreases s.len(),
{
    broadcast use vstd::seq_lib::group_to_multiset_ensures;
    if s.len() > 0 {
        priority_order_is_sorted_permutation(s.drop_last());
        lemma_insert_sorted(by_priority(s.drop_last()), s.last());
        assert(s =~= s.drop_last().push(s.last()));
    } else {
        assert(s.to_multiset() =~= Multiset::empty());
        assert(by_priority(s).to_multiset() =~= Multiset::empty());
    }
}

proof fn lemma_insert_by_priority_filter(t: Seq<LlmProvider>, p: LlmProvider, v: u32)
    ensures
        insert_by_priority(t, p).filter(|x: LlmProvider| x.priority == v) == if p.priority == v {
            t.filter(|x: LlmProvider| x.priority == v).push(p)
        } else {
            t.filter(|x: LlmProvider| x.priority == v)
        },
    decreases t.len(),
{
    let q = |x: LlmProvider| x.priority == v;
    if t.len() == 0 {
        t.lemma_filter_push(p, q);
        assert(t.push(p) =~= seq![p]);
    } else if t.last().priority <= p.priority {
        t.lemma_filter_push(p, q);
    } else {
        let d = t.drop_last();
        lemma_insert_by_priority_filter(d, p, v);
        insert_by_priority(d, p).lemma_filter_push(t.last(), q);
        d.lemma_filter_push(t.last(), q);
        assert(d.push(t.last()) =~= t);
    }
}

/// Sorting by priority is stable: the providers of any one priority keep
/// the order they were given in.
pub proof fn priority_order_is_stable(s: Seq<LlmProvider>, v: u32)
    ensures
        by_priority(s).filter(|x: LlmProvider| x.priority == v) == s.filter(|x: LlmProvider| x.priority == v),
    decreases s.len(),
{
    let q = |x: LlmProvider| x.priority == v;
    if s.len() > 0 {
        priority_order_is_stable(s.drop_last(), v);
        lemma_insert_by_priority_filter(by_priority(s.drop_last()), s.last(), v);
        s.drop_last().lemma_filter_push(s.last(), q);
        assert(s.drop_last().push(s.last()) =~= s);
    } else {
        reveal(Seq::filter);
        assert(by_priority(s) =~= s);
    }
}

fn sort_by_priority(providers: Vec<LlmProvider>) -> (out: Vec<LlmProvider>)
    ensures
        out@ == by_priority(providers@),
{
    let ghost orig = providers@;
    let n0 = providers.len();
    assert(orig.len() == n0);
    let mut input = providers;
    let mut out: Vec<LlmProvider> = Vec::new();
    let mut k: usize = 0;
    while input.len() > 0
        invariant
            k <= orig.len(),
            orig.len() <= usize::MAX,
            k + input@.len() == orig.len(),
            input@ == orig.skip(k as int),
            out@ == by_priority(orig.take(k as int)),
        decreases input.len(),
    {
        let x = input.remove(0);
        let mut j = out.len();
        while j > 0 && out[j - 1].priority > x.priority
            invariant
                j <= out.len(),
                forall|i: int| j <= i < out@.len() ==> #[trigger] out@[i].priority > x.priority,
            decreases j,
        {
            j = j - 1;
        }
        proof {
            lemma_insert_at(out@, x, j as int);
            assert(orig.take(k + 1).drop_last() =~= orig.take(k as int));
            assert(orig.take(k + 1).last() == x);
            assert(input@ =~= orig.skip(k + 1));
        }
        out.insert(j, x);
        k = k + 1;
    }
    proof {
        assert(orig.take(k as int) =~= orig);
    }
    out
}

// ── Routing ──────────────────────────────────────────────────────────────────

/// Whether `p` may serve a request (cloud providers are out for local-only
/// requests).
pub open spec fn eligible(p: LlmProvider, local_only: bool) -> bool {
    !local_only || p.is_local
}

/// Index of the first provider of `s` that is eligible and not in
/// `unavailable`.
pub open spec fn first_usable(s: Seq<LlmProvider>, unavailable: Seq<Seq<char>>, local_only: bool) -> Option<int>
    decreases s.len(),
{
    if s.len() == 0 {
        None
    } else {
        match first_usable(s.drop_last(), unavailable, local_only) {
            Some(i) => Some(i),
            None => if eligible(s.last(), local_only) && !unavailable.contains(s.last().name@) {
                Some(s.len() - 1)
            } else {
                None
            },
        }
    }
}

/// Number of whitespace-separated words in `s`.
pub open spec fn word_count(s: Seq<char>) -> nat
    decreases s.len(),
{
    if s.len() == 0 {
        0
    } else {
        word_count(s.drop_last()) + if !is_ws(s.last()) && (s.len() == 1 || is_ws(s[s.len() - 2])) {
            1nat
        } else {
            0nat
        }
    }
}

/// The canned answer a provider gives to `req`.
pub open spec fn answer(p: LlmProvider, req: LlmRequest, resp: LlmResponse) -> bool {
    let words = word_count(req.prompt@) % 0x1_0000_0000;
    &&& resp.text@ == "["@ + p.name@ + "] response to: "@ + req.prompt@
    &&& resp.provider@ == p.name@
    &&& resp.prompt_tokens == if words == 0 { 1 } else { words }
    &&& resp.completion_tokens == match req.max_tokens {
        Some(n) => n,
        None => 64,
    }
}

fn count_words(s: &str) -> (n: u32)
    ensures
        n == word_count(s@) % 0x1_0000_0000,
{
    let cs = chars_of(s);
    let mut n: u32 = 0;
    let mut i: usize = 0;
    while i < cs.len()
        invariant
            i <= cs@.len(),
            n == word_count(cs@.take(i as int)) % 0x1_0000_0000,
        decreases cs.len() - i,
    {
        let starts = !char_is_ws(cs[i]) && (i == 0 || char_is_ws(cs[i - 1]));
        proof {
            let t = cs@.take(i + 1);
            assert(t.drop_last() =~= cs@.take(i as int));
            assert(t.last() == cs@[i as int]);
            if i > 0 {
                assert(t[t.len() - 2] == cs@[i - 1]);
            }
        }
        if starts {
            n = n.wrapping_add(1);
        }
        i = i + 1;
    }
    assert(cs@.take(cs@.len() as int) =~= cs@);
    n
}

fn clone_provider(p: &LlmProvider) -> (r: LlmProvider)
    ensures
        r@ == p@,
{
    LlmProvider {
        name: to_string(p.name.as_str()),
        endpoint: to_string(p.endpoint.as_str()),
        priority: p.priority,
        is_local: p.is_local,
    }
}

fn call_provider(provider: &LlmProvider, request: &LlmRequest) -> (r: Result<LlmResponse, String>)
    ensures
        r matches Ok(resp) && answer(*provider, *request, resp),
{
    let words = count_words(request.prompt.as_str());
    let prompt_tokens = if words == 0 { 1 } else { words };
    let completion_tokens = match request.max_tokens {
        Some(n) => n,
        None => 64,
    };
    let mut text = to_string("[");
    push_string(&mut text, &provider.name);
    push_str(&mut text, "] response to: ");
    push_string(&mut text, &request.prompt);
    Ok(LlmResponse { text, provider: to_string(provider.name.as_str()), prompt_tokens, completion_tokens })
}

/// The texts of a list of names.
pub open spec fn names(v: Seq<String>) -> Seq<Seq<char>> {
    v.map_values(|s: String| s@)
}

fn names_contain(v: &Vec<String>, x: &String) -> (b: bool)
    ensures
        b == names(v@).contains(x@),
{
    let ghost ns = names(v@);
    let mut i: usize = 0;
    while i < v.len()
        invariant
            i <= v.len(),
            ns == names(v@),
            forall|j: int| 0 <= j < i ==> v@[j]@ != x@,
        decreases v.len() - i,
    {
        if str_eq(v[i].as_str(), x.as_str()) {
            assert(ns[i as int] == x@);
            return true;
        }
        i = i + 1;
    }
    proof {
        if ns.contains(x@) {
            let j = choose|j: int| 0 <= j < ns.len() && ns[j] == x@;
            assert(v@[j]@ == x@);
        }
    }
    false
}

fn pick_provider(providers: &Vec<LlmProvider>, unavailable: &Vec<String>, local_only: bool) -> (r: Option<usize>)
    ensures
        r matches Some(i) ==> i < providers@.len() && first_usable(providers@, names(unavailable@), local_only) == Some(i as int),
        r is None ==> first_usable(providers@, names(unavailable@), local_only) is None,
{
    let ghost un = names(unavailable@);
    let mut i: usize = 0;
    while i < providers.len()
        invariant
            i <= providers@.len(),
            un == names(unavailable@),
            first_usable(providers@.take(i as int), un, local_only) is None,
        decreases providers.len() - i,
    {
        let p = &providers[i];
        proof {
            let t = providers@.take(i + 1);
            assert(t.drop_last() =~= providers@.take(i as int));
        }
        if (!local_only || p.is_local) && !names_contain(unavailable, &p.name) {
            proof {
                lemma_first_usable_prefix(providers@, un, local_only, i + 1);
            }
            return Some(i);
        }
        i = i + 1;
    }
    assert(providers@.take(i as int) =~= providers@);
    None
}

proof fn lemma_first_usable_prefix(s: Seq<LlmProvider>, un: Seq<Seq<char>>, local_only: bool, k: int)
    requires
        0 <= k <= s.len(),
        first_usable(s.take(k), un, local_only) is Some,
    ensures
        first_usable(s, un, local_only) == first_usable(s.take(k), un, local_only),
    decreases s.len() - k,
{
    if k < s.len() {
        assert(s.take(k + 1).drop_last() =~= s.take(k));
        lemma_first_usable_prefix(s, un, local_only, k + 1);
    } else {
        assert(s.take(k) =~= s);
    }
}

/// Whether `p` may serve a request now: eligible and not marked unavailable.
pub open spec fn usable(p: LlmProvider, unavailable: Seq<Seq<char>>, local_only: bool) -> bool {
    eligible(p, local_only) && !unavailable.contains(p.name@)
}

/// The provider picked is the first usable one: it is usable and none
/// before it is; and nothing is picked only when no provider is usable.
pub proof fn first_usable_is_first(s: Seq<LlmProvider>, unavailable: Seq<Seq<char>>, local_only: bool)
    ensures
        match first_usable(s, unavailable, local_only) {
            Some(i) => 0 <= i < s.len() && usable(s[i], unavailable, local_only) && forall|j: int|
                0 <= j < i ==> !usable(#[trigger] s[j], unavailable, local_only),
            None => forall|j: int| 0 <= j < s.len() ==> !usable(#[trigger] s[j], unavailable, local_only),
        },
    decreases s.len(),
{
    if s.len() > 0 {
        let d = s.drop_last();
        first_usable_is_first(d, unavailable, local_only);
        assert forall|j: int| 0 <= j < d.len() implies d[j] == s[j] by {}
    }
}

/// The providers of `s` that run locally, in order.
pub open spec fn local_providers(s: Seq<LlmProvider>) -> Seq<LlmProvider>
    decreases s.len(),
{
    if s.len() == 0 {
        Seq::empty()
    } else if s.last().is_local {
        local_providers(s.drop_last()).push(s.last())
    } else {
        local_providers(s.drop_last())
    }
}

/// The providers an air-gap setting leaves: all of them, or only the local
/// ones when air-gapped.
pub fn providers_for_air_gap(providers: &[LlmProvider], air_gapped: bool) -> (r: Vec<&LlmProvider>)
    ensures
        r@.map_values(|p: &LlmProvider| *p) == if air_gapped {
            local_providers(providers@)
        } else {
            providers@
        },
{
    let mut out: Vec<&LlmProvider> = Vec::new();
    let mut i: usize = 0;
    while i < providers.len()
        invariant
            i <= providers@.len(),
            out@.map_values(|p: &LlmProvider| *p) == if air_gapped {
                local_providers(providers@.take(i as int))
            } else {
                providers@.take(i as int)
            },
        decreases providers.len() - i,
    {
        let ghost before = out@;
        if !air_gapped || providers[i].is_local {
            out.push(&providers[i]);
            assert(out@.map_values(|p: &LlmProvider| *p) =~= before.map_values(|p: &LlmProvider| *p).push(providers@[i as int]));
        }
        proof {
            assert(providers@.take(i + 1).drop_last() =~= providers@.take(i as int));
            assert(providers@.take(i + 1) =~= providers@.take(i as int).push(providers@[i as int]));
        }
        i = i + 1;
    }
    assert(providers@.take(i as int) =~= providers@);
    out
}

/// Air-gapping leaves only local providers, and no local one is dropped.
pub proof fn air_gap_keeps_exactly_local(s: Seq<LlmProvider>)
    ensures
        forall|i: int| 0 <= i < local_providers(s).len() ==> #[trigger] local_providers(s)[i].is_local,
        forall|i: int| 0 <= i < s.len() && #[trigger] s[i].is_local ==> local_providers(s).contains(s[i]),
    decreases s.len(),
{
    if s.len() > 0 {
        air_gap_keeps_exactly_local(s.drop_last());
        let d = s.drop_last();
        assert forall|i: int| 0 <= i < s.len() && #[trigger] s[i].is_local implies local_providers(s).contains(s[i]) by {
            if i < s.len() - 1 {
                assert(d[i] == s[i]);
                let k = choose|k: int| 0 <= k < local_providers(d).len() && local_providers(d)[k] == d[i];
                if s.last().is_local {
                    assert(local_providers(s)[k] == s[i]);
                }
            } else {
                assert(local_providers(s)[local_providers(s).len() - 1] == s[i]);
            }
        }
    }
}

/// Air-gapping keeps exactly the local providers, in order.
pub proof fn local_providers_is_filter(s: Seq<LlmProvider>)
    ensures
        local_providers(s) == s.filter(|p: LlmProvider| p.is_local),
    decreases s.len(),
{
    let q = |p: LlmProvider| p.is_local;
    if s.len() > 0 {
        local_providers_is_filter(s.drop_last());
        s.drop_last().lemma_filter_push(s.last(), q);
        assert(s.drop_last().push(s.last()) =~= s);
    } else {
        reveal(Seq::filter);
    }
}

// ── The router ───────────────────────────────────────────────────────────────

pub struct LlmRouter {
    providers: Vec<LlmProvider>,
    queued: Vec<(u32, LlmRequest)>,
}

impl LlmRouter {
    /// The providers, in the order they are tried.
    pub closed spec fn providers_view(&self) -> Seq<LlmProvider> {
        self.providers@
    }

    /// Requests no provider could take, oldest first.
    pub closed spec fn queue_view(&self) -> Seq<(u32, LlmRequest)> {
        self.queued@
    }

    pub fn new(providers: Vec<LlmProvider>) -> (r: Self)
        ensures
            r.providers_view() == by_priority(providers@),
            r.queue_view().len() == 0,
    {
        LlmRouter { providers: sort_by_priority(providers), queued: Vec::new() }
    }

    /// Sends `request` to the first eligible provider; with none, queues it.
    /// Every provider reports itself available and answers.
    pub fn route_request(&mut self, agent_pid: u32, request: LlmRequest, local_only: bool) -> (r: Result<LlmResponse, RouterError>)
        ensures
            final(self).providers_view() == old(self).providers_view(),
            match first_usable(old(self).providers_view(), Seq::empty(), local_only) {
                Some(i) => r matches Ok(resp) && answer(old(self).providers_view()[i], request, resp)
                    && final(self).queue_view() == old(self).queue_view(),
                None => r matches Err(RouterError::NoProviderAvailable)
                    && final(self).queue_view() == old(self).queue_view().push((agent_pid, request)),
            },
    {
        let none: Vec<String> = Vec::new();
        assert(names(none@) =~= Seq::<Seq<char>>::empty());
        match pick_provider(&self.providers, &none, local_only) {
            Some(i) => match call_provider(&self.providers[i], &request) {
                Ok(resp) => Ok(resp),
                Err(_) => Err(RouterError::NoProviderAvailable),
            },
            None => {
                self.queued.push((agent_pid, request));
                Err(RouterError::NoProviderAvailable)
            },
        }
    }

    /// Whether a provider answers; every provider is taken to be available.
    pub fn check_availability(&self, provider: &LlmProvider) -> (s: ProviderStatus)
        ensures
            s == ProviderStatus::Available,
    {
        ProviderStatus::Available
    }

    /// Every provider with its status, in routing order.
    pub fn get_providers(&self) -> (r: Vec<LlmProviderStatus>)
        ensures
            r@.len() == self.providers_view().len(),
            forall|i: int| 0 <= i < r@.len() ==> #[trigger] r@[i].provider@ == self.providers_view()[i]@
                && r@[i].status == ProviderStatus::Available,
    {
        let mut out: Vec<LlmProviderStatus> = Vec::new();
        let mut i: usize = 0;
        while i < self.providers.len()
            invariant
                i <= self.providers@.len(),
                out@.len() == i,
                forall|j: int| #![trigger out@[j]] 0 <= j < i ==> out@[j].provider@ == self.providers@[j]@
                    && out@[j].status == ProviderStatus::Available,
            decreases self.providers.len() - i,
        {
            let status = self.check_availability(&self.providers[i]);
            out.push(LlmProviderStatus { status, provider: clone_provider(&self.providers[i]) });
            i = i + 1;
        }
        out
    }

    pub fn queued_count(&self) -> (n: usize)
        ensures
            n == self.queue_view().len(),
    {
        self.queued.len()
    }

    /// The providers an air-gap setting leaves.
    pub fn filter_for_air_gap(providers: &[LlmProvider], air_gapped: bool) -> (r: Vec<&LlmProvider>)
        ensures
            r@.map_values(|p: &LlmProvider| *p) == if air_gapped {
                local_providers(providers@)
            } else {
                providers@
            },
    {
        providers_for_air_gap(providers, air_gapped)
    }
}

/// A router whose providers can be marked unavailable, to exercise the
/// fallback to the next provider and the queue.
pub struct MockRouter {
    providers: Vec<LlmProvider>,
    unavailable: Vec<String>,
    queued: Vec<(u32, LlmRequest)>,
}

impl MockRouter {
    pub closed spec fn providers_view(&self) -> Seq<LlmProvider> {
        self.providers@
    }

    /// Names of the providers marked unavailable.
    pub closed spec fn unavailable_view(&self) -> Seq<Seq<char>> {
        names(self.unavailable@)
    }

    pub closed spec fn queue_view(&self) -> Seq<(u32, LlmRequest)> {
        self.queued@
    }

    pub fn new(providers: Vec<LlmProvider>) -> (r: Self)
        ensures
            r.providers_view() == by_priority(providers@),
            r.unavailable_view().len() == 0,
            r.queue_view().len() == 0,
    {
        MockRouter { providers: sort_by_priority(providers), unavailable: Vec::new(), queued: Vec::new() }
    }

    pub fn mark_unavailable(&mut self, name: &str)
        ensures
            final(self).providers_view() == old(self).providers_view(),
            final(self).queue_view() == old(self).queue_view(),
            forall|x: Seq<char>| #[trigger] final(self).unavailable_view().contains(x) <==> old(self).unavailable_view().contains(x) || x == name@,
    {
        let n = to_string(name);
        if !names_contain(&self.unavailable, &n) {
            self.unavailable.push(n);
            proof {
                let u = self.unavailable_view();
                assert(u =~= old(self).unavailable_view().push(name@));
                assert forall|x: Seq<char>| #[trigger] u.contains(x) <==> old(self).unavailable_view().contains(x) || x == name@ by {
                    if old(self).unavailable_view().contains(x) {
                        let j = choose|j: int| 0 <= j < old(self).unavailable_view().len() && old(self).unavailable_view()[j] == x;
                        assert(u[j] == x);
                    }
                    if x == name@ {
                        assert(u[u.len() - 1] == x);
                    }
                }
            }
        }
    }

    /// Sends `request` to the first eligible provider not marked
    /// unavailable; with none, queues it.
    pub fn route_request(&mut self, agent_pid: u32, request: LlmRequest, local_only: bool) -> (r: Result<LlmResponse, RouterError>)
        ensures
            final(self).providers_view() == old(self).providers_view(),
            final(self).unavailable_view() == old(self).unavailable_view(),
            match first_usable(old(self).providers_view(), old(self).unavailable_view(), local_only) {
                Some(i) => r matches Ok(resp) && answer(old(self).providers_view()[i], request, resp)
                    && final(self).queue_view() == old(self).queue_view(),
                None => r matches Err(RouterError::NoProviderAvailable)
                    && final(self).queue_view() == old(self).queue_view().push((agent_pid, request)),
            },
    {
        match pick_provider(&self.providers, &self.unavailable, local_only) {
            Some(i) => match call_provider(&self.providers[i], &request) {
                Ok(resp) => Ok(resp),
                Err(_) => Err(RouterError::NoProviderAvailable),
            },
            None => {
                self.queued.push((agent_pid, request));
                Err(RouterError::NoProviderAvailable)
            },
        }
    }

    pub fn queued_count(&self) -> (n: usize)
        ensures
            n == self.queue_view().len(),
    {
        self.queued.len()
    }

    /// Every provider with its status: unavailable if marked so, else
    /// available.
    pub fn get_providers(&self) -> (r: Vec<LlmProviderStatus>)
        ensures
            r@.len() == self.providers_view().len(),
            forall|i: int| 0 <= i < r@.len() ==> #[trigger] r@[i].provider@ == self.providers_view()[i]@
                && r@[i].status == if self.unavailable_view().contains(self.providers_view()[i].name@) {
                    ProviderStatus::Unavailable
                } else {
                    ProviderStatus::Available
                },
    {
        let mut out: Vec<LlmProviderStatus> = Vec::new();
        let mut i: usize = 0;
        while i < self.providers.len()
            invariant
                i <= self.providers@.len(),
                out@.len() == i,
                forall|j: int| #![trigger out@[j]] 0 <= j < i ==> out@[j].provider@ == self.providers@[j]@
                    && out@[j].status == if self.unavailable_view().contains(self.providers@[j].name@) {
                        ProviderStatus::Unavailable
                    } else {
                        ProviderStatus::Available
                    },
            decreases self.providers.len() - i,
        {
            let down = names_contain(&self.unavailable, &self.providers[i].name);
            assert(down == self.unavailable_view().contains(self.providers@[i as int].name@));
            let status = if down {
                ProviderStatus::Unavailable
            } else {
                ProviderStatus::Available
            };
            let ghost before = out@;
            out.push(LlmProviderStatus { status, provider: clone_provider(&self.providers[i]) });
            proof {
                assert forall|j: int| #![trigger out@[j]] 0 <= j < i + 1 implies out@[j].provider@ == self.providers@[j]@
                    && out@[j].status == if self.unavailable_view().contains(self.providers@[j].name@) {
                        ProviderStatus::Unavailable
                    } else {
                        ProviderStatus::Available
                    } by {
                    if j < i {
                        assert(out@[j] == before[j]);
                    }
                }
            }
            i = i + 1;
        }
        out
    }
}

} // verus!
