//! The message bus's error type and the rendering of a bus inspection.
use vstd::prelude::*;

use crate::text::{dec, push_char, push_decimal, push_str, push_string, str_eq, to_string};

verus! {

#[derive(Debug)]
pub enum BusError {
    InvalidMessage(String),
    NoSubscriber(u32),
    QueueFull(usize),
    TopicNotFound(String),
    NotSubscribed(u32, String),
}

#[derive(Debug, Clone)]
pub struct TopicInfo {
    pub name: String,
    pub subscriber_count: usize,
    pub pending_count: usize,
}

#[derive(Debug, Clone)]
pub struct BusInspection {
    pub topics: Vec<TopicInfo>,
    pub pending_messages: usize,
}

/// `n` spaces.
pub open spec fn spaces(n: int) -> Seq<char> {
    Seq::new(if n > 0 { n as nat } else { 0 }, |i: int| ' ')
}

/// `s` left-aligned in a field of `w` characters (`{:<w}`).
pub open spec fn pad_right(s: Seq<char>, w: int) -> Seq<char> {
    s + spaces(w - s.len())
}

/// `s` right-aligned in a field of `w` characters (`{:>w}`).
pub open spec fn pad_left(s: Seq<char>, w: int) -> Seq<char> {
    spaces(w - s.len()) + s
}

/// One table row: name, subscriber count, pending count.
pub open spec fn topic_row(name: Seq<char>, subs: Seq<char>, pending: Seq<char>) -> Seq<char> {
    pad_right(name, 30) + " "@ + pad_left(subs, 11) + " "@ + pad_left(pending, 13) + "\n"@
}

pub open spec fn rule_line() -> Seq<char> {
    Seq::new(56, |i: int| '-') + "\n"@
}

pub open spec fn topic_rows(ts: Seq<TopicInfo>) -> Seq<char>
    decreases ts.len(),
{
    if ts.len() == 0 {
        Seq::empty()
    } else {
        topic_rows(ts.drop_last()) + topic_row(
            ts.last().name@,
            dec(ts.last().subscriber_count as nat),
            dec(ts.last().pending_count as nat),
        )
    }
}

/// The inspection report: a table of topics, or a one-line note when no
/// topic is active.
pub open spec fn inspection_text(topics: Seq<TopicInfo>, pending: nat) -> Seq<char> {
    if topics.len() == 0 {
        "No active topics. Pending messages (direct): "@ + dec(pending) + "\n"@
    } else {
        topic_row("TOPIC"@, "SUBSCRIBERS"@, "PENDING MSGS"@) + rule_line() + topic_rows(topics) + rule_line()
            + "Total pending messages: "@ + dec(pending) + "\n"@
    }
}

/// Rows line up: with a name of at most 30 characters and counts of at most
/// 11 and 13 digits, every row (the header's too) is 57 characters, line
/// end included, and the counts end in the same columns.
pub proof fn topic_rows_line_up(name: Seq<char>, subs: Seq<char>, pending: Seq<char>)
    requires
        name.len() <= 30,
        subs.len() <= 11,
        pending.len() <= 13,
    ensures
        topic_row(name, subs, pending).len() == 57,
        topic_row(name, subs, pending).subrange(31, 42) == pad_left(subs, 11),
        topic_row(name, subs, pending).subrange(43, 56) == pad_left(pending, 13),
{
    let a = pad_right(name, 30);
    let b = pad_left(subs, 11);
    let c = pad_left(pending, 13);
    assert(a.len() == 30 && b.len() == 11 && c.len() == 13);
    let r = topic_row(name, subs, pending);
    assert(r =~= a + " "@ + b + " "@ + c + "\n"@);
    reveal_strlit(" ");
    reveal_strlit("\n");
    assert(r.subrange(31, 42) =~= b);
    assert(r.subrange(43, 56) =~= c);
}

fn push_spaces(out: &mut String, n: usize)
    ensures
        final(out)@ == old(out)@ + spaces(n as int),
{
    let mut i: usize = 0;
    while i < n
        invariant
            i <= n,
            out@ == old(out)@ + spaces(i as int),
        decreases n - i,
    {
        push_char(out, ' ');
        i = i + 1;
        assert(out@ =~= old(out)@ + spaces(i as int));
    }
}

fn push_rule(out: &mut String)
    ensures
        final(out)@ == old(out)@ + rule_line(),
{
    let mut i: usize = 0;
    while i < 56
        invariant
            i <= 56,
            out@ == old(out)@ + Seq::new(i as nat, |j: int| '-'),
        decreases 56 - i,
    {
        push_char(out, '-');
        i = i + 1;
        assert(out@ =~= old(out)@ + Seq::new(i as nat, |j: int| '-'));
    }
    push_char(out, '\n');
    proof {
        reveal_strlit("\n");
        assert(out@ =~= old(out)@ + rule_line());
    }
}

fn decimal_string(n: usize) -> (s: String)
    ensures
        s@ == dec(n as nat),
{
    let mut s = String::new();
    push_decimal(&mut s, n as u64);
    s
}

#[verifier::spinoff_prover]
fn push_row(out: &mut String, name: &str, subs: &str, pending: &str)
    ensures
        final(out)@ == old(out)@ + topic_row(name@, subs@, pending@),
{
    let nl = name.unicode_len();
    let sl = subs.unicode_len();
    let pl = pending.unicode_len();
    push_str(out, name);
    push_spaces(out, if nl < 30 { 30 - nl } else { 0 });
    push_str(out, " ");
    push_spaces(out, if sl < 11 { 11 - sl } else { 0 });
    push_str(out, subs);
    push_str(out, " ");
    push_spaces(out, if pl < 13 { 13 - pl } else { 0 });
    push_str(out, pending);
    push_str(out, "\n");
    proof {
        assert(spaces(30 - nl) =~= spaces((if nl < 30 { 30 - nl } else { 0 }) as int));
        assert(spaces(11 - sl) =~= spaces((if sl < 11 { 11 - sl } else { 0 }) as int));
        assert(spaces(13 - pl) =~= spaces((if pl < 13 { 13 - pl } else { 0 }) as int));
        assert(final(out)@ =~= old(out)@ + topic_row(name@, subs@, pending@));
    }
}

/// Renders an inspection of the bus for the terminal.
pub fn format_inspection(inspection: &BusInspection) -> (s: String)
    ensures
        s@ == inspection_text(inspection.topics@, inspection.pending_messages as nat),
{
    let mut out = String::new();
    if inspection.topics.len() == 0 {
        push_str(&mut out, "No active topics. Pending messages (direct): ");
        push_decimal(&mut out, inspection.pending_messages as u64);
        push_str(&mut out, "\n");
        return out;
    }
    push_row(&mut out, "TOPIC", "SUBSCRIBERS", "PENDING MSGS");
    push_rule(&mut out);
    let ghost head = out@;
    let mut i: usize = 0;
    while i < inspection.topics.len()
        invariant
            i <= inspection.topics@.len(),
            out@ == head + topic_rows(inspection.topics@.take(i as int)),
        decreases inspection.topics.len() - i,
    {
        let t = &inspection.topics[i];
        let subs = decimal_string(t.subscriber_count);
        let pending = decimal_string(t.pending_count);
        push_row(&mut out, t.name.as_str(), subs.as_str(), pending.as_str());
        proof {
            assert(inspection.topics@.take(i + 1).drop_last() =~= inspection.topics@.take(i as int));
        }
        i = i + 1;
    }
    proof {
        assert(inspection.topics@.take(i as int) =~= inspection.topics@);
    }
    push_rule(&mut out);
    push_str(&mut out, "Total pending messages: ");
    push_decimal(&mut out, inspection.pending_messages as u64);
    push_str(&mut out, "\n");
    out
}

/// The message a bus error displays.
pub open spec fn bus_error_text(e: BusError) -> Seq<char> {
    match e {
        BusError::InvalidMessage(m) => "invalid message: "@ + m@,
        BusError::NoSubscriber(p) => "no subscriber for pid "@ + dec(p as nat),
        BusError::QueueFull(n) => "queue full (max "@ + dec(n as nat) + " messages)"@,
        BusError::TopicNotFound(t) => "topic not found: "@ + t@,
        BusError::NotSubscribed(p, t) => "not subscribed: pid "@ + dec(p as nat) + " on topic "@ + t@,
    }
}

impl BusError {
    /// The error's message, as the program prints it.
    pub fn message(&self) -> (s: String)
        ensures
            s@ == bus_error_text(*self),
    {
        let mut s = String::new();
        match self {
            BusError::InvalidMessage(m) => {
                push_str(&mut s, "invalid message: ");
                push_string(&mut s, m);
            },
            BusError::NoSubscriber(p) => {
                push_str(&mut s, "no subscriber for pid ");
                push_decimal(&mut s, *p as u64);
            },
            BusError::QueueFull(n) => {
                push_str(&mut s, "queue full (max ");
                push_decimal(&mut s, *n as u64);
                push_str(&mut s, " messages)");
            },
            BusError::TopicNotFound(t) => {
                push_str(&mut s, "topic not found: ");
                push_string(&mut s, t);
            },
            BusError::NotSubscribed(p, t) => {
                push_str(&mut s, "not subscribed: pid ");
                push_decimal(&mut s, *p as u64);
                push_str(&mut s, " on topic ");
                push_string(&mut s, t);
            },
        }
        s
    }
}

// ── Messages ─────────────────────────────────────────────────────────────────

/// `serde_json::Value`, carried through unchanged.
#[verifier::external_type_specification]
#[verifier::external_body]
pub struct ExJsonValue(serde_json::Value);

/// `serde_json::Value::clone` (derived): an equal value.
pub assume_specification[<serde_json::Value as Clone>::clone](v: &serde_json::Value) -> (r: serde_json::Value)
    ensures
        r == *v,
;

/// A JSON-RPC 2.0 message; its parameters are carried as they came.
#[derive(Debug, Clone)]
pub struct BusMessage {
    pub jsonrpc: String,
    pub method: String,
    pub params: serde_json::Value,
    pub id: Option<u64>,
}

/// What `{:?}` prints for a string: quoted, with special characters escaped.
pub uninterp spec fn debug_quoted(s: Seq<char>) -> Seq<char>;

/// `format!("{:?}", s)` on a `&str`: its debug rendering.
#[verifier::external_body]
pub(crate) fn debug_string(s: &str) -> (r: String)
    ensures
        r@ == debug_quoted(s@),
{
    format!("{:?}", s)
}

/// Why a message is refused, if it is: the version must be `"2.0"` and the
/// method must not be empty.
pub open spec fn message_problem(jsonrpc: Seq<char>, method: Seq<char>) -> Option<Seq<char>> {
    if jsonrpc != "2.0"@ {
        Some("jsonrpc must be \"2.0\", got "@ + debug_quoted(jsonrpc))
    } else if method.len() == 0 {
        Some("method must not be empty"@)
    } else {
        None
    }
}

impl BusMessage {
    /// Checks the message: `Ok` when it is a valid JSON-RPC 2.0 message.
    pub fn validate(&self) -> (r: Result<(), BusError>)
        ensures
            match message_problem(self.jsonrpc@, self.method@) {
                None => r is Ok,
                Some(m) => r matches Err(BusError::InvalidMessage(e)) && e@ == m,
            },
    {
        if !str_eq(self.jsonrpc.as_str(), "2.0") {
            let mut m = to_string("jsonrpc must be \"2.0\", got ");
            let d = debug_string(self.jsonrpc.as_str());
            push_string(&mut m, &d);
            return Err(BusError::InvalidMessage(m));
        }
        if self.method.unicode_len() == 0 {
            return Err(BusError::InvalidMessage(to_string("method must not be empty")));
        }
        Ok(())
    }
}

// ── The bus ──────────────────────────────────────────────────────────────────

/// A message waiting for an agent that is not listening.
#[derive(Debug, Clone)]
pub struct QueuedMessage {
    pub topic: Option<String>,
    pub message: BusMessage,
    pub created_at: u64,
    pub expires_at: u64,
}

/// A topic and its subscriptions, each a subscriber pid and the id of the
/// channel its messages go to.
pub type TopicView = (Seq<char>, Seq<(u32, u64)>);

pub open spec fn topic_view(e: (String, Vec<(u32, u64)>)) -> TopicView {
    (e.0@, e.1@)
}

pub open spec fn topic_views(s: Seq<(String, Vec<(u32, u64)>)>) -> Seq<TopicView> {
    s.map_values(|e: (String, Vec<(u32, u64)>)| topic_view(e))
}

/// No topic has two entries.
pub open spec fn topic_names_distinct(t: Seq<TopicView>) -> bool {
    forall|a: int, b: int| 0 <= a < b < t.len() ==> #[trigger] t[a].0 != #[trigger] t[b].0
}

proof fn lemma_names_kept(t: Seq<TopicView>, i: int, x: TopicView)
    requires
        0 <= i < t.len(),
        x.0 == t[i].0,
        topic_names_distinct(t),
    ensures
        topic_names_distinct(t.update(i, x)),
{
    let u = t.update(i, x);
    assert forall|a: int, b: int| 0 <= a < b < u.len() implies #[trigger] u[a].0 != #[trigger] u[b].0 by {
        assert(u[a].0 == t[a].0 && u[b].0 == t[b].0);
    }
}

/// `i` is the first entry of `topic`.
pub open spec fn topic_at(t: Seq<TopicView>, topic: Seq<char>, i: int) -> bool {
    0 <= i < t.len() && t[i].0 == topic && forall|j: int| 0 <= j < i ==> #[trigger] t[j].0 != topic
}

/// The subscriptions of `topic`, if it has an entry.
pub open spec fn subs_of(t: Seq<TopicView>, topic: Seq<char>) -> Option<Seq<(u32, u64)>> {
    if exists|i: int| topic_at(t, topic, i) {
        Some(t[choose|i: int| topic_at(t, topic, i)].1)
    } else {
        None
    }
}

proof fn lemma_topic_at_unique(t: Seq<TopicView>, topic: Seq<char>, i: int, k: int)
    requires
        topic_at(t, topic, i),
        topic_at(t, topic, k),
    ensures
        i == k,
{
    if i < k {
        assert(t[i].0 != topic);
    }
    if k < i {
        assert(t[k].0 != topic);
    }
}

proof fn lemma_subs_of_at(t: Seq<TopicView>, topic: Seq<char>, i: int)
    requires
        topic_at(t, topic, i),
    ensures
        subs_of(t, topic) == Some(t[i].1),
{
    let k = choose|k: int| topic_at(t, topic, k);
    lemma_topic_at_unique(t, topic, i, k);
}

/// Changing the subscriptions of the entry at `i` leaves every other topic
/// as it was.
proof fn lemma_subs_of_update(t: Seq<TopicView>, i: int, subs: Seq<(u32, u64)>, u: Seq<char>)
    requires
        0 <= i < t.len(),
        u != t[i].0,
    ensures
        subs_of(t.update(i, (t[i].0, subs)), u) == subs_of(t, u),
{
    let t2 = t.update(i, (t[i].0, subs));
    assert forall|j: int| 0 <= j < t.len() implies #[trigger] t2[j].0 == t[j].0 by {}
    if exists|k: int| topic_at(t, u, k) {
        let k = choose|k: int| topic_at(t, u, k);
        assert(topic_at(t2, u, k));
        lemma_subs_of_at(t2, u, k);
    }
    if exists|k: int| topic_at(t2, u, k) {
        let k = choose|k: int| topic_at(t2, u, k);
        assert forall|j: int| 0 <= j < k implies #[trigger] t[j].0 != u by {
            assert(t2[j].0 != u);
        }
        assert(topic_at(t, u, k));
    }
}

proof fn lemma_first_exists(t: Seq<TopicView>, u: Seq<char>, j: int)
    requires
        0 <= j < t.len(),
        t[j].0 == u,
    ensures
        exists|i: int| topic_at(t, u, i),
    decreases j,
{
    if forall|g: int| 0 <= g < j ==> #[trigger] t[g].0 != u {
        assert(topic_at(t, u, j));
    } else {
        let g = choose|g: int| 0 <= g < j && #[trigger] t[g].0 == u;
        lemma_first_exists(t, u, g);
    }
}

/// Adding an entry for a new topic leaves every other topic as it was.
proof fn lemma_subs_of_push(t: Seq<TopicView>, e: TopicView, u: Seq<char>)
    requires
        subs_of(t, e.0) is None,
    ensures
        subs_of(t.push(e), u) == if u == e.0 {
            Some(e.1)
        } else {
            subs_of(t, u)
        },
{
    let t2 = t.push(e);
    if u == e.0 {
        assert forall|j: int| 0 <= j < t.len() implies #[trigger] t2[j].0 != u by {
            if t[j].0 == u {
                lemma_first_exists(t, u, j);
            }
        }
        assert(topic_at(t2, u, t.len() as int));
        lemma_subs_of_at(t2, u, t.len() as int);
    } else {
        if exists|k: int| topic_at(t, u, k) {
            let k = choose|k: int| topic_at(t, u, k);
            assert(topic_at(t2, u, k));
            lemma_subs_of_at(t2, u, k);
        }
        if exists|k: int| topic_at(t2, u, k) {
            let k = choose|k: int| topic_at(t2, u, k);
            assert(k < t.len());
            assert forall|j: int| 0 <= j < k implies #[trigger] t[j].0 != u by {
                assert(t2[j].0 != u);
            }
            assert(topic_at(t, u, k));
        }
    }
}

/// The channel id of `pid`'s latest subscription.
pub open spec fn direct_of(d: Seq<(u32, u64)>, pid: u32) -> Option<u64>
    decreases d.len(),
{
    if d.len() == 0 {
        None
    } else if d.last().0 == pid {
        Some(d.last().1)
    } else {
        direct_of(d.drop_last(), pid)
    }
}

/// The subscriptions without those of `pid`, in order.
pub open spec fn without_pid(s: Seq<(u32, u64)>, pid: u32) -> Seq<(u32, u64)>
    decreases s.len(),
{
    if s.len() == 0 {
        Seq::empty()
    } else if s.last().0 == pid {
        without_pid(s.drop_last(), pid)
    } else {
        without_pid(s.drop_last(), pid).push(s.last())
    }
}

pub open spec fn channel_ids(s: Seq<(u32, u64)>) -> Seq<u64> {
    s.map_values(|e: (u32, u64)| e.1)
}

/// The queued messages addressed to `pid`, oldest first.
pub open spec fn queued_for(q: Seq<(u32, QueuedMessage)>, pid: u32) -> Seq<QueuedMessage>
    decreases q.len(),
{
    if q.len() == 0 {
        Seq::empty()
    } else if q.last().0 == pid {
        queued_for(q.drop_last(), pid).push(q.last().1)
    } else {
        queued_for(q.drop_last(), pid)
    }
}

/// The queued messages not addressed to `pid`, in order.
pub open spec fn queued_except(q: Seq<(u32, QueuedMessage)>, pid: u32) -> Seq<(u32, QueuedMessage)>
    decreases q.len(),
{
    if q.len() == 0 {
        Seq::empty()
    } else if q.last().0 == pid {
        queued_except(q.drop_last(), pid)
    } else {
        queued_except(q.drop_last(), pid).push(q.last())
    }
}

/// The messages of `ms` still valid at `now` (expiring after it), in order.
pub open spec fn unexpired(ms: Seq<QueuedMessage>, now: u64) -> Seq<BusMessage>
    decreases ms.len(),
{
    if ms.len() == 0 {
        Seq::empty()
    } else if ms.last().expires_at > now {
        unexpired(ms.drop_last(), now).push(ms.last().message)
    } else {
        unexpired(ms.drop_last(), now)
    }
}

/// The queued messages created less than `retention` seconds before `now`.
pub open spec fn fresh(q: Seq<(u32, QueuedMessage)>, retention: u64, now: u64) -> Seq<(u32, QueuedMessage)>
    decreases q.len(),
{
    if q.len() == 0 {
        Seq::empty()
    } else if q.last().1.created_at + retention > now {
        fresh(q.drop_last(), retention, now).push(q.last())
    } else {
        fresh(q.drop_last(), retention, now)
    }
}

/// The in-process message bus: topics with their subscriptions, each
/// agent's latest channel for direct messages, and messages queued for
/// agents that are not listening. Channels are identified by ids the bus
/// hands out; the program keeps the channel behind each id.
pub struct MessageBus {
    subscriptions: Vec<(String, Vec<(u32, u64)>)>,
    direct: Vec<(u32, u64)>,
    queued: Vec<(u32, QueuedMessage)>,
    next_id: u64,
    max_queue: usize,
    retention_secs: u64,
}

impl MessageBus {
    pub closed spec fn topics(&self) -> Seq<TopicView> {
        topic_views(self.subscriptions@)
    }

    pub closed spec fn direct_view(&self) -> Seq<(u32, u64)> {
        self.direct@
    }

    pub closed spec fn queued_view(&self) -> Seq<(u32, QueuedMessage)> {
        self.queued@
    }

    pub closed spec fn next_id_view(&self) -> u64 {
        self.next_id
    }

    pub closed spec fn max_queue_view(&self) -> usize {
        self.max_queue
    }

    pub closed spec fn retention_view(&self) -> u64 {
        self.retention_secs
    }

    /// A bus holding at most 10 000 queued messages per agent, for an hour.
    pub fn new() -> (b: Self)
        ensures
            b.topics().len() == 0,
            topic_names_distinct(b.topics()),
            b.direct_view().len() == 0,
            b.queued_view().len() == 0,
            b.next_id_view() == 0,
            b.max_queue_view() == 10000,
            b.retention_view() == 3600,
    {
        Self::with_config(10000, 3600)
    }

    pub fn with_config(max_queue: usize, retention_secs: u64) -> (b: Self)
        ensures
            b.topics().len() == 0,
            topic_names_distinct(b.topics()),
            b.direct_view().len() == 0,
            b.queued_view().len() == 0,
            b.next_id_view() == 0,
            b.max_queue_view() == max_queue,
            b.retention_view() == retention_secs,
    {
        let b = MessageBus {
            subscriptions: Vec::new(),
            direct: Vec::new(),
            queued: Vec::new(),
            next_id: 0,
            max_queue,
            retention_secs,
        };
        assert(topic_views(b.subscriptions@) =~= Seq::<TopicView>::empty());
        b
    }

    /// Whether another channel id can be handed out.
    pub fn can_subscribe(&self) -> (b: bool)
        ensures
            b == (self.next_id_view() < u64::MAX),
    {
        self.next_id < u64::MAX
    }

    fn find_topic(&self, topic: &str) -> (r: Option<usize>)
        ensures
            match r {
                Some(i) => topic_at(self.topics(), topic@, i as int),
                None => forall|j: int| 0 <= j < self.topics().len() ==> #[trigger] self.topics()[j].0 != topic@,
            },
    {
        let ghost t = self.topics();
        let mut i: usize = 0;
        while i < self.subscriptions.len()
            invariant
                i <= self.subscriptions@.len(),
                t == topic_views(self.subscriptions@),
                forall|j: int| 0 <= j < i ==> #[trigger] t[j].0 != topic@,
            decreases self.subscriptions.len() - i,
        {
            if str_eq(self.subscriptions[i].0.as_str(), topic) {
                return Some(i);
            }
            i = i + 1;
        }
        None
    }

    /// Subscribes agent `pid` to `topic` on a new channel, which also
    /// becomes the agent's channel for direct messages; returns its id.
    pub fn subscribe(&mut self, pid: u32, topic: &str) -> (id: u64)
        requires
            old(self).next_id_view() < u64::MAX,
        ensures
            id == old(self).next_id_view(),
            final(self).next_id_view() == id + 1,
            subs_of(final(self).topics(), topic@) == Some(
                match subs_of(old(self).topics(), topic@) {
                    Some(s) => s,
                    None => Seq::empty(),
                }.push((pid, id)),
            ),
            forall|u: Seq<char>| u != topic@ ==> #[trigger] subs_of(final(self).topics(), u) == subs_of(old(self).topics(), u),
            topic_names_distinct(old(self).topics()) ==> topic_names_distinct(final(self).topics()),
            final(self).direct_view() == old(self).direct_view().push((pid, id)),
            final(self).queued_view() == old(self).queued_view(),
            final(self).max_queue_view() == old(self).max_queue_view(),
            final(self).retention_view() == old(self).retention_view(),
    {
        let id = self.next_id;
        let ghost t = self.topics();
        match self.find_topic(topic) {
            Some(i) => {
                let mut entry = self.subscriptions.remove(i);
                let ghost old_subs = entry.1@;
                entry.1.push((pid, id));
                self.subscriptions.insert(i, entry);
                proof {
                    assert(self.topics() =~= t.update(i as int, (t[i as int].0, old_subs.push((pid, id)))));
                    if topic_names_distinct(t) {
                        lemma_names_kept(t, i as int, (t[i as int].0, old_subs.push((pid, id))));
                    }
                    let t2 = self.topics();
                    assert(topic_at(t2, topic@, i as int));
                    lemma_subs_of_at(t2, topic@, i as int);
                    lemma_subs_of_at(t, topic@, i as int);
                    assert forall|u: Seq<char>| u != topic@ implies #[trigger] subs_of(t2, u) == subs_of(t, u) by {
                        lemma_subs_of_update(t, i as int, old_subs.push((pid, id)), u);
                    }
                }
            },
            None => {
                let mut subs: Vec<(u32, u64)> = Vec::new();
                subs.push((pid, id));
                self.subscriptions.push((to_string(topic), subs));
                proof {
                    if exists|k: int| topic_at(t, topic@, k) {
                        let k = choose|k: int| topic_at(t, topic@, k);
                        assert(t[k].0 == topic@);
                    }
                    assert(self.topics() =~= t.push((topic@, seq![(pid, id)])));
                    let t2 = self.topics();
                    assert forall|a: int, b: int| topic_names_distinct(t) && 0 <= a < b < t2.len() implies #[trigger] t2[a].0
                        != #[trigger] t2[b].0 by {
                        assert(t2[a] == t[a]);
                        if b < t.len() {
                            assert(t2[b] == t[b]);
                        }
                    }
                    assert forall|u: Seq<char>| #[trigger] subs_of(self.topics(), u) == if u == topic@ {
                        Some(seq![(pid, id)])
                    } else {
                        subs_of(t, u)
                    } by {
                        lemma_subs_of_push(t, (topic@, seq![(pid, id)]), u);
                    }
                    assert(Seq::<(u32, u64)>::empty().push((pid, id)) =~= seq![(pid, id)]);
                }
            },
        }
        self.direct.push((pid, id));
        self.next_id = id + 1;
        id
    }
}

impl MessageBus {
    /// Unsubscribes agent `pid` from `topic`, dropping all its
    /// subscriptions there (its direct channel stays).
    pub fn unsubscribe(&mut self, pid: u32, topic: &str) -> (r: Result<(), BusError>)
        ensures
            match subs_of(old(self).topics(), topic@) {
                None => (r matches Err(BusError::TopicNotFound(t)) && t@ == topic@) && final(self).topics()
                    == old(self).topics(),
                Some(s) => if without_pid(s, pid).len() == s.len() {
                    (r matches Err(BusError::NotSubscribed(p, t)) && p == pid && t@ == topic@) && final(self).topics() == old(self).topics()
                } else {
                    r is Ok && subs_of(final(self).topics(), topic@) == Some(without_pid(s, pid))
                },
            },
            forall|u: Seq<char>| u != topic@ ==> #[trigger] subs_of(final(self).topics(), u) == subs_of(old(self).topics(), u),
            topic_names_distinct(old(self).topics()) ==> topic_names_distinct(final(self).topics()),
            final(self).direct_view() == old(self).direct_view(),
            final(self).queued_view() == old(self).queued_view(),
            final(self).next_id_view() == old(self).next_id_view(),
            final(self).max_queue_view() == old(self).max_queue_view(),
            final(self).retention_view() == old(self).retention_view(),
    {
        let ghost t = self.topics();
        let i = match self.find_topic(topic) {
            Some(i) => i,
            None => {
                proof {
                    if exists|k: int| topic_at(t, topic@, k) {
                        let k = choose|k: int| topic_at(t, topic@, k);
                        assert(t[k].0 == topic@);
                    }
                }
                return Err(BusError::TopicNotFound(to_string(topic)));
            },
        };
        proof {
            lemma_subs_of_at(t, topic@, i as int);
        }
        let ghost s = t[i as int].1;
        let mut kept: Vec<(u32, u64)> = Vec::new();
        let mut j: usize = 0;
        let n = self.subscriptions[i].1.len();
        while j < n
            invariant
                j <= n,
                i < self.subscriptions@.len(),
                n == self.subscriptions@[i as int].1@.len(),
                s == self.subscriptions@[i as int].1@,
                kept@ == without_pid(s.take(j as int), pid),
            decreases n - j,
        {
            let e = self.subscriptions[i].1[j];
            proof {
                assert(s.take(j + 1).drop_last() =~= s.take(j as int));
            }
            if e.0 != pid {
                kept.push(e);
            }
            j = j + 1;
        }
        proof {
            assert(s.take(n as int) =~= s);
        }
        if kept.len() == n {
            return Err(BusError::NotSubscribed(pid, to_string(topic)));
        }
        let mut entry = self.subscriptions.remove(i);
        entry.1 = kept;
        self.subscriptions.insert(i, entry);
        proof {
            assert(self.topics() =~= t.update(i as int, (t[i as int].0, without_pid(s, pid))));
            if topic_names_distinct(t) {
                lemma_names_kept(t, i as int, (t[i as int].0, without_pid(s, pid)));
            }
            let t2 = self.topics();
            assert(topic_at(t2, topic@, i as int));
            lemma_subs_of_at(t2, topic@, i as int);
            assert forall|u: Seq<char>| u != topic@ implies #[trigger] subs_of(t2, u) == subs_of(t, u) by {
                lemma_subs_of_update(t, i as int, without_pid(s, pid), u);
            }
        }
        Ok(())
    }

    /// The channels a message published on `topic` goes to, one per
    /// subscription, in subscription order; none when the topic has no
    /// entry. An invalid message goes nowhere.
    pub fn publish_targets(&self, topic: &str, message: &BusMessage) -> (r: Result<Vec<u64>, BusError>)
        ensures
            match message_problem(message.jsonrpc@, message.method@) {
                Some(m) => r matches Err(BusError::InvalidMessage(e)) && e@ == m,
                None => r matches Ok(ids) && ids@ == match subs_of(self.topics(), topic@) {
                    Some(s) => channel_ids(s),
                    None => Seq::empty(),
                },
            },
    {
        match message.validate() {
            Ok(()) => {},
            Err(e) => return Err(e),
        }
        let ghost t = self.topics();
        match self.find_topic(topic) {
            None => {
                proof {
                    if exists|k: int| topic_at(t, topic@, k) {
                        let k = choose|k: int| topic_at(t, topic@, k);
                        assert(t[k].0 == topic@);
                    }
                }
                Ok(Vec::new())
            },
            Some(i) => {
                proof {
                    lemma_subs_of_at(t, topic@, i as int);
                }
                let subs = &self.subscriptions[i].1;
                let mut ids: Vec<u64> = Vec::new();
                let mut j: usize = 0;
                while j < subs.len()
                    invariant
                        j <= subs@.len(),
                        ids@ == channel_ids(subs@.take(j as int)),
                    decreases subs.len() - j,
                {
                    ids.push(subs[j].1);
                    proof {
                        assert(channel_ids(subs@.take(j + 1)) =~= channel_ids(subs@.take(j as int)).push(subs@[j as int].1));
                    }
                    j = j + 1;
                }
                proof {
                    assert(subs@.take(j as int) =~= subs@);
                }
                Ok(ids)
            },
        }
    }

    /// The channel a direct message to `pid` goes to: its latest
    /// subscription's.
    pub fn direct_target(&self, pid: u32, message: &BusMessage) -> (r: Result<u64, BusError>)
        ensures
            match message_problem(message.jsonrpc@, message.method@) {
                Some(m) => r matches Err(BusError::InvalidMessage(e)) && e@ == m,
                None => match direct_of(self.direct_view(), pid) {
                    Some(id) => r == Ok::<u64, BusError>(id),
                    None => r matches Err(BusError::NoSubscriber(p)) && p == pid,
                },
            },
    {
        match message.validate() {
            Ok(()) => {},
            Err(e) => return Err(e),
        }
        let ghost d = self.direct@;
        let mut k = self.direct.len();
        assert(d.take(k as int) =~= d);
        while k > 0
            invariant
                k <= d.len(),
                d == self.direct@,
                message_problem(message.jsonrpc@, message.method@) is None,
                direct_of(d, pid) == direct_of(d.take(k as int), pid),
            decreases k,
        {
            assert(d.take(k as int).drop_last() =~= d.take(k - 1));
            if self.direct[k - 1].0 == pid {
                return Ok(self.direct[k - 1].1);
            }
            k = k - 1;
        }
        Err(BusError::NoSubscriber(pid))
    }

    fn count_for(&self, pid: u32) -> (n: usize)
        ensures
            n == queued_for(self.queued@, pid).len(),
    {
        let mut n: usize = 0;
        let mut i: usize = 0;
        while i < self.queued.len()
            invariant
                i <= self.queued@.len(),
                n == queued_for(self.queued@.take(i as int), pid).len(),
                n <= i,
            decreases self.queued.len() - i,
        {
            proof {
                assert(self.queued@.take(i + 1).drop_last() =~= self.queued@.take(i as int));
            }
            if self.queued[i].0 == pid {
                n = n + 1;
            }
            i = i + 1;
        }
        proof {
            assert(self.queued@.take(i as int) =~= self.queued@);
        }
        n
    }

    /// Queues a message for agent `target`, received at time `now` (Unix
    /// seconds): it keeps until `now` plus the retention time. A full
    /// queue, or an invalid message, is refused.
    pub fn queue_for_offline(&mut self, target: u32, topic: Option<&str>, message: BusMessage, now: u64) -> (r: Result<(), BusError>)
        requires
            now + old(self).retention_view() <= u64::MAX,
        ensures
            match message_problem(message.jsonrpc@, message.method@) {
                Some(m) => (r matches Err(BusError::InvalidMessage(e)) && e@ == m) && final(self).queued_view()
                    == old(self).queued_view(),
                None => if queued_for(old(self).queued_view(), target).len() >= old(self).max_queue_view() {
                    (r matches Err(BusError::QueueFull(n)) && n == old(self).max_queue_view()) && final(self).queued_view() == old(self).queued_view()
                } else {
                    r is Ok && final(self).queued_view().len() == old(self).queued_view().len() + 1
                        && final(self).queued_view().drop_last() == old(self).queued_view() && final(self).queued_view().last().0 == target && ({
                        let q = final(self).queued_view().last().1;
                        &&& q.message == message
                        &&& q.created_at == now
                        &&& q.expires_at == now + old(self).retention_view()
                        &&& match topic {
                            Some(t) => q.topic matches Some(u) && u@ == t@,
                            None => q.topic is None,
                        }
                    })
                },
            },
            final(self).topics() == old(self).topics(),
            final(self).direct_view() == old(self).direct_view(),
            final(self).next_id_view() == old(self).next_id_view(),
            final(self).max_queue_view() == old(self).max_queue_view(),
            final(self).retention_view() == old(self).retention_view(),
    {
        match message.validate() {
            Ok(()) => {},
            Err(e) => return Err(e),
        }
        if self.count_for(target) >= self.max_queue {
            return Err(BusError::QueueFull(self.max_queue));
        }
        let topic_owned = match topic {
            Some(t) => Some(to_string(t)),
            None => None,
        };
        self.queued.push(
            (target, QueuedMessage { topic: topic_owned, message, created_at: now, expires_at: now + self.retention_secs }),
        );
        proof {
            assert(self.queued@.drop_last() =~= old(self).queued@);
        }
        Ok(())
    }

    /// Hands over the messages queued for `target` that have not expired by
    /// `now`, oldest first, and forgets all of that agent's queue.
    pub fn deliver_queued(&mut self, target: u32, now: u64) -> (r: Vec<BusMessage>)
        ensures
            r@ == unexpired(queued_for(old(self).queued_view(), target), now),
            final(self).queued_view() == queued_except(old(self).queued_view(), target),
            final(self).topics() == old(self).topics(),
            final(self).direct_view() == old(self).direct_view(),
            final(self).next_id_view() == old(self).next_id_view(),
            final(self).max_queue_view() == old(self).max_queue_view(),
            final(self).retention_view() == old(self).retention_view(),
    {
        let ghost q = self.queued@;
        let mut all: Vec<(u32, QueuedMessage)> = Vec::new();
        std::mem::swap(&mut all, &mut self.queued);
        let total = all.len();
        let mut rest: Vec<(u32, QueuedMessage)> = Vec::new();
        let mut out: Vec<BusMessage> = Vec::new();
        let mut k: usize = 0;
        while all.len() > 0
            invariant
                k <= q.len(),
                q.len() == total,
                k + all@.len() == q.len(),
                all@ == q.skip(k as int),
                rest@ == queued_except(q.take(k as int), target),
                out@ == unexpired(queued_for(q.take(k as int), target), now),
            decreases all.len(),
        {
            let e = all.remove(0);
            proof {
                assert(q.skip(k as int)[0] == e);
                assert(all@ =~= q.skip(k + 1));
                assert(q.take(k + 1).drop_last() =~= q.take(k as int));
                assert(q.take(k + 1).last() == e);
            }
            if e.0 == target {
                proof {
                    assert(queued_for(q.take(k + 1), target).drop_last() =~= queued_for(q.take(k as int), target));
                }
                if e.1.expires_at > now {
                    out.push(e.1.message);
                }
            } else {
                rest.push(e);
            }
            k = k + 1;
        }
        proof {
            assert(q.take(k as int) =~= q);
        }
        self.queued = rest;
        out
    }

    /// Drops every queued message created `retention_secs` or more before
    /// `now`.
    pub fn expire_old_messages(&mut self, retention_secs: u64, now: u64)
        ensures
            final(self).queued_view() == fresh(old(self).queued_view(), retention_secs, now),
            final(self).topics() == old(self).topics(),
            final(self).direct_view() == old(self).direct_view(),
            final(self).next_id_view() == old(self).next_id_view(),
            final(self).max_queue_view() == old(self).max_queue_view(),
            final(self).retention_view() == old(self).retention_view(),
    {
        let ghost q = self.queued@;
        let mut all: Vec<(u32, QueuedMessage)> = Vec::new();
        std::mem::swap(&mut all, &mut self.queued);
        let total = all.len();
        let mut kept: Vec<(u32, QueuedMessage)> = Vec::new();
        let mut k: usize = 0;
        while all.len() > 0
            invariant
                k <= q.len(),
                q.len() == total,
                k + all@.len() == q.len(),
                all@ == q.skip(k as int),
                kept@ == fresh(q.take(k as int), retention_secs, now),
            decreases all.len(),
        {
            let e = all.remove(0);
            proof {
                assert(q.skip(k as int)[0] == e);
                assert(all@ =~= q.skip(k + 1));
                assert(q.take(k + 1).drop_last() =~= q.take(k as int));
                assert(q.take(k + 1).last() == e);
            }
            let created = e.1.created_at;
            let keep = created > now || now - created < retention_secs;
            if keep {
                kept.push(e);
            }
            k = k + 1;
        }
        proof {
            assert(q.take(k as int) =~= q);
        }
        self.queued = kept;
    }
}

/// The message is queued under topic `name`.
pub open spec fn topic_is(m: QueuedMessage, name: Seq<char>) -> bool {
    m.topic matches Some(t) && t@ == name
}

/// How many queued messages are under topic `name`.
pub open spec fn count_topic(q: Seq<(u32, QueuedMessage)>, name: Seq<char>) -> nat
    decreases q.len(),
{
    if q.len() == 0 {
        0
    } else {
        count_topic(q.drop_last(), name) + if topic_is(q.last().1, name) {
            1nat
        } else {
            0nat
        }
    }
}

/// The message is direct, or under a topic that has an entry.
pub open spec fn pending_counted(t: Seq<TopicView>, m: QueuedMessage) -> bool {
    match m.topic {
        None => true,
        Some(x) => exists|i: int| 0 <= i < t.len() && #[trigger] t[i].0 == x@,
    }
}

/// How many queued messages are direct or under a topic with an entry.
pub open spec fn count_pending(q: Seq<(u32, QueuedMessage)>, t: Seq<TopicView>) -> nat
    decreases q.len(),
{
    if q.len() == 0 {
        0
    } else {
        count_pending(q.drop_last(), t) + if pending_counted(t, q.last().1) {
            1nat
        } else {
            0nat
        }
    }
}

impl MessageBus {
    fn count_topic_exec(&self, name: &String) -> (n: usize)
        ensures
            n == count_topic(self.queued@, name@),
    {
        let mut n: usize = 0;
        let mut i: usize = 0;
        while i < self.queued.len()
            invariant
                i <= self.queued@.len(),
                n == count_topic(self.queued@.take(i as int), name@),
                n <= i,
            decreases self.queued.len() - i,
        {
            proof {
                assert(self.queued@.take(i + 1).drop_last() =~= self.queued@.take(i as int));
            }
            match &self.queued[i].1.topic {
                Some(t) => {
                    if str_eq(t.as_str(), name.as_str()) {
                        n = n + 1;
                    }
                },
                None => {},
            }
            i = i + 1;
        }
        proof {
            assert(self.queued@.take(i as int) =~= self.queued@);
        }
        n
    }

    /// What the bus holds: each topic with its subscription count and the
    /// messages queued under it, and the count of messages pending in all
    /// (direct ones, and those under a topic with an entry).
    pub fn inspect(&self) -> (r: BusInspection)
        ensures
            r.topics@.len() == self.topics().len(),
            forall|i: int|
                0 <= i < r.topics@.len() ==> {
                    &&& (#[trigger] r.topics@[i]).name@ == self.topics()[i].0
                    &&& r.topics@[i].subscriber_count == self.topics()[i].1.len()
                    &&& r.topics@[i].pending_count == count_topic(self.queued_view(), self.topics()[i].0)
                },
            r.pending_messages == count_pending(self.queued_view(), self.topics()),
    {
        let ghost t = self.topics();
        let mut topics: Vec<TopicInfo> = Vec::new();
        let mut i: usize = 0;
        while i < self.subscriptions.len()
            invariant
                i <= self.subscriptions@.len(),
                t == topic_views(self.subscriptions@),
                topics@.len() == i,
                forall|j: int|
                    0 <= j < i ==> {
                        &&& (#[trigger] topics@[j]).name@ == t[j].0
                        &&& topics@[j].subscriber_count == t[j].1.len()
                        &&& topics@[j].pending_count == count_topic(self.queued@, t[j].0)
                    },
            decreases self.subscriptions.len() - i,
        {
            let name = &self.subscriptions[i].0;
            let pending = self.count_topic_exec(name);
            topics.push(
                TopicInfo {
                    name: to_string(name.as_str()),
                    subscriber_count: self.subscriptions[i].1.len(),
                    pending_count: pending,
                },
            );
            i = i + 1;
        }
        let mut total: usize = 0;
        let mut k: usize = 0;
        while k < self.queued.len()
            invariant
                k <= self.queued@.len(),
                t == self.topics(),
                total == count_pending(self.queued@.take(k as int), t),
                total <= k,
            decreases self.queued.len() - k,
        {
            proof {
                assert(self.queued@.take(k + 1).drop_last() =~= self.queued@.take(k as int));
            }
            let counted = match &self.queued[k].1.topic {
                None => true,
                Some(x) => {
                    let found = self.find_topic(x.as_str());
                    proof {
                        if let Some(j) = found {
                            assert(t[j as int].0 == x@);
                        }
                    }
                    found.is_some()
                },
            };
            if counted {
                total = total + 1;
            }
            k = k + 1;
        }
        proof {
            assert(self.queued@.take(k as int) =~= self.queued@);
        }
        BusInspection { topics, pending_messages: total }
    }
}

/// A message queued for an agent is handed over once, and only while it has
/// not expired: delivering empties the agent's queue and keeps every other
/// agent's.
pub proof fn delivery_drains_the_queue(q: Seq<(u32, QueuedMessage)>, target: u32, other: u32)
    requires
        other != target,
    ensures
        queued_for(queued_except(q, target), target).len() == 0,
        queued_for(queued_except(q, target), other) == queued_for(q, other),
    decreases q.len(),
{
    if q.len() > 0 {
        delivery_drains_the_queue(q.drop_last(), target, other);
        if q.last().0 != target {
            assert(queued_except(q, target).drop_last() =~= queued_except(q.drop_last(), target));
        }
    }
}

/// Once an agent is unsubscribed from a topic, none of the topic's
/// subscriptions are its own, so nothing published there reaches it.
pub proof fn unsubscribed_agent_gets_nothing(s: Seq<(u32, u64)>, pid: u32)
    ensures
        forall|i: int| 0 <= i < without_pid(s, pid).len() ==> (#[trigger] without_pid(s, pid)[i]).0 != pid,
    decreases s.len(),
{
    if s.len() > 0 {
        unsubscribed_agent_gets_nothing(s.drop_last(), pid);
        let w = without_pid(s.drop_last(), pid);
        if s.last().0 != pid {
            assert forall|i: int| 0 <= i < w.push(s.last()).len() implies (#[trigger] w.push(s.last())[i]).0 != pid by {
                if i < w.len() {
                    assert(w.push(s.last())[i] == w[i]);
                }
            }
        }
    }
}

} // verus!
