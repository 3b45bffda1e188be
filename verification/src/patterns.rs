//! Repeated action sequences: the patterns a user's recorded actions show,
//! offered to be turned into agents.
use vstd::prelude::*;

use vstd::utf8::{decode_utf8, encode_utf8, encode_utf8_decode_utf8, is_char_boundary};

use crate::signature::hex_digit;
use crate::text::{dec, push_decimal, push_str, push_string, str_eq, texts, to_string};

verus! {

#[derive(Debug)]
pub enum PatternError {
    Database(String),
    NotFound(String),
    Serialization(String),
}

/// A sequence of actions seen often enough to be offered as an agent.
#[derive(Debug, Clone)]
pub struct DetectedPattern {
    pub id: String,
    pub action_sequence: Vec<String>,
    pub occurrence_count: u32,
}

/// A stored pattern with its review status.
#[derive(Debug, Clone)]
pub struct PatternRecord {
    pub id: String,
    pub action_sequence: Vec<String>,
    pub occurrence_count: u32,
    pub last_occurrence: String,
    pub status: String,
}

impl PatternError {
    /// The error's message, as the program prints it.
    pub fn message(&self) -> (s: String)
        ensures
            s@ == match *self {
                PatternError::Database(m) => "database error: "@ + m@,
                PatternError::NotFound(m) => "pattern not found: "@ + m@,
                PatternError::Serialization(m) => "serialization error: "@ + m@,
            },
    {
        let (head, m) = match self {
            PatternError::Database(m) => ("database error: ", m),
            PatternError::NotFound(m) => ("pattern not found: ", m),
            PatternError::Serialization(m) => ("serialization error: ", m),
        };
        let mut s = to_string(head);
        crate::text::push_string(&mut s, m);
        s
    }
}

// ── Finding repeated sequences ───────────────────────────────────────────────

/// The `l` actions of `log` starting at `s`.
pub open spec fn window(log: Seq<Seq<char>>, s: int, l: int) -> Seq<Seq<char>> {
    log.subrange(s, s + l)
}

/// How many of the first `k` starting positions begin a copy of `w`.
pub open spec fn occurrences_upto(log: Seq<Seq<char>>, w: Seq<Seq<char>>, k: int) -> nat
    decreases k,
{
    if k <= 0 {
        0
    } else {
        occurrences_upto(log, w, k - 1) + if k - 1 + w.len() <= log.len() && window(log, k - 1, w.len() as int)
            == w {
            1nat
        } else {
            0nat
        }
    }
}

/// How many times `w` occurs in `log`, overlapping copies included.
pub open spec fn occurrences(log: Seq<Seq<char>>, w: Seq<Seq<char>>) -> nat {
    occurrences_upto(log, w, log.len() as int)
}

/// A pattern: three or more consecutive actions repeated at least five
/// times.
pub open spec fn is_pattern(log: Seq<Seq<char>>, w: Seq<Seq<char>>) -> bool {
    w.len() >= 3 && occurrences(log, w) >= 5 && exists|s: int| 0 <= s && s + w.len() <= log.len() && #[trigger] window(
        log,
        s,
        w.len() as int,
    ) == w
}

pub open spec fn found_view(f: (Vec<String>, u32)) -> (Seq<Seq<char>>, u32) {
    (texts(f.0@), f.1)
}

proof fn lemma_occurrences_bound(log: Seq<Seq<char>>, w: Seq<Seq<char>>, k: int)
    requires
        k >= 0,
    ensures
        occurrences_upto(log, w, k) <= k,
    decreases k,
{
    if k > 0 {
        lemma_occurrences_bound(log, w, k - 1);
    }
}

fn same_window(log: &Vec<String>, a: usize, b: usize, l: usize) -> (r: bool)
    requires
        a + l <= log@.len(),
        b + l <= log@.len(),
    ensures
        r == (window(texts(log@), a as int, l as int) == window(texts(log@), b as int, l as int)),
{
    let ghost t = texts(log@);
    let n = log.len();
    let mut i: usize = 0;
    while i < l
        invariant
            i <= l,
            n == log@.len(),
            a + l <= log@.len(),
            b + l <= log@.len(),
            t == texts(log@),
            forall|j: int| 0 <= j < i ==> #[trigger] window(t, a as int, l as int)[j] == window(t, b as int, l as int)[j],
        decreases l - i,
    {
        if !str_eq(log[a + i].as_str(), log[b + i].as_str()) {
            assert(window(t, a as int, l as int)[i as int] != window(t, b as int, l as int)[i as int]);
            return false;
        }
        i = i + 1;
    }
    assert(window(t, a as int, l as int) =~= window(t, b as int, l as int));
    true
}

fn count_window(log: &Vec<String>, s: usize, l: usize) -> (c: u32)
    requires
        s + l <= log@.len(),
        log@.len() <= u32::MAX,
    ensures
        c == occurrences(texts(log@), window(texts(log@), s as int, l as int)),
{
    let ghost t = texts(log@);
    let ghost w = window(t, s as int, l as int);
    let n = log.len();
    let mut c: u32 = 0;
    let mut k: usize = 0;
    while k < n
        invariant
            k <= n,
            n == log@.len(),
            n <= u32::MAX,
            s + l <= n,
            t == texts(log@),
            w == window(t, s as int, l as int),
            w.len() == l,
            c == occurrences_upto(t, w, k as int),
        decreases n - k,
    {
        proof {
            lemma_occurrences_bound(t, w, k as int);
        }
        if l <= n - k && same_window(log, k, s, l) {
            c = c + 1;
        }
        k = k + 1;
    }
    c
}

fn first_at(log: &Vec<String>, s: usize, l: usize) -> (r: bool)
    requires
        s + l <= log@.len(),
    ensures
        r == (forall|p: int| 0 <= p < s ==> #[trigger] window(texts(log@), p, l as int) != window(texts(log@), s as int, l as int)),
{
    let mut p: usize = 0;
    while p < s
        invariant
            p <= s,
            s + l <= log@.len(),
            forall|q: int| 0 <= q < p ==> #[trigger] window(texts(log@), q, l as int) != window(texts(log@), s as int, l as int),
        decreases s - p,
    {
        if same_window(log, p, s, l) {
            return false;
        }
        p = p + 1;
    }
    true
}

fn window_strings(log: &Vec<String>, s: usize, l: usize) -> (r: Vec<String>)
    requires
        s + l <= log@.len(),
    ensures
        texts(r@) == window(texts(log@), s as int, l as int),
{
    let mut out: Vec<String> = Vec::new();
    let n = log.len();
    let mut i: usize = 0;
    while i < l
        invariant
            i <= l,
            n == log@.len(),
            s + l <= log@.len(),
            texts(out@) == window(texts(log@), s as int, i as int),
        decreases l - i,
    {
        let ghost before = out@;
        out.push(to_string(log[s + i].as_str()));
        assert(texts(out@) =~= texts(before).push(texts(log@)[s + i]));
        assert(window(texts(log@), s as int, i + 1) =~= window(texts(log@), s as int, i as int).push(texts(log@)[s + i]));
        i = i + 1;
    }
    out
}

pub open spec fn found_views(s: Seq<(Vec<String>, u32)>) -> Seq<(Seq<Seq<char>>, u32)> {
    s.map_values(|f: (Vec<String>, u32)| found_view(f))
}

/// `w` is among the found patterns.
pub open spec fn listed(ov: Seq<(Seq<Seq<char>>, u32)>, w: Seq<Seq<char>>) -> bool {
    exists|i: int| 0 <= i < ov.len() && (#[trigger] ov[i]).0 == w
}

/// Every found pattern is one, with its count.
pub open spec fn all_genuine(t: Seq<Seq<char>>, ov: Seq<(Seq<Seq<char>>, u32)>) -> bool {
    forall|i: int| 0 <= i < ov.len() ==> is_pattern(t, (#[trigger] ov[i]).0) && ov[i].1 == occurrences(t, ov[i].0)
}

/// No pattern is found twice, and shorter ones come first.
pub open spec fn ordered(ov: Seq<(Seq<Seq<char>>, u32)>) -> bool {
    forall|i: int, j: int| 0 <= i < j < ov.len() ==> (#[trigger] ov[i]).0 != (#[trigger] ov[j]).0 && ov[i].0.len() <= ov[j].0.len()
}

/// Every pattern of length below `l` is found.
pub open spec fn covered_below(t: Seq<Seq<char>>, ov: Seq<(Seq<Seq<char>>, u32)>, l: int) -> bool {
    forall|q: int, m: int|
        0 <= q && 3 <= m < l && q + m <= t.len() && occurrences(t, #[trigger] window(t, q, m)) >= 5 ==> listed(ov, window(t, q, m))
}

/// Every pattern of length `l` starting before `s` is found.
pub open spec fn covered_row(t: Seq<Seq<char>>, ov: Seq<(Seq<Seq<char>>, u32)>, l: int, s: int) -> bool {
    forall|q: int| 0 <= q < s && q + l <= t.len() && occurrences(t, #[trigger] window(t, q, l)) >= 5 ==> listed(ov, window(t, q, l))
}

/// The patterns found from entry `from` on have length `l` and start
/// somewhere before `s`.
pub open spec fn row_from(t: Seq<Seq<char>>, ov: Seq<(Seq<Seq<char>>, u32)>, from: int, l: int, s: int) -> bool {
    &&& forall|i: int| 0 <= i < from ==> (#[trigger] ov[i]).0.len() < l
    &&& forall|i: int| from <= i < ov.len() ==> (#[trigger] ov[i]).0.len() == l && exists|p: int|
        0 <= p < s && #[trigger] window(t, p, l) == ov[i].0
}

proof fn lemma_listed_push(ov: Seq<(Seq<Seq<char>>, u32)>, x: (Seq<Seq<char>>, u32), w: Seq<Seq<char>>)
    requires
        listed(ov, w) || x.0 == w,
    ensures
        listed(ov.push(x), w),
{
    if listed(ov, w) {
        let i = choose|i: int| 0 <= i < ov.len() && (#[trigger] ov[i]).0 == w;
        assert(ov.push(x)[i].0 == w);
    } else {
        assert(ov.push(x)[ov.len() as int].0 == w);
    }
}

/// The patterns in a log of actions, each with how often it occurs:
/// every run of three or more actions that occurs five times or more, once,
/// shorter runs first.
#[verifier::rlimit(60)]
pub fn find_patterns(log: &Vec<String>) -> (r: Vec<(Vec<String>, u32)>)
    requires
        log@.len() < u32::MAX,
    ensures
        all_genuine(texts(log@), found_views(r@)),
        covered_below(texts(log@), found_views(r@), log@.len() + 1 as int),
        ordered(found_views(r@)),
{
    let ghost t = texts(log@);
    let n = log.len();
    let mut out: Vec<(Vec<String>, u32)> = Vec::new();
    if n < 3 {
        proof {
            assert forall|q: int, m: int|
                0 <= q && 3 <= m < t.len() + 1 && q + m <= t.len() && occurrences(t, #[trigger] window(t, q, m)) >= 5 implies listed(
                found_views(out@),
                window(t, q, m),
            ) by {}
        }
        return out;
    }
    let mut l: usize = 3;
    while l <= n
        invariant
            3 <= l <= n + 1,
            n == log@.len(),
            n < u32::MAX,
            t == texts(log@),
            t.len() == n,
            all_genuine(t, found_views(out@)),
            ordered(found_views(out@)),
            forall|i: int| 0 <= i < out@.len() ==> (#[trigger] found_views(out@)[i]).0.len() < l,
            covered_below(t, found_views(out@), l as int),
        decreases n + 1 - l,
    {
        let ghost before_len = out@.len() as int;
        let mut s: usize = 0;
        while s <= n - l
            invariant
                3 <= l <= n,
                n == log@.len(),
                n < u32::MAX,
                t == texts(log@),
                t.len() == n,
                0 <= before_len <= out@.len(),
                all_genuine(t, found_views(out@)),
                ordered(found_views(out@)),
                row_from(t, found_views(out@), before_len, l as int, s as int),
                covered_below(t, found_views(out@), l as int),
                covered_row(t, found_views(out@), l as int, s as int),
            decreases n - s,
        {
            let ghost ov = found_views(out@);
            let ghost wv = window(t, s as int, l as int);
            if first_at(log, s, l) {
                let c = count_window(log, s, l);
                if c >= 5 {
                    let w = window_strings(log, s, l);
                    proof {
                        assert(window(t, s as int, wv.len() as int) == wv);
                        assert(is_pattern(t, wv));
                        assert forall|i: int| 0 <= i < ov.len() implies (#[trigger] ov[i]).0 != wv by {
                            if i >= before_len {
                                let p = choose|p: int| 0 <= p < s && #[trigger] window(t, p, l as int) == ov[i].0;
                                assert(window(t, p, l as int) != window(t, s as int, l as int));
                            } else {
                                assert(ov[i].0.len() < l);
                            }
                        }
                    }
                    out.push((w, c));
                    proof {
                        let nv = found_views(out@);
                        assert(nv =~= ov.push((wv, c)));
                        assert forall|q: int, m: int|
                            0 <= q && 3 <= m < l && q + m <= t.len() && occurrences(t, #[trigger] window(t, q, m)) >= 5 implies listed(
                            nv,
                            window(t, q, m),
                        ) by {
                            lemma_listed_push(ov, (wv, c), window(t, q, m));
                        }
                        assert forall|q: int| 0 <= q < s + 1 && q + l <= t.len() && occurrences(t, #[trigger] window(t, q, l as int)) >= 5 implies listed(
                            nv,
                            window(t, q, l as int),
                        ) by {
                            if q < s {
                                lemma_listed_push(ov, (wv, c), window(t, q, l as int));
                            } else {
                                lemma_listed_push(ov, (wv, c), wv);
                            }
                        }
                        assert forall|i: int| before_len <= i < nv.len() implies (#[trigger] nv[i]).0.len() == l && exists|p: int|
                            0 <= p < s + 1 && #[trigger] window(t, p, l as int) == nv[i].0 by {
                            if i < ov.len() {
                                assert(nv[i] == ov[i]);
                                let p = choose|p: int| 0 <= p < s && #[trigger] window(t, p, l as int) == ov[i].0;
                                assert(window(t, p, l as int) == nv[i].0);
                            } else {
                                assert(window(t, s as int, l as int) == nv[i].0);
                            }
                        }
                    }
                }
            } else {
                proof {
                    let p = choose|p: int| 0 <= p < s && #[trigger] window(t, p, l as int) == window(t, s as int, l as int);
                    assert forall|q: int| 0 <= q < s + 1 && q + l <= t.len() && occurrences(t, #[trigger] window(t, q, l as int)) >= 5 implies listed(
                        ov,
                        window(t, q, l as int),
                    ) by {
                        if q == s {
                            assert(window(t, p, l as int) == window(t, q, l as int));
                        }
                    }
                }
            }
            s = s + 1;
        }
        proof {
            let ov = found_views(out@);
            assert forall|q: int, m: int|
                0 <= q && 3 <= m < l + 1 && q + m <= t.len() && occurrences(t, #[trigger] window(t, q, m)) >= 5 implies listed(
                ov,
                window(t, q, m),
            ) by {
                if m == l {
                    assert(q < s);
                }
            }
        }
        l = l + 1;
    }
    out
}

/// A run shorter than three actions, or seen fewer than five times, is no
/// pattern.
pub proof fn short_or_rare_runs_are_no_patterns(t: Seq<Seq<char>>, w: Seq<Seq<char>>)
    requires
        w.len() < 3 || occurrences(t, w) < 5,
    ensures
        !is_pattern(t, w),
{
}

// ── A manifest for an accepted pattern ───────────────────────────────────────

/// How `serde_json` writes one character inside a string: `"` and `\` and
/// the control characters below U+0020 are escaped (the usual short forms
/// where JSON has one, else `\u00` and two lowercase hex digits); every
/// other character stands as it is.
pub open spec fn json_escape_char(c: char) -> Seq<char> {
    if c == '"' {
        seq!['\\', '"']
    } else if c == '\\' {
        seq!['\\', '\\']
    } else if c == '\u{8}' {
        seq!['\\', 'b']
    } else if c == '\t' {
        seq!['\\', 't']
    } else if c == '\n' {
        seq!['\\', 'n']
    } else if c == '\u{c}' {
        seq!['\\', 'f']
    } else if c == '\r' {
        seq!['\\', 'r']
    } else if (c as u32) < 0x20 {
        seq!['\\', 'u', '0', '0', hex_digit((c as u32) as int / 16), hex_digit((c as u32) as int % 16)]
    } else {
        seq![c]
    }
}

/// The characters of `s`, each written as `json_escape_char` writes it.
pub open spec fn json_escaped(s: Seq<char>) -> Seq<char>
    decreases s.len(),
{
    if s.len() == 0 {
        Seq::empty()
    } else {
        json_escaped(s.drop_last()) + json_escape_char(s.last())
    }
}

/// The JSON string for `s`.
pub open spec fn json_string_text(s: Seq<char>) -> Seq<char> {
    seq!['"'] + json_escaped(s) + seq!['"']
}

/// The JSON strings for `items`, separated by commas.
pub open spec fn json_items_text(items: Seq<Seq<char>>) -> Seq<char>
    decreases items.len(),
{
    if items.len() == 0 {
        Seq::empty()
    } else if items.len() == 1 {
        json_string_text(items[0])
    } else {
        json_items_text(items.drop_last()) + seq![','] + json_string_text(items.last())
    }
}

/// The compact JSON array `serde_json` writes for a list of strings.
pub open spec fn json_array_text(items: Seq<Seq<char>>) -> Seq<char> {
    seq!['['] + json_items_text(items) + seq![']']
}

/// `serde_json::to_string` on a `Vec<String>`, which cannot fail for
/// strings. Claimed: the text is the compact JSON array of the items, each
/// string escaped as `serde_json`'s compact formatter escapes it (its
/// escape table and `write_char_escape`).
#[verifier::external_body]
fn json_string_array(items: &Vec<String>) -> (s: String)
    ensures
        s@ == json_array_text(texts(items@)),
{
    serde_json::to_string(items).unwrap_or_default()
}

/// The comment lines listing a pattern's steps, numbered from one.
pub open spec fn step_lines(actions: Seq<Seq<char>>) -> Seq<char>
    decreases actions.len(),
{
    if actions.len() == 0 {
        Seq::empty()
    } else {
        let prev = step_lines(actions.drop_last());
        let line = "  # step "@ + dec(actions.len()) + ": "@ + actions.last();
        if actions.len() == 1 {
            line
        } else {
            prev + "\n"@ + line
        }
    }
}

/// The agent manifest offered for a pattern: named after the first eight
/// bytes of its id, running `hawk pattern-run <id>` with no permissions and
/// small resources, and recording the action sequence.
pub open spec fn manifest_text(r: PatternRecord) -> Seq<char> {
    let short = decode_utf8(encode_utf8(r.id@).subrange(0, 8));
    let count = dec(r.occurrence_count as nat);
    "[agent]\nname = \"pattern-"@ + short + "\"\nversion = \"1.0.0\"\ndescription = \"Auto-generated from detected pattern (occurrences: "@
        + count + ")\"\nframework = \"hawk-pattern\"\nentry_command = \"hawk pattern-run "@ + r.id@
        + "\"\n\n[permissions]\nfilesystem = []\nnetwork = []\ncommands = []\nsecrets = []\n\n[resources]\ncpu_percent = 10\nmemory_mb = 128\nmax_open_fds = 16\n\n[pattern]\nsequence = "@
        + json_array_text(texts(r.action_sequence@)) + "\noccurrence_count = "@ + count
        + "\n\n# Recorded action sequence:\n"@ + step_lines(texts(r.action_sequence@)) + "\n"@
}

/// Writes the manifest for a pattern the user accepted.
pub fn generate_manifest(record: &PatternRecord) -> (s: String)
    requires
        encode_utf8(record.id@).len() >= 8,
        is_char_boundary(encode_utf8(record.id@), 8),
    ensures
        s@ == manifest_text(*record),
{
    let (head, _) = record.id.as_str().split_at(8);
    proof {
        encode_utf8_decode_utf8(head@);
        assert(encode_utf8(head@) == encode_utf8(record.id@).subrange(0, 8));
    }
    let mut steps = String::new();
    let ghost acts = texts(record.action_sequence@);
    let mut i: usize = 0;
    while i < record.action_sequence.len()
        invariant
            i <= record.action_sequence@.len(),
            acts == texts(record.action_sequence@),
            steps@ == step_lines(acts.take(i as int)),
        decreases record.action_sequence.len() - i,
    {
        proof {
            assert(acts.take(i + 1).drop_last() =~= acts.take(i as int));
            assert(acts.take(i + 1).last() == record.action_sequence@[i as int]@);
        }
        if i > 0 {
            push_str(&mut steps, "\n");
        }
        push_str(&mut steps, "  # step ");
        push_decimal(&mut steps, (i + 1) as u64);
        push_str(&mut steps, ": ");
        push_string(&mut steps, &record.action_sequence[i]);
        i = i + 1;
    }
    proof {
        assert(acts.take(i as int) =~= acts);
    }
    let json = json_string_array(&record.action_sequence);
    let mut s = to_string("[agent]\nname = \"pattern-");
    push_str(&mut s, head);
    push_str(&mut s, "\"\nversion = \"1.0.0\"\ndescription = \"Auto-generated from detected pattern (occurrences: ");
    push_decimal(&mut s, record.occurrence_count as u64);
    push_str(&mut s, ")\"\nframework = \"hawk-pattern\"\nentry_command = \"hawk pattern-run ");
    push_string(&mut s, &record.id);
    push_str(
        &mut s,
        "\"\n\n[permissions]\nfilesystem = []\nnetwork = []\ncommands = []\nsecrets = []\n\n[resources]\ncpu_percent = 10\nmemory_mb = 128\nmax_open_fds = 16\n\n[pattern]\nsequence = ",
    );
    push_string(&mut s, &json);
    push_str(&mut s, "\noccurrence_count = ");
    push_decimal(&mut s, record.occurrence_count as u64);
    push_str(&mut s, "\n\n# Recorded action sequence:\n");
    push_string(&mut s, &steps);
    push_str(&mut s, "\n");
    proof {
        assert(s@ =~= manifest_text(*record));
    }
    s
}

} // verus!
