//! Character-level text model shared by the rest of the library.
//!
//! Strings are reasoned about through their views (`Seq<char>`); the
//! executable helpers here convert between `&str`/`String` and `Vec<char>`
//! and implement the handful of `str` operations the library needs
//! (whitespace trimming, splitting on a separator, substring search).
use vstd::prelude::*;

verus! {

/// Unicode `White_Space` property, which is what `char::is_whitespace`,
/// `str::trim` and `str::split_whitespace` use.
pub open spec fn is_ws(c: char) -> bool {
    let u = c as u32;
    (0x9 <= u && u <= 0xd) || u == 0x20 || u == 0x85 || u == 0xa0 || u == 0x1680
        || (0x2000 <= u && u <= 0x200a) || u == 0x2028 || u == 0x2029 || u == 0x202f
        || u == 0x205f || u == 0x3000
}

pub fn char_is_ws(c: char) -> (b: bool)
    ensures
        b == is_ws(c),
{
    let u = c as u32;
    (0x9 <= u && u <= 0xd) || u == 0x20 || u == 0x85 || u == 0xa0 || u == 0x1680 || (0x2000 <= u
        && u <= 0x200a) || u == 0x2028 || u == 0x2029 || u == 0x202f || u == 0x205f || u == 0x3000
}

/// Leading whitespace removed.
pub open spec fn trim_start(s: Seq<char>) -> Seq<char>
    decreases s.len(),
{
    if s.len() > 0 && is_ws(s[0]) {
        trim_start(s.drop_first())
    } else {
        s
    }
}

/// Trailing whitespace removed.
pub open spec fn trim_end(s: Seq<char>) -> Seq<char>
    decreases s.len(),
{
    if s.len() > 0 && is_ws(s.last()) {
        trim_end(s.drop_last())
    } else {
        s
    }
}

/// `str::trim`: leading and trailing whitespace removed.
pub open spec fn trim(s: Seq<char>) -> Seq<char> {
    trim_end(trim_start(s))
}

/// `sep` occurs in `s` at position `i`.
pub open spec fn match_at(s: Seq<char>, sep: Seq<char>, i: int) -> bool {
    0 <= i && i + sep.len() <= s.len() && s.subrange(i, i + sep.len()) == sep
}

/// First position `>= from` at which `sep` occurs in `s`, or -1.
pub open spec fn first_match(s: Seq<char>, sep: Seq<char>, from: int) -> int
    decreases s.len() + 1 - from,
{
    if from < 0 || from + sep.len() > s.len() {
        -1
    } else if match_at(s, sep, from) {
        from
    } else {
        first_match(s, sep, from + 1)
    }
}

/// `str::split` with a non-empty string pattern: the pieces between
/// leftmost non-overlapping occurrences of `sep`.
pub open spec fn split_on(s: Seq<char>, sep: Seq<char>) -> Seq<Seq<char>>
    decreases s.len(),
{
    if sep.len() == 0 {
        seq![s]
    } else {
        let i = first_match(s, sep, 0);
        if i < 0 {
            seq![s]
        } else {
            proof {
                lemma_first_match_bounds(s, sep, 0);
            }
            seq![s.subrange(0, i)] + split_on(s.subrange(i + sep.len(), s.len() as int), sep)
        }
    }
}

/// `str::contains` with a string pattern.
pub open spec fn contains_seq(s: Seq<char>, t: Seq<char>) -> bool {
    exists|i: int| match_at(s, t, i)
}

/// A text contains itself, and whatever a part contains, the whole does.
pub proof fn lemma_contains_in_concat(x: Seq<char>, y: Seq<char>, t: Seq<char>)
    ensures
        contains_seq(t, t),
        contains_seq(y, t) ==> contains_seq(x + y, t) && contains_seq(y + x, t),
{
    assert(t.subrange(0, t.len() as int) =~= t);
    assert(match_at(t, t, 0));
    if contains_seq(y, t) {
        let i = choose|i: int| match_at(y, t, i);
        assert((x + y).subrange(x.len() + i, x.len() + i + t.len()) =~= y.subrange(i, i + t.len()));
        assert(match_at(x + y, t, x.len() + i));
        assert((y + x).subrange(i, i + t.len()) =~= y.subrange(i, i + t.len()));
        assert(match_at(y + x, t, i));
    }
}

/// `str::starts_with` with a string pattern.
pub open spec fn starts_with(s: Seq<char>, t: Seq<char>) -> bool {
    t.len() <= s.len() && s.subrange(0, t.len() as int) == t
}

/// `str::ends_with` with a string pattern.
pub open spec fn ends_with(s: Seq<char>, t: Seq<char>) -> bool {
    t.len() <= s.len() && s.subrange(s.len() - t.len(), s.len() as int) == t
}

/// ASCII lower-casing of one character.
pub open spec fn ascii_lower_char(c: char) -> char {
    if 'A' <= c && c <= 'Z' {
        ((c as u32) + 32) as char
    } else {
        c
    }
}

pub open spec fn ascii_lower(s: Seq<char>) -> Seq<char> {
    s.map_values(|c: char| ascii_lower_char(c))
}

pub open spec fn is_ascii_seq(s: Seq<char>) -> bool {
    forall|i: int| 0 <= i < s.len() ==> (s[i] as u32) < 128
}

/// The texts of a list of strings.
pub open spec fn texts(v: Seq<String>) -> Seq<Seq<char>> {
    v.map_values(|s: String| s@)
}

// ── Trusted access to `String::push` ─────────────────────────────────────────

/// `String::push`: appends one character.
#[verifier::external_body]
pub(crate) fn push_char(s: &mut String, c: char)
    ensures
        final(s)@ == old(s)@.push(c),
{
    s.push(c);
}

// ── Conversions ──────────────────────────────────────────────────────────────

/// The characters of `s`, in order.
pub fn chars_of(s: &str) -> (v: Vec<char>)
    ensures
        v@ == s@,
{
    let n = s.unicode_len();
    let mut v: Vec<char> = Vec::new();
    let mut i: usize = 0;
    while i < n
        invariant
            n == s@.len(),
            i <= n,
            v@ == s@.subrange(0, i as int),
        decreases n - i,
    {
        let c = s.get_char(i);
        v.push(c);
        i = i + 1;
        assert(v@ =~= s@.subrange(0, i as int));
    }
    assert(v@ =~= s@);
    v
}

/// A `String` holding the characters `v[from..to]`.
pub fn string_of_range(v: &Vec<char>, from: usize, to: usize) -> (s: String)
    requires
        from <= to <= v.len(),
    ensures
        s@ == v@.subrange(from as int, to as int),
{
    let mut s = String::new();
    let mut i = from;
    while i < to
        invariant
            from <= i <= to,
            to <= v.len(),
            s@ == v@.subrange(from as int, i as int),
        decreases to - i,
    {
        push_char(&mut s, v[i]);
        i = i + 1;
        assert(s@ =~= v@.subrange(from as int, i as int));
    }
    s
}

/// A `String` holding the characters of `v`.
pub fn string_of(v: &Vec<char>) -> (s: String)
    ensures
        s@ == v@,
{
    let s = string_of_range(v, 0, v.len());
    assert(v@.subrange(0, v@.len() as int) =~= v@);
    s
}

/// Appends the characters of `t` to `s`.
pub fn push_str(s: &mut String, t: &str)
    ensures
        final(s)@ == old(s)@ + t@,
{
    s.append(t);
}

/// Appends the characters of `t` to `s`.
pub fn push_string(s: &mut String, t: &String)
    ensures
        final(s)@ == old(s)@ + t@,
{
    s.append(t.as_str());
}

/// A fresh `String` with the characters of `t`.
pub fn to_string(t: &str) -> (s: String)
    ensures
        s@ == t@,
{
    String::from_str(t)
}

// ── Trimming ─────────────────────────────────────────────────────────────────

proof fn lemma_trim_start_step(s: Seq<char>, i: int)
    requires
        0 <= i < s.len(),
        is_ws(s[i]),
    ensures
        trim_start(s.subrange(i, s.len() as int)) == trim_start(s.subrange(i + 1, s.len() as int)),
{
    let t = s.subrange(i, s.len() as int);
    assert(t.drop_first() =~= s.subrange(i + 1, s.len() as int));
}

proof fn lemma_trim_end_step(s: Seq<char>, j: int)
    requires
        0 < j <= s.len(),
        is_ws(s[j - 1]),
    ensures
        trim_end(s.subrange(0, j)) == trim_end(s.subrange(0, j - 1)),
{
    let t = s.subrange(0, j);
    assert(t.drop_last() =~= s.subrange(0, j - 1));
}

/// Bounds `(a, b)` such that `trim(v) == v[a..b]`.
pub fn trim_bounds(v: &Vec<char>, from: usize, to: usize) -> (r: (usize, usize))
    requires
        from <= to <= v.len(),
    ensures
        from <= r.0 <= r.1 <= to,
        v@.subrange(r.0 as int, r.1 as int) == trim(v@.subrange(from as int, to as int)),
{
    let ghost s = v@.subrange(from as int, to as int);
    let mut a = from;
    while a < to && char_is_ws(v[a])
        invariant
            from <= a <= to,
            to <= v.len(),
            s == v@.subrange(from as int, to as int),
            trim_start(s) == trim_start(v@.subrange(a as int, to as int)),
        decreases to - a,
    {
        proof {
            let w = v@.subrange(from as int, to as int);
            lemma_trim_start_step(v@.subrange(0, to as int), a as int);
            assert(v@.subrange(0, to as int).subrange(a as int, to as int) =~= v@.subrange(
                a as int,
                to as int,
            ));
            assert(v@.subrange(0, to as int).subrange(a + 1, to as int) =~= v@.subrange(
                a + 1,
                to as int,
            ));
        }
        a = a + 1;
    }
    proof {
        let t = v@.subrange(a as int, to as int);
        if t.len() > 0 {
            assert(t[0] == v@[a as int]);
        }
        assert(trim_start(t) == t);
    }
    let mut b = to;
    while b > a && char_is_ws(v[b - 1])
        invariant
            from <= a <= b <= to,
            to <= v.len(),
            trim(s) == trim_end(v@.subrange(a as int, b as int)),
        decreases b - a,
    {
        proof {
            let u = v@.subrange(a as int, to as int);
            lemma_trim_end_step(v@.subrange(a as int, b as int), (b - a) as int);
            assert(v@.subrange(a as int, b as int).subrange(0, (b - a) as int) =~= v@.subrange(
                a as int,
                b as int,
            ));
            assert(v@.subrange(a as int, b as int).subrange(0, (b - a - 1) as int)
                =~= v@.subrange(a as int, b - 1));
        }
        b = b - 1;
    }
    proof {
        let t = v@.subrange(a as int, b as int);
        if t.len() > 0 {
            assert(t.last() == v@[b - 1]);
        }
        assert(trim_end(t) == t);
    }
    (a, b)
}

// ── Searching and splitting ──────────────────────────────────────────────────

/// Whether `sep` occurs in `v` at position `i`.
pub fn match_at_exec(v: &Vec<char>, sep: &Vec<char>, i: usize) -> (b: bool)
    ensures
        b == match_at(v@, sep@, i as int),
{
    if i > v.len() || sep.len() > v.len() - i {
        return false;
    }
    let mut k: usize = 0;
    while k < sep.len()
        invariant
            i + sep.len() <= v.len(),
            k <= sep.len(),
            forall|j: int| 0 <= j < k ==> v@[i + j] == sep@[j],
        decreases sep.len() - k,
    {
        if v[i + k] != sep[k] {
            assert(v@.subrange(i as int, i + sep.len())[k as int] != sep@[k as int]);
            return false;
        }
        k = k + 1;
    }
    assert(v@.subrange(i as int, i + sep.len()) =~= sep@);
    true
}

proof fn lemma_first_match_skip(s: Seq<char>, sep: Seq<char>, from: int, to: int)
    requires
        0 <= from <= to,
        forall|j: int| from <= j < to ==> !match_at(s, sep, j),
    ensures
        first_match(s, sep, from) == first_match(s, sep, to),
    decreases to - from,
{
    if from < to {
        if from + sep.len() > s.len() {
            lemma_first_match_none(s, sep, to);
        } else {
            lemma_first_match_skip(s, sep, from + 1, to);
        }
    }
}

proof fn lemma_first_match_none(s: Seq<char>, sep: Seq<char>, from: int)
    requires
        from >= 0,
        from + sep.len() > s.len(),
    ensures
        first_match(s, sep, from) == -1,
{
}

pub proof fn lemma_first_match_bounds(s: Seq<char>, sep: Seq<char>, from: int)
    requires
        from >= 0,
    ensures
        first_match(s, sep, from) == -1 || (from <= first_match(s, sep, from)
            && match_at(s, sep, first_match(s, sep, from)) && forall|j: int|
            from <= j < first_match(s, sep, from) ==> !match_at(s, sep, j)),
    decreases s.len() + 1 - from,
{
    if from + sep.len() > s.len() {
    } else if match_at(s, sep, from) {
    } else {
        lemma_first_match_bounds(s, sep, from + 1);
    }
}

/// Leftmost position `>= from` at which `sep` occurs in `v`.
pub fn find_from(v: &Vec<char>, sep: &Vec<char>, from: usize) -> (r: Option<usize>)
    ensures
        match r {
            Some(i) => i as int == first_match(v@, sep@, from as int),
            None => first_match(v@, sep@, from as int) == -1,
        },
{
    let mut i = from;
    while i <= v.len() && sep.len() <= v.len() - i
        invariant
            from <= i,
            first_match(v@, sep@, from as int) == first_match(v@, sep@, i as int),
        decreases v.len() + 1 - i,
    {
        if match_at_exec(v, sep, i) {
            return Some(i);
        }
        proof {
            if sep.len() == 0 {
                assert(v@.subrange(i as int, i as int) =~= sep@);
            }
            lemma_first_match_skip(v@, sep@, i as int, i + 1);
        }
        i = i + 1;
    }
    proof {
        lemma_first_match_none(v@, sep@, i as int);
    }
    None
}

proof fn lemma_match_shift(s: Seq<char>, sep: Seq<char>, a: int, k: int)
    requires
        0 <= a <= s.len(),
        0 <= k,
    ensures
        match_at(s.subrange(a, s.len() as int), sep, k) == match_at(s, sep, a + k),
{
    let t = s.subrange(a, s.len() as int);
    if k + sep.len() <= t.len() {
        assert(t.subrange(k, k + sep.len()) =~= s.subrange(a + k, a + k + sep.len()));
    }
}

proof fn lemma_first_match_shift(s: Seq<char>, sep: Seq<char>, a: int, k: int)
    requires
        0 <= a <= s.len(),
        0 <= k,
    ensures
        first_match(s.subrange(a, s.len() as int), sep, k) == if first_match(s, sep, a + k) < 0 {
            -1
        } else {
            first_match(s, sep, a + k) - a
        },
    decreases s.len() + 1 - a - k,
{
    let t = s.subrange(a, s.len() as int);
    lemma_match_shift(s, sep, a, k);
    if k + sep.len() > t.len() {
    } else if match_at(t, sep, k) {
    } else {
        lemma_first_match_shift(s, sep, a, k + 1);
    }
}

/// The ranges `parts` locate, in order, the pieces of `split_on(s, sep)`.
pub open spec fn piece_at(s: Seq<char>, sep: Seq<char>, part: (usize, usize), k: int) -> bool {
    part.0 <= part.1 <= s.len() && s.subrange(part.0 as int, part.1 as int) == split_on(s, sep)[k]
}

/// The pieces of `str::split(v, sep)`, as index ranges into `v`.
pub fn split_exec(v: &Vec<char>, sep: &Vec<char>) -> (parts: Vec<(usize, usize)>)
    requires
        sep.len() > 0,
    ensures
        parts@.len() == split_on(v@, sep@).len(),
        forall|k: int| 0 <= k < parts@.len() ==> piece_at(v@, sep@, #[trigger] parts@[k], k),
{
    let mut parts: Vec<(usize, usize)> = Vec::new();
    let mut start: usize = 0;
    assert(v@.subrange(0, v@.len() as int) =~= v@);
    loop
        invariant
            sep.len() > 0,
            start <= v.len(),
            parts@.len() + split_on(v@.subrange(start as int, v@.len() as int), sep@).len()
                == split_on(v@, sep@).len(),
            forall|k: int| 0 <= k < parts@.len() ==> piece_at(v@, sep@, #[trigger] parts@[k], k),
            forall|k: int|
                0 <= k < split_on(v@.subrange(start as int, v@.len() as int), sep@).len()
                    ==> split_on(v@, sep@)[parts@.len() + k] == #[trigger] split_on(
                    v@.subrange(start as int, v@.len() as int),
                    sep@,
                )[k],
        decreases v.len() - start,
    {
        let ghost t = v@.subrange(start as int, v@.len() as int);
        let ghost old_parts = parts@;
        proof {
            lemma_first_match_shift(v@, sep@, start as int, 0);
        }
        match find_from(v, sep, start) {
            None => {
                assert(split_on(t, sep@) == seq![t]);
                assert(split_on(v@, sep@)[old_parts.len() as int + 0] == split_on(t, sep@)[0]);
                parts.push((start, v.len()));
                assert forall|k: int| 0 <= k < parts@.len() implies piece_at(
                    v@,
                    sep@,
                    #[trigger] parts@[k],
                    k,
                ) by {
                    if k < old_parts.len() {
                        assert(parts@[k] == old_parts[k]);
                    }
                }
                return parts;
            },
            Some(i) => {
                proof {
                    lemma_first_match_bounds(v@, sep@, start as int);
                }
                let ghost i_t = i - start;
                let next = i + sep.len();
                let ghost t2 = v@.subrange(next as int, v@.len() as int);
                assert(t.subrange(i_t + sep.len(), t.len() as int) =~= t2);
                assert(t.subrange(0, i_t) =~= v@.subrange(start as int, i as int));
                assert(split_on(t, sep@) == seq![v@.subrange(start as int, i as int)] + split_on(
                    t2,
                    sep@,
                ));
                assert(split_on(v@, sep@)[old_parts.len() as int + 0] == split_on(t, sep@)[0]);
                parts.push((start, i));
                assert forall|k: int| 0 <= k < parts@.len() implies piece_at(
                    v@,
                    sep@,
                    #[trigger] parts@[k],
                    k,
                ) by {
                    if k < old_parts.len() {
                        assert(parts@[k] == old_parts[k]);
                    }
                }
                assert forall|k: int| 0 <= k < split_on(t2, sep@).len() implies split_on(
                    v@,
                    sep@,
                )[parts@.len() + k] == #[trigger] split_on(t2, sep@)[k] by {
                    assert(split_on(t, sep@)[k + 1] == split_on(t2, sep@)[k]);
                }
                start = next;
            },
        }
    }
}

/// Whether `t` occurs in `v`.
pub fn contains_exec(v: &Vec<char>, t: &Vec<char>) -> (b: bool)
    ensures
        b == contains_seq(v@, t@),
{
    match find_from(v, t, 0) {
        Some(i) => {
            proof {
                lemma_first_match_bounds(v@, t@, 0);
            }
            true
        },
        None => {
            proof {
                lemma_first_match_bounds(v@, t@, 0);
                assert forall|i: int| !match_at(v@, t@, i) by {
                    if match_at(v@, t@, i) {
                        lemma_first_match_skip_found(v@, t@, 0, i);
                    }
                }
            }
            false
        },
    }
}

proof fn lemma_first_match_skip_found(s: Seq<char>, sep: Seq<char>, from: int, i: int)
    requires
        0 <= from <= i,
        match_at(s, sep, i),
    ensures
        first_match(s, sep, from) != -1,
    decreases i - from,
{
    if from < i && !match_at(s, sep, from) {
        lemma_first_match_skip_found(s, sep, from + 1, i);
    }
}

/// Whether `v` starts with `t`.
pub fn starts_with_exec(v: &Vec<char>, t: &Vec<char>) -> (b: bool)
    ensures
        b == starts_with(v@, t@),
{
    if t.len() > v.len() {
        return false;
    }
    let r = match_at_exec(v, t, 0);
    r
}

/// Whether `v` ends with `t`.
pub fn ends_with_exec(v: &Vec<char>, t: &Vec<char>) -> (b: bool)
    ensures
        b == ends_with(v@, t@),
{
    if t.len() > v.len() {
        return false;
    }
    let r = match_at_exec(v, t, v.len() - t.len());
    r
}

/// Whether the `&str` `s` contains `t`.
pub fn str_contains(s: &str, t: &str) -> (b: bool)
    ensures
        b == contains_seq(s@, t@),
{
    let v = chars_of(s);
    let w = chars_of(t);
    contains_exec(&v, &w)
}

/// Whether two character sequences are equal.
pub fn chars_eq(a: &Vec<char>, b: &Vec<char>) -> (r: bool)
    ensures
        r == (a@ == b@),
{
    if a.len() != b.len() {
        return false;
    }
    let mut i: usize = 0;
    while i < a.len()
        invariant
            a.len() == b.len(),
            i <= a.len(),
            forall|j: int| 0 <= j < i ==> a@[j] == b@[j],
        decreases a.len() - i,
    {
        if a[i] != b[i] {
            return false;
        }
        i = i + 1;
    }
    assert(a@ =~= b@);
    true
}

/// Whether two strings are equal.
pub fn str_eq(a: &str, b: &str) -> (r: bool)
    ensures
        r == (a@ == b@),
{
    let x = chars_of(a);
    let y = chars_of(b);
    chars_eq(&x, &y)
}


// ── Lower-casing (std) ───────────────────────────────────────────────────────

/// What `str::to_lowercase` returns for `s`: Unicode lower-casing, which can
/// change the length of the text.
pub uninterp spec fn unicode_lower(s: Seq<char>) -> Seq<char>;

/// `str::to_lowercase`. On ASCII text it is ASCII lower-casing.
#[verifier::external_body]
pub(crate) fn to_lowercase(s: &str) -> (r: String)
    ensures
        r@ == unicode_lower(s@),
        is_ascii_seq(s@) ==> r@ == ascii_lower(s@),
{
    s.to_lowercase()
}

// ── Decimal rendering ────────────────────────────────────────────────────────

pub open spec fn digit_char(d: nat) -> char {
    ((d + 48) as u32) as char
}

/// Decimal digits of `n`, as `u64::to_string` renders them.
pub open spec fn dec(n: nat) -> Seq<char>
    decreases n,
{
    if n < 10 {
        seq![digit_char(n)]
    } else {
        dec(n / 10).push(digit_char(n % 10))
    }
}

/// `n` rendered in decimal and zero-padded to at least two digits (`{:02}`).
pub open spec fn dec2(n: nat) -> Seq<char> {
    if n < 10 {
        seq!['0', digit_char(n)]
    } else {
        dec(n)
    }
}

/// Appends the decimal rendering of `n`.
pub fn push_decimal(s: &mut String, n: u64)
    ensures
        final(s)@ == old(s)@ + dec(n as nat),
    decreases n,
{
    if n >= 10 {
        push_decimal(s, n / 10);
    }
    let d = (n % 10) as u32 + 48;
    let c = char_from_u32_digit(d);
    push_char(s, c);
    proof {
        if n >= 10 {
            assert(old(s)@ + dec(n as nat) =~= old(s)@ + dec((n / 10) as nat) + seq![digit_char((n % 10) as nat)]);
        } else {
            assert(old(s)@ + dec(n as nat) =~= old(s)@.push(digit_char(n as nat)));
        }
    }
}

fn char_from_u32_digit(d: u32) -> (c: char)
    requires
        48 <= d <= 57,
    ensures
        c == (d as char),
{
    if d == 48 { '0' }
    else if d == 49 { '1' }
    else if d == 50 { '2' }
    else if d == 51 { '3' }
    else if d == 52 { '4' }
    else if d == 53 { '5' }
    else if d == 54 { '6' }
    else if d == 55 { '7' }
    else if d == 56 { '8' }
    else { '9' }
}

/// Appends `n` zero-padded to two digits.
pub fn push_decimal2(s: &mut String, n: u64)
    ensures
        final(s)@ == old(s)@ + dec2(n as nat),
{
    if n < 10 {
        push_char(s, '0');
        push_decimal(s, n);
        assert(dec(n as nat) =~= seq![digit_char(n as nat)]);
    } else {
        push_decimal(s, n);
    }
}

/// A sub-vector `v[from..to]`.
pub fn sub_vec(v: &Vec<char>, from: usize, to: usize) -> (r: Vec<char>)
    requires
        from <= to <= v.len(),
    ensures
        r@ == v@.subrange(from as int, to as int),
{
    let mut r: Vec<char> = Vec::new();
    let mut i = from;
    while i < to
        invariant
            from <= i <= to,
            to <= v.len(),
            r@ == v@.subrange(from as int, i as int),
        decreases to - i,
    {
        r.push(v[i]);
        i = i + 1;
        assert(r@ =~= v@.subrange(from as int, i as int));
    }
    r
}

} // verus!
