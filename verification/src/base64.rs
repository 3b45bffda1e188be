//! Standard base64 (RFC 4648 alphabet, `=` padding) for the memory wire
//! formats.
use vstd::prelude::*;
use vstd::utf8::{encode_utf8, is_ascii_chars, is_ascii_chars_encode_utf8};

use crate::text::{dec, push_char, push_decimal, push_str, to_string};

verus! {

/// The base64 digit for a 6-bit value.
pub open spec fn b64_digit(v: int) -> char {
    if v < 26 {
        (65 + v) as char
    } else if v < 52 {
        (97 + v - 26) as char
    } else if v < 62 {
        (48 + v - 52) as char
    } else if v == 62 {
        '+'
    } else {
        '/'
    }
}

/// The encoding of one group of three bytes.
pub open spec fn b64_quad(b0: u8, b1: u8, b2: u8) -> Seq<char> {
    seq![
        b64_digit((b0 / 4) as int),
        b64_digit((b0 % 4) * 16 + b1 / 16),
        b64_digit((b1 % 16) * 4 + b2 / 64),
        b64_digit((b2 % 64) as int),
    ]
}

/// The encoding of a final group of two bytes.
pub open spec fn b64_quad2(b0: u8, b1: u8) -> Seq<char> {
    seq![b64_digit((b0 / 4) as int), b64_digit((b0 % 4) * 16 + b1 / 16), b64_digit((b1 % 16) * 4), '=']
}

/// The encoding of a final single byte.
pub open spec fn b64_quad1(b0: u8) -> Seq<char> {
    seq![b64_digit((b0 / 4) as int), b64_digit((b0 % 4) * 16), '=', '=']
}

/// Base64 text of `d`.
pub open spec fn b64_encode(d: Seq<u8>) -> Seq<char>
    decreases d.len(),
{
    if d.len() == 0 {
        Seq::empty()
    } else if d.len() == 1 {
        b64_quad1(d[0])
    } else if d.len() == 2 {
        b64_quad2(d[0], d[1])
    } else {
        b64_quad(d[0], d[1], d[2]) + b64_encode(d.skip(3))
    }
}

/// Base64 text is four characters for every started group of three bytes.
pub proof fn b64_encode_len(d: Seq<u8>)
    ensures
        b64_encode(d).len() == 4 * ((d.len() + 2) / 3),
    decreases d.len(),
{
    if d.len() >= 3 {
        b64_encode_len(d.skip(3));
    }
}

/// The 6-bit value of a base64 byte; `=` counts as zero.
pub open spec fn b64_value(c: u8) -> Option<u8> {
    if 65 <= c <= 90 {
        Some((c - 65) as u8)
    } else if 97 <= c <= 122 {
        Some((c - 97 + 26) as u8)
    } else if 48 <= c <= 57 {
        Some((c - 48 + 52) as u8)
    } else if c == 43 {
        Some(62u8)
    } else if c == 47 {
        Some(63u8)
    } else if c == 61 {
        Some(0u8)
    } else {
        None
    }
}

pub open spec fn bad_char_msg(c: u8) -> Seq<char> {
    "invalid base64 char: "@ + dec(c as nat)
}

pub open spec fn bad_len_msg() -> Seq<char> {
    "base64 length must be a multiple of 4"@
}

/// The bytes one group of four base64 bytes stands for, or the message for
/// its first byte outside the alphabet.
#[verifier::opaque]
pub open spec fn b64_group(c0: u8, c1: u8, c2: u8, c3: u8) -> Result<Seq<u8>, Seq<char>> {
    if b64_value(c0) is None {
        Err(bad_char_msg(c0))
    } else if b64_value(c1) is None {
        Err(bad_char_msg(c1))
    } else if b64_value(c2) is None {
        Err(bad_char_msg(c2))
    } else if b64_value(c3) is None {
        Err(bad_char_msg(c3))
    } else {
        let v0 = b64_value(c0)->0;
        let v1 = b64_value(c1)->0;
        let v2 = b64_value(c2)->0;
        let v3 = b64_value(c3)->0;
        let first = seq![(v0 * 4 + v1 / 16) as u8];
        let second = if c2 != 61 {
            seq![((v1 % 16) * 16 + v2 / 4) as u8]
        } else {
            Seq::empty()
        };
        let third = if c3 != 61 {
            seq![((v2 % 4) * 64 + v3) as u8]
        } else {
            Seq::empty()
        };
        Ok(first + second + third)
    }
}

/// Decoding of a whole number of four-byte groups.
pub open spec fn b64_groups(s: Seq<u8>) -> Result<Seq<u8>, Seq<char>>
    decreases s.len(),
{
    if s.len() < 4 {
        Ok(Seq::empty())
    } else {
        match b64_group(s[0], s[1], s[2], s[3]) {
            Err(m) => Err(m),
            Ok(g) => match b64_groups(s.skip(4)) {
                Err(m) => Err(m),
                Ok(rest) => Ok(g + rest),
            },
        }
    }
}

/// What decoding the bytes `s` of a base64 text gives.
pub open spec fn b64_decode(s: Seq<u8>) -> Result<Seq<u8>, Seq<char>> {
    if s.len() % 4 != 0 {
        Err(bad_len_msg())
    } else {
        b64_groups(s)
    }
}

fn digit(v: u8) -> (c: char)
    requires
        v < 64,
    ensures
        c == b64_digit(v as int),
{
    if v < 26 {
        (65 + v) as char
    } else if v < 52 {
        (97 + v - 26) as char
    } else if v < 62 {
        (48 + v - 52) as char
    } else if v == 62 {
        '+'
    } else {
        '/'
    }
}

/// Base64 text of `data`.
pub fn base64_encode(data: &[u8]) -> (s: String)
    ensures
        s@ == b64_encode(data@),
{
    let mut out = String::new();
    let mut i: usize = 0;
    let n = data.len();
    proof {
        assert(data@.skip(0) =~= data@);
        assert(out@ + b64_encode(data@) =~= b64_encode(data@));
    }
    while i < n
        invariant
            n == data@.len(),
            i <= n,
            out@ + b64_encode(data@.skip(i as int)) == b64_encode(data@),
        decreases n - i,
    {
        let b0 = data[i];
        let ghost rest = data@.skip(i as int);
        let ghost prev = out@;
        if n - i == 1 {
            push_char(&mut out, digit(b0 / 4));
            push_char(&mut out, digit((b0 % 4) * 16));
            push_char(&mut out, '=');
            push_char(&mut out, '=');
            proof {
                assert(out@ =~= prev + b64_quad1(b0));
                assert(data@.skip(n as int) =~= Seq::<u8>::empty());
            }
            i = n;
        } else if n - i == 2 {
            let b1 = data[i + 1];
            push_char(&mut out, digit(b0 / 4));
            push_char(&mut out, digit((b0 % 4) * 16 + b1 / 16));
            push_char(&mut out, digit((b1 % 16) * 4));
            push_char(&mut out, '=');
            proof {
                assert(out@ =~= prev + b64_quad2(b0, b1));
                assert(data@.skip(n as int) =~= Seq::<u8>::empty());
            }
            i = n;
        } else {
            let b1 = data[i + 1];
            let b2 = data[i + 2];
            push_char(&mut out, digit(b0 / 4));
            push_char(&mut out, digit((b0 % 4) * 16 + b1 / 16));
            push_char(&mut out, digit((b1 % 16) * 4 + b2 / 64));
            push_char(&mut out, digit(b2 % 64));
            proof {
                assert(out@ =~= prev + b64_quad(b0, b1, b2));
                assert(rest.skip(3) =~= data@.skip(i + 3));
            }
            i = i + 3;
        }
    }
    proof {
        assert(data@.skip(n as int) =~= Seq::<u8>::empty());
    }
    out
}

/// `res` with `out` put in front of its bytes.
pub open spec fn prepend(out: Seq<u8>, res: Result<Seq<u8>, Seq<char>>) -> Result<Seq<u8>, Seq<char>> {
    match res {
        Ok(r) => Ok(out + r),
        Err(m) => Err(m),
    }
}

fn value_of(c: u8) -> (r: Option<u8>)
    ensures
        r == b64_value(c),
        r matches Some(v) ==> v < 64,
{
    if 65 <= c && c <= 90 {
        Some(c - 65)
    } else if 97 <= c && c <= 122 {
        Some(c - 97 + 26)
    } else if 48 <= c && c <= 57 {
        Some(c - 48 + 52)
    } else if c == 43 {
        Some(62)
    } else if c == 47 {
        Some(63)
    } else if c == 61 {
        Some(0)
    } else {
        None
    }
}

fn bad_char(c: u8) -> (m: String)
    ensures
        m@ == bad_char_msg(c),
{
    let mut m = String::new();
    push_str(&mut m, "invalid base64 char: ");
    push_decimal(&mut m, c as u64);
    m
}

proof fn lemma_groups_step(s: Seq<u8>, out: Seq<u8>, g: Seq<u8>)
    requires
        s.len() >= 4,
        b64_group(s[0], s[1], s[2], s[3]) == Ok::<Seq<u8>, Seq<char>>(g),
    ensures
        prepend(out, b64_groups(s)) == prepend(out + g, b64_groups(s.skip(4))),
{
    match b64_groups(s.skip(4)) {
        Ok(r) => assert(out + (g + r) =~= (out + g) + r),
        Err(_) => {},
    }
}

fn decode_group(c0: u8, c1: u8, c2: u8, c3: u8, out: &mut Vec<u8>) -> (r: Result<(), String>)
    ensures
        match b64_group(c0, c1, c2, c3) {
            Ok(g) => r is Ok && final(out)@ == old(out)@ + g,
            Err(m) => r matches Err(e) && e@ == m,
        },
{
    reveal(b64_group);
    let v0 = match value_of(c0) {
        Some(v) => v,
        None => return Err(bad_char(c0)),
    };
    let v1 = match value_of(c1) {
        Some(v) => v,
        None => return Err(bad_char(c1)),
    };
    let v2 = match value_of(c2) {
        Some(v) => v,
        None => return Err(bad_char(c2)),
    };
    let v3 = match value_of(c3) {
        Some(v) => v,
        None => return Err(bad_char(c3)),
    };
    let ghost prev = out@;
    out.push(v0 * 4 + v1 / 16);
    if c2 != 61 {
        out.push((v1 % 16) * 16 + v2 / 4);
    }
    if c3 != 61 {
        out.push((v2 % 4) * 64 + v3);
    }
    proof {
        let g = b64_group(c0, c1, c2, c3)->Ok_0;
        assert(out@ =~= prev + g);
    }
    Ok(())
}

/// Decodes base64 text; fails on a length that is not a multiple of four
/// or on a byte outside the alphabet.
pub fn base64_decode(s: &str) -> (r: Result<Vec<u8>, String>)
    ensures
        match r {
            Ok(v) => b64_decode(encode_utf8(s@)) == Ok::<Seq<u8>, Seq<char>>(v@),
            Err(m) => b64_decode(encode_utf8(s@)) == Err::<Seq<u8>, Seq<char>>(m@),
        },
{
    let bytes = s.as_bytes();
    let n = bytes.len();
    if n % 4 != 0 {
        return Err(to_string("base64 length must be a multiple of 4"));
    }
    let mut out: Vec<u8> = Vec::new();
    let mut i: usize = 0;
    proof {
        assert(bytes@.skip(0) =~= bytes@);
        assert(out@ =~= Seq::<u8>::empty());
        match b64_groups(bytes@) {
            Ok(r) => assert(out@ + r =~= r),
            Err(_) => {},
        }
    }
    while i < n
        invariant
            n == bytes@.len(),
            bytes@ == encode_utf8(s@),
            n % 4 == 0,
            i % 4 == 0,
            i <= n,
            b64_groups(bytes@) == prepend(out@, b64_groups(bytes@.skip(i as int))),
        decreases n - i,
    {
        let ghost rest = bytes@.skip(i as int);
        let c0 = bytes[i];
        let c1 = bytes[i + 1];
        let c2 = bytes[i + 2];
        let c3 = bytes[i + 3];
        assert(rest[0] == c0 && rest[1] == c1 && rest[2] == c2 && rest[3] == c3);
        let ghost prev = out@;
        match decode_group(c0, c1, c2, c3, &mut out) {
            Ok(()) => {},
            Err(m) => return Err(m),
        }
        proof {
            let g = b64_group(c0, c1, c2, c3)->Ok_0;
            assert(rest.skip(4) =~= bytes@.skip(i + 4));
            lemma_groups_step(rest, prev, g);
        }
        i = i + 4;
    }
    proof {
        assert(bytes@.skip(n as int).len() == 0);
        assert(out@ + Seq::<u8>::empty() =~= out@);
    }
    Ok(out)
}

// ── The round trip ───────────────────────────────────────────────────────────

proof fn lemma_digit(v: int)
    requires
        0 <= v < 64,
    ensures
        b64_value(b64_digit(v) as u8) == Some(v as u8),
        b64_digit(v) as u8 != 61,
        '\0' <= b64_digit(v) <= '\u{7f}',
{
}

#[verifier::spinoff_prover]
#[verifier::rlimit(50)]
proof fn lemma_encode_ascii(d: Seq<u8>)
    ensures
        is_ascii_chars(b64_encode(d)),
        b64_encode(d).len() % 4 == 0,
        d.len() > 0 ==> b64_encode(d).len() >= 4,
    decreases d.len(),
{
    if d.len() >= 3 {
        lemma_encode_ascii(d.skip(3));
        lemma_digit((d[0] / 4) as int);
        lemma_digit((d[0] % 4) * 16 + d[1] / 16);
        lemma_digit((d[1] % 16) * 4 + d[2] / 64);
        lemma_digit((d[2] % 64) as int);
        let q = b64_quad(d[0], d[1], d[2]);
        let r = b64_encode(d.skip(3));
        assert forall|i: int| 0 <= i < (q + r).len() implies '\0' <= #[trigger] (q + r)[i] <= '\u{7f}' by {
            if i >= 4 {
                assert((q + r)[i] == r[i - 4]);
            }
        }
    } else if d.len() == 2 {
        lemma_digit((d[0] / 4) as int);
        lemma_digit((d[0] % 4) * 16 + d[1] / 16);
        lemma_digit((d[1] % 16) * 4);
    } else if d.len() == 1 {
        lemma_digit((d[0] / 4) as int);
        lemma_digit((d[0] % 4) * 16);
    }
}

/// The bytes of the ASCII characters `cs`.
pub open spec fn ascii_bytes(cs: Seq<char>) -> Seq<u8> {
    Seq::new(cs.len(), |i: int| cs[i] as u8)
}

proof fn lemma_group_of_quad(b0: u8, b1: u8, b2: u8)
    ensures
        ({
            let q = b64_quad(b0, b1, b2);
            b64_group(q[0] as u8, q[1] as u8, q[2] as u8, q[3] as u8) == Ok::<Seq<u8>, Seq<char>>(seq![b0, b1, b2])
        }),
{
    reveal(b64_group);
    let v0 = (b0 / 4) as int;
    let v1 = (b0 % 4) * 16 + b1 / 16;
    let v2 = (b1 % 16) * 4 + b2 / 64;
    let v3 = (b2 % 64) as int;
    lemma_digit(v0);
    lemma_digit(v1);
    lemma_digit(v2);
    lemma_digit(v3);
    assert(v0 * 4 + v1 / 16 == b0) by (nonlinear_arith)
        requires v0 == b0 / 4, v1 == (b0 % 4) * 16 + b1 / 16, 0 <= b0 < 256, 0 <= b1 < 256;
    assert((v1 % 16) * 16 + v2 / 4 == b1) by (nonlinear_arith)
        requires v1 == (b0 % 4) * 16 + b1 / 16, v2 == (b1 % 16) * 4 + b2 / 64, 0 <= b0 < 256,
            0 <= b1 < 256, 0 <= b2 < 256;
    assert((v2 % 4) * 64 + v3 == b2) by (nonlinear_arith)
        requires v2 == (b1 % 16) * 4 + b2 / 64, v3 == b2 % 64, 0 <= b1 < 256, 0 <= b2 < 256;
    let q = b64_quad(b0, b1, b2);
    assert(b64_group(q[0] as u8, q[1] as u8, q[2] as u8, q[3] as u8)->Ok_0 =~= seq![b0, b1, b2]);
}

proof fn lemma_group_of_quad2(b0: u8, b1: u8)
    ensures
        ({
            let q = b64_quad2(b0, b1);
            b64_group(q[0] as u8, q[1] as u8, q[2] as u8, q[3] as u8) == Ok::<Seq<u8>, Seq<char>>(seq![b0, b1])
        }),
{
    reveal(b64_group);
    let v0 = (b0 / 4) as int;
    let v1 = (b0 % 4) * 16 + b1 / 16;
    let v2 = (b1 % 16) * 4;
    lemma_digit(v0);
    lemma_digit(v1);
    lemma_digit(v2);
    assert(v0 * 4 + v1 / 16 == b0) by (nonlinear_arith)
        requires v0 == b0 / 4, v1 == (b0 % 4) * 16 + b1 / 16, 0 <= b0 < 256, 0 <= b1 < 256;
    assert((v1 % 16) * 16 + v2 / 4 == b1) by (nonlinear_arith)
        requires v1 == (b0 % 4) * 16 + b1 / 16, v2 == (b1 % 16) * 4, 0 <= b0 < 256, 0 <= b1 < 256;
    let q = b64_quad2(b0, b1);
    assert(b64_group(q[0] as u8, q[1] as u8, q[2] as u8, q[3] as u8)->Ok_0 =~= seq![b0, b1]);
}

proof fn lemma_group_of_quad1(b0: u8)
    ensures
        ({
            let q = b64_quad1(b0);
            b64_group(q[0] as u8, q[1] as u8, q[2] as u8, q[3] as u8) == Ok::<Seq<u8>, Seq<char>>(seq![b0])
        }),
{
    reveal(b64_group);
    let v0 = (b0 / 4) as int;
    let v1 = (b0 % 4) * 16;
    lemma_digit(v0);
    lemma_digit(v1);
    assert(v0 * 4 + v1 / 16 == b0) by (nonlinear_arith)
        requires v0 == b0 / 4, v1 == (b0 % 4) * 16, 0 <= b0 < 256;
    let q = b64_quad1(b0);
    assert(b64_group(q[0] as u8, q[1] as u8, q[2] as u8, q[3] as u8)->Ok_0 =~= seq![b0]);
}

proof fn lemma_groups_of_encoding(d: Seq<u8>)
    ensures
        b64_groups(ascii_bytes(b64_encode(d))) == Ok::<Seq<u8>, Seq<char>>(d),
    decreases d.len(),
{
    let e = b64_encode(d);
    let b = ascii_bytes(e);
    if d.len() == 0 {
        assert(d =~= Seq::<u8>::empty());
    } else if d.len() == 1 {
        lemma_group_of_quad1(d[0]);
        let q = b64_quad1(d[0]);
        assert(b[0] == q[0] as u8 && b[1] == q[1] as u8 && b[2] == q[2] as u8 && b[3] == q[3] as u8);
        assert(b.skip(4) =~= Seq::<u8>::empty());
        assert(b64_groups(b.skip(4)) == Ok::<Seq<u8>, Seq<char>>(Seq::empty()));
        assert(seq![d[0]] + Seq::<u8>::empty() =~= d);
    } else if d.len() == 2 {
        lemma_group_of_quad2(d[0], d[1]);
        let q = b64_quad2(d[0], d[1]);
        assert(b[0] == q[0] as u8 && b[1] == q[1] as u8 && b[2] == q[2] as u8 && b[3] == q[3] as u8);
        assert(b.skip(4) =~= Seq::<u8>::empty());
        assert(b64_groups(b.skip(4)) == Ok::<Seq<u8>, Seq<char>>(Seq::empty()));
        assert(seq![d[0], d[1]] + Seq::<u8>::empty() =~= d);
    } else {
        lemma_group_of_quad(d[0], d[1], d[2]);
        let q = b64_quad(d[0], d[1], d[2]);
        assert(e == q + b64_encode(d.skip(3)));
        assert(e[0] == q[0] && e[1] == q[1] && e[2] == q[2] && e[3] == q[3]);
        assert(b[0] == q[0] as u8 && b[1] == q[1] as u8 && b[2] == q[2] as u8 && b[3] == q[3] as u8);
        lemma_groups_of_encoding(d.skip(3));
        lemma_encode_ascii(d);
        assert(b.skip(4) =~= ascii_bytes(b64_encode(d.skip(3))));
        assert(b64_groups(b.skip(4)) == Ok::<Seq<u8>, Seq<char>>(d.skip(3)));
        assert(seq![d[0], d[1], d[2]] + d.skip(3) =~= d);
    }
}

proof fn lemma_groups_err(s: Seq<u8>)
    requires
        s.len() % 4 == 0,
    ensures
        b64_groups(s) is Err <==> exists|i: int| 0 <= i < s.len() && #[trigger] b64_value(s[i]) is None,
    decreases s.len(),
{
    reveal(b64_group);
    if s.len() >= 4 {
        let t = s.skip(4);
        lemma_groups_err(t);
        assert forall|i: int| 0 <= i < t.len() implies #[trigger] t[i] == s[i + 4] by {}
        if exists|i: int| 0 <= i < s.len() && #[trigger] b64_value(s[i]) is None {
            let i = choose|i: int| 0 <= i < s.len() && #[trigger] b64_value(s[i]) is None;
            if i >= 4 {
                assert(b64_value(t[i - 4]) is None);
            }
        }
        if exists|i: int| 0 <= i < t.len() && #[trigger] b64_value(t[i]) is None {
            let i = choose|i: int| 0 <= i < t.len() && #[trigger] b64_value(t[i]) is None;
            assert(b64_value(s[i + 4]) is None);
        }
        if b64_value(s[0]) is None || b64_value(s[1]) is None || b64_value(s[2]) is None || b64_value(s[3]) is None {
            assert(b64_group(s[0], s[1], s[2], s[3]) is Err);
        }
    }
}

/// Decoding fails exactly when the length is not a multiple of four or some
/// byte is outside the alphabet (letters, digits, `+`, `/` and `=`).
pub proof fn base64_decode_fails_iff_malformed(s: Seq<u8>)
    ensures
        b64_decode(s) is Err <==> (s.len() % 4 != 0 || exists|i: int| 0 <= i < s.len() && #[trigger] b64_value(s[i]) is None),
{
    if s.len() % 4 == 0 {
        lemma_groups_err(s);
    }
}


/// Decoding the bytes of what `base64_encode` produced gives the data back.
pub proof fn base64_decode_inverts_encode(d: Seq<u8>)
    ensures
        b64_decode(encode_utf8(b64_encode(d))) == Ok::<Seq<u8>, Seq<char>>(d),
{
    let e = b64_encode(d);
    lemma_encode_ascii(d);
    is_ascii_chars_encode_utf8(e);
    assert(encode_utf8(e) =~= ascii_bytes(e));
    lemma_groups_of_encoding(d);
}

} // verus!
