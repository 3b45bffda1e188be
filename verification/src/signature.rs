//! Package signatures: the lowercase hex SHA-256 digest of `name:version`.
use sha2::Digest;
use vstd::prelude::*;
use vstd::utf8::encode_utf8;

use crate::text::{push_str, str_eq, to_string};

verus! {

/// The SHA-256 digest of `data`.
pub uninterp spec fn sha256_digest(data: Seq<u8>) -> Seq<u8>;

/// `sha2::Sha256::digest`. Claimed: the digest is `sha256_digest` of the
/// data, and it is 32 bytes long (SHA-256's output size).
#[verifier::external_body]
pub(crate) fn sha256(data: &[u8]) -> (d: Vec<u8>)
    ensures
        d@ == sha256_digest(data@),
        d@.len() == 32,
{
    sha2::Sha256::digest(data).to_vec()
}

/// The lowercase hex digit for a value below 16.
pub open spec fn hex_digit(v: int) -> char {
    if v < 10 {
        (48 + v) as char
    } else {
        (87 + v) as char
    }
}

/// Lowercase hex text of `b`: two digits per byte, high nibble first.
pub open spec fn hex_lower(b: Seq<u8>) -> Seq<char>
    decreases b.len(),
{
    if b.len() == 0 {
        Seq::empty()
    } else {
        hex_lower(b.drop_last()) + seq![hex_digit((b.last() / 16) as int), hex_digit((b.last() % 16) as int)]
    }
}

/// Hex text has two digits per byte.
pub proof fn hex_lower_len(b: Seq<u8>)
    ensures
        hex_lower(b).len() == 2 * b.len(),
    decreases b.len(),
{
    if b.len() > 0 {
        hex_lower_len(b.drop_last());
    }
}

/// `hex::encode`. Claimed: lowercase hex, two digits per byte in order, as
/// the crate's documentation and source show.
#[verifier::external_body]
pub(crate) fn hex_encode(data: &[u8]) -> (s: String)
    ensures
        s@ == hex_lower(data@),
{
    hex::encode(data)
}

/// The signature that `name` at `version` must carry.
pub open spec fn signature_text(name: Seq<char>, version: Seq<char>) -> Seq<char> {
    hex_lower(sha256_digest(encode_utf8(name + ":"@ + version)))
}

/// The signature of `name` at `version`: 64 lowercase hex digits.
pub fn expected_signature(name: &str, version: &str) -> (s: String)
    ensures
        s@ == signature_text(name@, version@),
        s@.len() == 64,
{
    let mut text = to_string(name);
    push_str(&mut text, ":");
    push_str(&mut text, version);
    let digest = sha256(text.as_str().as_bytes());
    proof {
        hex_lower_len(digest@);
    }
    hex_encode(digest.as_slice())
}

/// Whether `signature` is the signature of `name` at `version`.
pub fn verify_signature(name: &str, version: &str, signature: &str) -> (ok: bool)
    ensures
        ok == (signature@ == signature_text(name@, version@)),
{
    let expected = expected_signature(name, version);
    str_eq(expected.as_str(), signature)
}

/// The value of a hex digit of either case.
pub open spec fn hex_value(c: char) -> Option<int> {
    if '0' <= c <= '9' {
        Some(c as int - 48)
    } else if 'a' <= c <= 'f' {
        Some(c as int - 87)
    } else if 'A' <= c <= 'F' {
        Some(c as int - 55)
    } else {
        None
    }
}

/// The bytes hex text stands for: pairs of hex digits of either case, high
/// nibble first; nothing for an odd length or a character that is not a hex
/// digit.
pub open spec fn hex_decoded(s: Seq<char>) -> Option<Seq<u8>>
    decreases s.len(),
{
    if s.len() == 0 {
        Some(Seq::empty())
    } else if s.len() == 1 {
        None
    } else {
        match (hex_value(s[s.len() - 2]), hex_value(s[s.len() - 1]), hex_decoded(s.take(s.len() - 2))) {
            (Some(h), Some(l), Some(b)) => Some(b.push((h * 16 + l) as u8)),
            _ => None,
        }
    }
}

/// What `hex::FromHexError` displays for text that is not hex.
pub uninterp spec fn hex_refusal(s: Seq<char>) -> Seq<char>;

/// `hex::decode`. Claimed: the bytes `hex_decoded` gives, and when there
/// are none, an error rendered as its message.
#[verifier::external_body]
pub(crate) fn hex_decode(s: &str) -> (r: Result<Vec<u8>, String>)
    ensures
        match r {
            Ok(b) => hex_decoded(s@) == Some(b@),
            Err(m) => hex_decoded(s@) is None && m@ == hex_refusal(s@),
        },
{
    match hex::decode(s) {
        Ok(b) => Ok(b),
        Err(e) => Err(e.to_string()),
    }
}

proof fn lemma_hex_digit_value(v: int)
    requires
        0 <= v < 16,
    ensures
        hex_value(hex_digit(v)) == Some(v),
{
}

/// Decoding the lowercase hex text of bytes gives the bytes back.
pub proof fn hex_round_trip(b: Seq<u8>)
    ensures
        hex_decoded(hex_lower(b)) == Some(b),
    decreases b.len(),
{
    if b.len() > 0 {
        let prev = b.drop_last();
        hex_round_trip(prev);
        let x = b.last();
        let h = (x / 16) as int;
        let l = (x % 16) as int;
        lemma_hex_digit_value(h);
        lemma_hex_digit_value(l);
        let s = hex_lower(b);
        assert(s.take(s.len() - 2) =~= hex_lower(prev));
        assert(h * 16 + l == x as int) by (nonlinear_arith)
            requires
                h == x / 16,
                l == x % 16,
        ;
        assert(prev.push(x) =~= b);
    }
}

} // verus!
