//! The outside cryptography the kernel relies on: Argon2id key derivation,
//! random bytes, and AES-256-GCM sealing. Each call is a trusted item whose
//! contract names what the crate computes.
use aes_gcm::aead::{Aead, KeyInit};
use rand::RngCore;
use vstd::prelude::*;

verus! {

/// The 32-byte key that Argon2id (version 0x13) derives from `secret` (its
/// UTF-8 bytes) and `salt` with memory cost `m_cost` KiB, `t_cost` passes and
/// `p_cost` lanes.
pub uninterp spec fn argon2id_key(secret: Seq<char>, salt: Seq<u8>, m_cost: u32, t_cost: u32, p_cost: u32) -> Seq<u8>;

/// The message of the error Argon2 reports when it refuses these inputs.
pub uninterp spec fn argon2id_refusal(secret: Seq<char>, salt: Seq<u8>, m_cost: u32, t_cost: u32, p_cost: u32) -> Seq<
    char,
>;

/// The AES-256-GCM sealing of `plaintext` under `key` and `nonce`, without
/// associated data: the ciphertext followed by the 16-byte tag.
pub uninterp spec fn aes_gcm_seal(key: Seq<u8>, nonce: Seq<u8>, plaintext: Seq<u8>) -> Seq<u8>;

/// What AES-256-GCM opening of `ciphertext` under `key` and `nonce` gives:
/// the plaintext if the tag authenticates it, else nothing.
pub uninterp spec fn aes_gcm_open(key: Seq<u8>, nonce: Seq<u8>, ciphertext: Seq<u8>) -> Option<Seq<u8>>;

/// Largest plaintext that AES-GCM accepts, in bytes.
pub open spec fn aes_gcm_p_max() -> int {
    0x10_0000_0000
}

/// What `aead::Error` displays.
pub open spec fn aead_error_text() -> Seq<char> {
    "aead::Error"@
}

/// `argon2::Argon2::hash_password_into` with Argon2id, version 0x13 and
/// `argon2::Params::new(m_cost, t_cost, p_cost, Some(32))`. Claimed: what it
/// writes on success is `argon2id_key` of the arguments; a refusal (invalid
/// parameters or inputs) is rendered as its message, `argon2id_refusal`.
#[verifier::external_body]
pub(crate) fn argon2id_derive(secret: &str, salt: &[u8], m_cost: u32, t_cost: u32, p_cost: u32) -> (r: Result<
    [u8; 32],
    String,
>)
    ensures
        match r {
            Ok(k) => k@ == argon2id_key(secret@, salt@, m_cost, t_cost, p_cost),
            Err(m) => m@ == argon2id_refusal(secret@, salt@, m_cost, t_cost, p_cost),
        },
{
    let params = match argon2::Params::new(m_cost, t_cost, p_cost, Some(32)) {
        Ok(p) => p,
        Err(e) => return Err(e.to_string()),
    };
    let argon2 = argon2::Argon2::new(argon2::Algorithm::Argon2id, argon2::Version::V0x13, params);
    let mut key = [0u8; 32];
    match argon2.hash_password_into(secret.as_bytes(), salt, &mut key) {
        Ok(()) => Ok(key),
        Err(e) => Err(e.to_string()),
    }
}

/// `rand::thread_rng().fill_bytes` on `n` bytes. Claimed: `n` bytes come
/// back; nothing is claimed of their values.
#[verifier::external_body]
pub(crate) fn random_bytes(n: usize) -> (r: Vec<u8>)
    ensures
        r@.len() == n,
{
    let mut v = vec![0u8; n];
    rand::thread_rng().fill_bytes(&mut v);
    v
}

/// `aes_gcm::Aes256Gcm::encrypt` (through `aead::Aead`) with a 12-byte
/// nonce. Claimed: it fails only on a plaintext longer than
/// `aes_gcm_p_max()`, with the message of `aead::Error`; its output is
/// `aes_gcm_seal` of the arguments, and opening that output with the same
/// key and nonce gives the plaintext back.
#[verifier::external_body]
pub(crate) fn aes256gcm_encrypt(key: &[u8; 32], nonce: &[u8], plaintext: &[u8]) -> (r: Result<Vec<u8>, String>)
    requires
        nonce@.len() == 12,
    ensures
        plaintext@.len() <= aes_gcm_p_max() ==> r is Ok,
        match r {
            Ok(c) => c@ == aes_gcm_seal(key@, nonce@, plaintext@) && aes_gcm_open(key@, nonce@, c@) == Some(
                plaintext@,
            ),
            Err(m) => m@ == aead_error_text(),
        },
{
    let cipher = aes_gcm::Aes256Gcm::new(aes_gcm::Key::<aes_gcm::Aes256Gcm>::from_slice(key));
    match cipher.encrypt(aes_gcm::Nonce::from_slice(nonce), plaintext) {
        Ok(c) => Ok(c),
        Err(e) => Err(e.to_string()),
    }
}

/// `aes_gcm::Aes256Gcm::decrypt` (through `aead::Aead`) with a 12-byte
/// nonce. Claimed: it returns exactly `aes_gcm_open` of the arguments, and
/// fails with the message of `aead::Error`.
#[verifier::external_body]
pub(crate) fn aes256gcm_decrypt(key: &[u8; 32], nonce: &[u8], ciphertext: &[u8]) -> (r: Result<Vec<u8>, String>)
    requires
        nonce@.len() == 12,
    ensures
        match r {
            Ok(p) => aes_gcm_open(key@, nonce@, ciphertext@) == Some(p@),
            Err(m) => aes_gcm_open(key@, nonce@, ciphertext@) is None && m@ == aead_error_text(),
        },
{
    let cipher = aes_gcm::Aes256Gcm::new(aes_gcm::Key::<aes_gcm::Aes256Gcm>::from_slice(key));
    match cipher.decrypt(aes_gcm::Nonce::from_slice(nonce), ciphertext) {
        Ok(p) => Ok(p),
        Err(e) => Err(e.to_string()),
    }
}

} // verus!
