//! The secrets vault: values sealed with AES-256-GCM under a key derived
//! from a passphrase with Argon2id (salted per vault) or held by the system
//! keychain. The vault's contents are kept here; reading and writing the
//! vault file, and talking to the keychain, is the program's work.
use vstd::prelude::*;

use crate::crypto::{
    aead_error_text, aes256gcm_decrypt, aes256gcm_encrypt, aes_gcm_open, aes_gcm_p_max, argon2id_derive, argon2id_key,
    argon2id_refusal, random_bytes,
};
use crate::error::{io_error_message, prefixed};
use crate::signature::{hex_decode, hex_decoded, hex_encode, hex_lower, hex_refusal, hex_round_trip};
use crate::text::{push_string, starts_with, str_eq, to_string};

verus! {

/// `serde_json::Error`, carried through unchanged.
#[verifier::external_type_specification]
#[verifier::external_body]
pub struct ExJsonError(serde_json::Error);

/// `<serde_json::Error as Display>::to_string`: the error's message. For
/// an I/O failure it hands over to the I/O error's text, which comes from
/// the platform, so nothing is stated of it.
#[verifier::external_body]
fn json_error_message(e: &serde_json::Error) -> (s: String) {
    e.to_string()
}

#[derive(Debug)]
pub enum VaultError {
    NotAuthenticated,
    AuthFailed,
    NotFound(String),
    Encryption(String),
    Decryption(String),
    Io(std::io::Error),
    Serialization(serde_json::Error),
    Keychain(String),
    KeyDerivation(String),
}

/// `s` is what vault error `e` displays. An I/O or JSON error's own text
/// comes from the platform; for those only the prefix is known.
pub open spec fn vault_error_shown(e: VaultError, s: Seq<char>) -> bool {
    match e {
        VaultError::NotAuthenticated => s == "not authenticated"@,
        VaultError::AuthFailed => s == "authentication failed"@,
        VaultError::NotFound(m) => s == "key not found: "@ + m@,
        VaultError::Encryption(m) => s == "encryption error: "@ + m@,
        VaultError::Decryption(m) => s == "decryption error: "@ + m@,
        VaultError::Io(_) => starts_with(s, "I/O error: "@),
        VaultError::Serialization(_) => starts_with(s, "serialization error: "@),
        VaultError::Keychain(m) => s == "keychain error: "@ + m@,
        VaultError::KeyDerivation(m) => s == "key derivation error: "@ + m@,
    }
}

impl VaultError {
    /// The message this error displays.
    pub fn message(&self) -> (s: String)
        ensures
            vault_error_shown(*self, s@),
    {
        match self {
            VaultError::NotAuthenticated => to_string("not authenticated"),
            VaultError::AuthFailed => to_string("authentication failed"),
            VaultError::NotFound(m) => prefixed("key not found: ", m),
            VaultError::Encryption(m) => prefixed("encryption error: ", m),
            VaultError::Decryption(m) => prefixed("decryption error: ", m),
            VaultError::Io(e) => {
                let t = io_error_message(e);
                prefixed("I/O error: ", &t)
            },
            VaultError::Serialization(e) => {
                let t = json_error_message(e);
                prefixed("serialization error: ", &t)
            },
            VaultError::Keychain(m) => prefixed("keychain error: ", m),
            VaultError::KeyDerivation(m) => prefixed("key derivation error: ", m),
        }
    }
}

// ── Credentials and contents ─────────────────────────────────────────────────

pub enum AuthCredential {
    Passphrase(String),
    SystemKeychain,
}

/// Proof of authentication: the vault key.
#[derive(Clone, Copy, PartialEq, Eq)]
pub struct AuthToken {
    key: [u8; 32],
}

impl AuthToken {
    pub closed spec fn key_view(self) -> Seq<u8> {
        self.key@
    }
}

/// One sealed value: the hex nonce and the hex ciphertext.
#[derive(Debug, Clone)]
pub struct VaultEntry {
    pub nonce: String,
    pub ciphertext: String,
}

/// What the vault file holds: the hex KDF salt (empty until a passphrase is
/// first used) and the sealed values by name.
#[derive(Debug, Clone)]
pub struct VaultFile {
    pub kdf_salt: String,
    pub entries: Vec<(String, VaultEntry)>,
}

/// An entry as text: its name, hex nonce and hex ciphertext.
pub type EntryView = (Seq<char>, Seq<char>, Seq<char>);

pub open spec fn entry_view(e: (String, VaultEntry)) -> EntryView {
    (e.0@, e.1.nonce@, e.1.ciphertext@)
}

pub open spec fn entry_views(s: Seq<(String, VaultEntry)>) -> Seq<EntryView> {
    s.map_values(|e: (String, VaultEntry)| entry_view(e))
}

/// The sealed value stored under `k` (the last entry of that name counts):
/// its hex nonce and hex ciphertext.
pub open spec fn stored(s: Seq<EntryView>, k: Seq<char>) -> Option<(Seq<char>, Seq<char>)>
    decreases s.len(),
{
    if s.len() == 0 {
        None
    } else if s.last().0 == k {
        Some((s.last().1, s.last().2))
    } else {
        stored(s.drop_last(), k)
    }
}

/// The entries of `s` with another name than `k`, in order.
pub open spec fn without(s: Seq<EntryView>, k: Seq<char>) -> Seq<EntryView>
    decreases s.len(),
{
    if s.len() == 0 {
        Seq::empty()
    } else if s.last().0 == k {
        without(s.drop_last(), k)
    } else {
        without(s.drop_last(), k).push(s.last())
    }
}

/// What opening a sealed value with `key` gives: the plaintext when both hex
/// texts decode and the tag authenticates; nothing otherwise.
pub open spec fn opened(key: Seq<u8>, nonce: Seq<char>, ciphertext: Seq<char>) -> Option<Seq<u8>> {
    match (hex_decoded(nonce), hex_decoded(ciphertext)) {
        (Some(n), Some(c)) => aes_gcm_open(key, n, c),
        _ => None,
    }
}

/// Why opening failed: the first text that is not hex, or the cipher's
/// refusal.
pub open spec fn opening_failure(nonce: Seq<char>, ciphertext: Seq<char>) -> Seq<char> {
    if hex_decoded(nonce) is None {
        hex_refusal(nonce)
    } else if hex_decoded(ciphertext) is None {
        hex_refusal(ciphertext)
    } else {
        aead_error_text()
    }
}

/// A nonce text that decodes decodes to the 12 bytes AES-GCM takes.
pub open spec fn nonce_sound(nonce: Seq<char>) -> bool {
    hex_decoded(nonce) matches Some(n) ==> n.len() == 12
}

/// The value under `k` can be read without the cipher refusing its nonce.
pub open spec fn readable(s: Seq<EntryView>, k: Seq<char>) -> bool {
    stored(s, k) matches Some(e) ==> nonce_sound(e.0)
}

/// The key a passphrase derives with the stored salt text, when the salt
/// is 16 bytes of hex.
pub open spec fn passphrase_key(pass: Seq<char>, salt_text: Seq<char>) -> Option<Seq<u8>> {
    match hex_decoded(salt_text) {
        Some(s) => if s.len() == 16 {
            Some(argon2id_key(pass, s, 65536, 3, 1))
        } else {
            None
        },
        None => None,
    }
}

pub struct Vault {
    pub vault_path: String,
    auth_key: Option<[u8; 32]>,
    system_key: Option<[u8; 32]>,
    file: VaultFile,
}

impl Vault {
    pub closed spec fn contents(&self) -> Seq<EntryView> {
        entry_views(self.file.entries@)
    }

    pub closed spec fn path(&self) -> String {
        self.vault_path
    }

    pub closed spec fn salt_text(&self) -> Seq<char> {
        self.file.kdf_salt@
    }

    pub closed spec fn auth_key_view(&self) -> Option<Seq<u8>> {
        match self.auth_key {
            Some(k) => Some(k@),
            None => None,
        }
    }

    pub closed spec fn system_key_view(&self) -> Option<Seq<u8>> {
        match self.system_key {
            Some(k) => Some(k@),
            None => None,
        }
    }

    /// An empty vault kept at `vault_path`, not yet authenticated.
    pub fn new(vault_path: String) -> (v: Vault)
        ensures
            v.path() == vault_path,
            v.contents().len() == 0,
            v.salt_text().len() == 0,
            v.auth_key_view() is None,
            v.system_key_view() is None,
    {
        Vault {
            vault_path,
            auth_key: None,
            system_key: None,
            file: VaultFile { kdf_salt: String::new(), entries: Vec::new() },
        }
    }

    /// The vault at `vault_path` holding what its file holds.
    pub fn open(vault_path: String, file: VaultFile) -> (v: Vault)
        ensures
            v.path() == vault_path,
            v.contents() == entry_views(file.entries@),
            v.salt_text() == file.kdf_salt@,
            v.auth_key_view() is None,
            v.system_key_view() is None,
    {
        Vault { vault_path, auth_key: None, system_key: None, file }
    }

    /// What the vault file is to hold now.
    pub fn file(&self) -> (f: &VaultFile)
        ensures
            entry_views(f.entries@) == self.contents(),
            f.kdf_salt@ == self.salt_text(),
    {
        &self.file
    }

    /// Hands the vault the key the system keychain holds for it.
    pub fn use_system_key(&mut self, key: [u8; 32])
        ensures
            final(self).system_key_view() == Some(key@),
            final(self).contents() == old(self).contents(),
            final(self).salt_text() == old(self).salt_text(),
            final(self).auth_key_view() == old(self).auth_key_view(),
            final(self).path() == old(self).path(),
    {
        self.system_key = Some(key);
    }

    /// Whether the value under `key`, if any, has a nonce the cipher takes.
    pub fn can_read(&self, key: &str) -> (b: bool)
        ensures
            b == readable(self.contents(), key@),
    {
        match find_entry(&self.file.entries, key) {
            None => true,
            Some(i) => {
                let e = &self.file.entries[i].1;
                match hex_decode(e.nonce.as_str()) {
                    Ok(n) => n.len() == 12,
                    Err(_) => true,
                }
            },
        }
    }
}

fn copy_text(s: &String) -> (r: String)
    ensures
        r@ == s@,
{
    to_string(s.as_str())
}

/// The position of the entry that counts for `key`.
fn find_entry(entries: &Vec<(String, VaultEntry)>, key: &str) -> (r: Option<usize>)
    ensures
        match r {
            Some(i) => i < entries@.len() && stored(entry_views(entries@), key@) == Some(
                (entries@[i as int].1.nonce@, entries@[i as int].1.ciphertext@),
            ),
            None => stored(entry_views(entries@), key@) is None,
        },
{
    let ghost all = entry_views(entries@);
    let mut k = entries.len();
    assert(all.take(k as int) =~= all);
    while k > 0
        invariant
            k <= entries@.len(),
            all == entry_views(entries@),
            stored(all, key@) == stored(all.take(k as int), key@),
        decreases k,
    {
        proof {
            assert(all.take(k as int).drop_last() =~= all.take(k - 1));
        }
        if str_eq(entries[k - 1].0.as_str(), key) {
            return Some(k - 1);
        }
        k = k - 1;
    }
    None
}

proof fn lemma_without_stored(s: Seq<EntryView>, k: Seq<char>, j: Seq<char>)
    ensures
        stored(without(s, k), j) == if j == k {
            None
        } else {
            stored(s, j)
        },
    decreases s.len(),
{
    if s.len() > 0 {
        lemma_without_stored(s.drop_last(), k, j);
        if s.last().0 != k {
            assert(without(s, k).drop_last() =~= without(s.drop_last(), k));
        }
    }
}

fn entries_without(entries: &Vec<(String, VaultEntry)>, key: &str) -> (r: Vec<(String, VaultEntry)>)
    ensures
        entry_views(r@) == without(entry_views(entries@), key@),
{
    let ghost all = entry_views(entries@);
    let mut out: Vec<(String, VaultEntry)> = Vec::new();
    let mut i: usize = 0;
    while i < entries.len()
        invariant
            i <= entries@.len(),
            all == entry_views(entries@),
            entry_views(out@) == without(all.take(i as int), key@),
        decreases entries.len() - i,
    {
        proof {
            assert(all.take(i + 1).drop_last() =~= all.take(i as int));
        }
        let (name, e) = (&entries[i].0, &entries[i].1);
        if !str_eq(name.as_str(), key) {
            let ghost before = out@;
            out.push(
                (copy_text(name), VaultEntry { nonce: copy_text(&e.nonce), ciphertext: copy_text(&e.ciphertext) }),
            );
            assert(entry_views(out@) =~= entry_views(before).push(all[i as int]));
        }
        i = i + 1;
    }
    proof {
        assert(all.take(i as int) =~= all);
    }
    out
}

fn array16(v: &Vec<u8>) -> (a: [u8; 16])
    requires
        v@.len() == 16,
    ensures
        a@ == v@,
{
    let mut a = [0u8; 16];
    let mut i: usize = 0;
    while i < 16
        invariant
            i <= 16,
            v@.len() == 16,
            a@.len() == 16,
            forall|j: int| 0 <= j < i ==> a@[j] == v@[j],
        decreases 16 - i,
    {
        a[i] = v[i];
        i = i + 1;
    }
    assert(a@ =~= v@);
    a
}

fn array32(v: &Vec<u8>) -> (a: [u8; 32])
    requires
        v@.len() == 32,
    ensures
        a@ == v@,
{
    let mut a = [0u8; 32];
    let mut i: usize = 0;
    while i < 32
        invariant
            i <= 32,
            v@.len() == 32,
            a@.len() == 32,
            forall|j: int| 0 <= j < i ==> a@[j] == v@[j],
        decreases 32 - i,
    {
        a[i] = v[i];
        i = i + 1;
    }
    assert(a@ =~= v@);
    a
}

// ── The vault's operations ───────────────────────────────────────────────────

/// What a secrets store offers: authentication, and sealed values set,
/// read, deleted and listed by name.
pub trait SecretsVault {
    /// Whether the value under `key` can be read without the cipher refusing
    /// its stored nonce.
    spec fn ready(&self, key: Seq<char>) -> bool;

    fn authenticate(&mut self, credential: AuthCredential) -> Result<AuthToken, VaultError>;

    fn set(&mut self, key: &str, value: &[u8], auth: &AuthToken) -> Result<(), VaultError>;

    fn get(&self, key: &str, auth: &AuthToken) -> Result<Vec<u8>, VaultError>
        requires
            self.ready(key@),
    ;

    fn delete(&mut self, key: &str, auth: &AuthToken) -> Result<(), VaultError>;

    fn list_keys(&self) -> Vec<String>;
}

impl SecretsVault for Vault {
    open spec fn ready(&self, key: Seq<char>) -> bool {
        readable(self.contents(), key)
    }

    /// With a passphrase: the key Argon2id derives from it and the vault's
    /// salt; a vault without a salt first gets 16 fresh random bytes. With
    /// the system keychain: the key the program handed over. On success the
    /// key is the vault's from now on.
    fn authenticate(&mut self, credential: AuthCredential) -> (r: Result<AuthToken, VaultError>)
        ensures
            final(self).contents() == old(self).contents(),
            final(self).path() == old(self).path(),
            final(self).system_key_view() == old(self).system_key_view(),
            r matches Ok(t) ==> final(self).auth_key_view() == Some(t.key_view()),
            r is Err ==> final(self).auth_key_view() == old(self).auth_key_view(),
            match credential {
                AuthCredential::Passphrase(p) => {
                    &&& old(self).salt_text().len() > 0 ==> final(self).salt_text() == old(self).salt_text()
                    &&& old(self).salt_text().len() == 0 ==> passphrase_key(p@, final(self).salt_text()) is Some
                    &&& match r {
                        Ok(t) => passphrase_key(p@, final(self).salt_text()) == Some(t.key_view()),
                        Err(e) => e matches VaultError::KeyDerivation(m) && (if hex_decoded(
                            final(self).salt_text(),
                        ) is None {
                            m@ == "bad salt hex: "@ + hex_refusal(final(self).salt_text())
                        } else if passphrase_key(p@, final(self).salt_text()) is None {
                            m@ == "stored KDF salt has wrong length"@
                        } else {
                            hex_decoded(final(self).salt_text()) matches Some(s) && m@ == argon2id_refusal(
                                p@,
                                s,
                                65536,
                                3,
                                1,
                            )
                        }),
                    }
                },
                AuthCredential::SystemKeychain => {
                    &&& final(self).salt_text() == old(self).salt_text()
                    &&& match old(self).system_key_view() {
                        Some(k) => r matches Ok(t) && t.key_view() == k,
                        None => r matches Err(VaultError::Keychain(m)) && m@
                            == "system keychain key not loaded"@,
                    }
                },
            },
    {
        match credential {
            AuthCredential::Passphrase(pass) => {
                if self.file.kdf_salt.unicode_len() == 0 {
                    let salt = random_bytes(16);
                    let text = hex_encode(salt.as_slice());
                    self.file.kdf_salt = text;
                    proof {
                        hex_round_trip(salt@);
                    }
                }
                let salt_bytes = match hex_decode(self.file.kdf_salt.as_str()) {
                    Ok(b) => b,
                    Err(m) => {
                        let mut msg = to_string("bad salt hex: ");
                        push_string(&mut msg, &m);
                        return Err(VaultError::KeyDerivation(msg));
                    },
                };
                if salt_bytes.len() != 16 {
                    return Err(VaultError::KeyDerivation(to_string("stored KDF salt has wrong length")));
                }
                let salt = array16(&salt_bytes);
                match argon2id_derive(pass.as_str(), &salt, 65536, 3, 1) {
                    Ok(key) => {
                        self.auth_key = Some(key);
                        Ok(AuthToken { key })
                    },
                    Err(m) => Err(VaultError::KeyDerivation(m)),
                }
            },
            AuthCredential::SystemKeychain => {
                match self.system_key {
                    Some(key) => {
                        self.auth_key = Some(key);
                        Ok(AuthToken { key })
                    },
                    None => Err(VaultError::Keychain(to_string("system keychain key not loaded"))),
                }
            },
        }
    }

    /// Seals `value` under the token's key with a fresh nonce and stores it
    /// under `key`, replacing what was there; other names keep their values.
    fn set(&mut self, key: &str, value: &[u8], auth: &AuthToken) -> (r: Result<(), VaultError>)
        ensures
            value@.len() <= aes_gcm_p_max() ==> r is Ok,
            final(self).salt_text() == old(self).salt_text(),
            final(self).path() == old(self).path(),
            final(self).auth_key_view() == old(self).auth_key_view(),
            final(self).system_key_view() == old(self).system_key_view(),
            match r {
                Ok(()) => {
                    &&& stored(final(self).contents(), key@) matches Some(e) && opened(auth.key_view(), e.0, e.1)
                        == Some(value@) && nonce_sound(e.0)
                    &&& forall|j: Seq<char>|
                        j != key@ ==> #[trigger] stored(final(self).contents(), j) == stored(
                            old(self).contents(),
                            j,
                        )
                },
                Err(e) => e matches VaultError::Encryption(m) && m@ == aead_error_text()
                    && final(self).contents() == old(self).contents(),
            },
    {
        let nonce = random_bytes(12);
        let sealed = match aes256gcm_encrypt(&auth.key, nonce.as_slice(), value) {
            Ok(c) => c,
            Err(m) => return Err(VaultError::Encryption(m)),
        };
        let entry = VaultEntry { nonce: hex_encode(nonce.as_slice()), ciphertext: hex_encode(sealed.as_slice()) };
        proof {
            hex_round_trip(nonce@);
            hex_round_trip(sealed@);
        }
        let mut rest = entries_without(&self.file.entries, key);
        let ghost kept = entry_views(rest@);
        rest.push((to_string(key), entry));
        proof {
            assert(entry_views(rest@) =~= kept.push((key@, hex_lower(nonce@), hex_lower(sealed@))));
            assert(entry_views(rest@).drop_last() =~= kept);
            assert forall|j: Seq<char>| j != key@ implies #[trigger] stored(entry_views(rest@), j) == stored(
                old(self).contents(),
                j,
            ) by {
                assert(entry_views(rest@).drop_last() =~= kept);
                lemma_without_stored(old(self).contents(), key@, j);
            }
        }
        self.file.entries = rest;
        Ok(())
    }

    /// The value stored under `key`, opened with the token's key.
    fn get(&self, key: &str, auth: &AuthToken) -> (r: Result<Vec<u8>, VaultError>)
        ensures
            match stored(self.contents(), key@) {
                None => r matches Err(VaultError::NotFound(m)) && m@ == key@,
                Some(e) => match opened(auth.key_view(), e.0, e.1) {
                    Some(p) => r matches Ok(v) && v@ == p,
                    None => r matches Err(VaultError::Decryption(m)) && m@ == opening_failure(e.0, e.1),
                },
            },
    {
        let i = match find_entry(&self.file.entries, key) {
            Some(i) => i,
            None => return Err(VaultError::NotFound(to_string(key))),
        };
        let e = &self.file.entries[i].1;
        let nonce = match hex_decode(e.nonce.as_str()) {
            Ok(n) => n,
            Err(m) => return Err(VaultError::Decryption(m)),
        };
        let ciphertext = match hex_decode(e.ciphertext.as_str()) {
            Ok(c) => c,
            Err(m) => return Err(VaultError::Decryption(m)),
        };
        match aes256gcm_decrypt(&auth.key, nonce.as_slice(), ciphertext.as_slice()) {
            Ok(p) => Ok(p),
            Err(m) => Err(VaultError::Decryption(m)),
        }
    }

    /// Removes the value under `key`; a name with no value is an error.
    fn delete(&mut self, key: &str, auth: &AuthToken) -> (r: Result<(), VaultError>)
        ensures
            final(self).salt_text() == old(self).salt_text(),
            final(self).path() == old(self).path(),
            final(self).auth_key_view() == old(self).auth_key_view(),
            final(self).system_key_view() == old(self).system_key_view(),
            stored(old(self).contents(), key@) is None ==> (r matches Err(VaultError::NotFound(m)) && m@ == key@
                && final(self).contents() == old(self).contents()),
            stored(old(self).contents(), key@) is Some ==> r is Ok,
            r is Ok ==> stored(final(self).contents(), key@) is None && forall|j: Seq<char>|
                j != key@ ==> #[trigger] stored(final(self).contents(), j) == stored(old(self).contents(), j),
    {
        if find_entry(&self.file.entries, key).is_none() {
            return Err(VaultError::NotFound(to_string(key)));
        }
        let rest = entries_without(&self.file.entries, key);
        proof {
            lemma_without_stored(old(self).contents(), key@, key@);
            assert forall|j: Seq<char>| j != key@ implies #[trigger] stored(entry_views(rest@), j) == stored(
                old(self).contents(),
                j,
            ) by {
                    lemma_without_stored(old(self).contents(), key@, j);
            }
        }
        self.file.entries = rest;
        Ok(())
    }

    /// The names of the stored values, never the values.
    fn list_keys(&self) -> (r: Vec<String>)
        ensures
            forall|j: Seq<char>| crate::text::texts(r@).contains(j) <==> #[trigger] stored(self.contents(), j) is Some,
            crate::text::texts(r@).no_duplicates(),
    {
        let ghost all = self.contents();
        let mut out: Vec<String> = Vec::new();
        let mut i: usize = 0;
        while i < self.file.entries.len()
            invariant
                i <= self.file.entries@.len(),
                all == entry_views(self.file.entries@),
                forall|j: Seq<char>| crate::text::texts(out@).contains(j) <==> #[trigger] stored(all.take(i as int), j) is Some,
                crate::text::texts(out@).no_duplicates(),
            decreases self.file.entries.len() - i,
        {
            let name = &self.file.entries[i].0;
            proof {
                assert(all.take(i + 1).drop_last() =~= all.take(i as int));
                assert(all.take(i + 1).last().0 == name@);
            }
            let ghost before = out@;
            let found = find_entry_in(&out, name);
            if found.is_none() {
                out.push(copy_text(name));
                proof {
                    assert(crate::text::texts(out@) =~= crate::text::texts(before).push(name@));
                }
            }
            proof {
                let tb = crate::text::texts(before);
                let ta = crate::text::texts(out@);
                if let Some(idx) = found {
                    assert(tb[idx as int] == name@);
                    assert(ta == tb);
                }
                assert forall|j: Seq<char>| ta.contains(j) <==> #[trigger] stored(all.take(i + 1), j) is Some by {
                    if ta.contains(j) && j != name@ {
                        let m = choose|m: int| 0 <= m < ta.len() && #[trigger] ta[m] == j;
                        if found.is_none() {
                            assert(m < tb.len());
                            assert(tb[m] == j);
                        }
                    }
                    if stored(all.take(i as int), j) is Some && j != name@ {
                        assert(tb.contains(j));
                        let m = choose|m: int| 0 <= m < tb.len() && #[trigger] tb[m] == j;
                        assert(ta[m] == j);
                    }
                    if j == name@ && found.is_none() {
                        assert(ta[tb.len() as int] == j);
                    }
                }
            }
            i = i + 1;
        }
        proof {
            assert(all.take(i as int) =~= all);
        }
        out
    }
}

fn find_entry_in(names: &Vec<String>, name: &String) -> (r: Option<usize>)
    ensures
        match r {
            Some(i) => i < names@.len() && names@[i as int]@ == name@,
            None => !crate::text::texts(names@).contains(name@),
        },
{
    let mut i: usize = 0;
    while i < names.len()
        invariant
            i <= names@.len(),
            forall|j: int| 0 <= j < i ==> names@[j]@ != name@,
        decreases names.len() - i,
    {
        if str_eq(names[i].as_str(), name.as_str()) {
            return Some(i);
        }
        i = i + 1;
    }
    proof {
        if crate::text::texts(names@).contains(name@) {
            let j = choose|j: int| 0 <= j < names@.len() && #[trigger] crate::text::texts(names@)[j] == name@;
            assert(names@[j]@ == name@);
        }
    }
    None
}

// ── The keychain's key ───────────────────────────────────────────────────────

/// The key the keychain entry holds (as hex) or, when it holds none, a new
/// random key and the hex text to store in it.
pub fn keychain_key(stored_hex: Option<String>) -> (r: Result<([u8; 32], Option<String>), VaultError>)
    ensures
        match stored_hex {
            Some(h) => match hex_decoded(h@) {
                None => r matches Err(VaultError::Keychain(m)) && m@ == hex_refusal(h@),
                Some(b) => if b.len() == 32 {
                    r matches Ok((k, w)) && k@ == b && w is None
                } else {
                    r matches Err(VaultError::Keychain(m)) && m@ == "invalid key length in keychain"@
                },
            },
            None => r matches Ok((k, w)) && w matches Some(t) && t@ == hex_lower(k@),
        },
{
    match stored_hex {
        Some(h) => {
            let bytes = match hex_decode(h.as_str()) {
                Ok(b) => b,
                Err(m) => return Err(VaultError::Keychain(m)),
            };
            if bytes.len() != 32 {
                return Err(VaultError::Keychain(to_string("invalid key length in keychain")));
            }
            Ok((array32(&bytes), None))
        },
        None => {
            let bytes = random_bytes(32);
            let key = array32(&bytes);
            let text = hex_encode(&key);
            Ok((key, Some(text)))
        },
    }
}

// ── The command-line entry points ────────────────────────────────────────────

pub fn vault_set(vault: &mut Vault, key: &str, value: &[u8], auth: &AuthToken) -> (r: Result<(), VaultError>)
    ensures
        value@.len() <= aes_gcm_p_max() ==> r is Ok,
        r is Ok ==> (stored(final(vault).contents(), key@) matches Some(e) && opened(auth.key_view(), e.0, e.1) == Some(
            value@,
        ) && nonce_sound(e.0)),
        r is Ok ==> forall|j: Seq<char>|
            j != key@ ==> #[trigger] stored(final(vault).contents(), j) == stored(old(vault).contents(), j),
        r is Err ==> final(vault).contents() == old(vault).contents(),
{
    vault.set(key, value, auth)
}

/// The raw value under `key`, for handing to an agent's environment only.
pub fn vault_get(vault: &Vault, key: &str, auth: &AuthToken) -> (r: Result<Vec<u8>, VaultError>)
    requires
        readable(vault.contents(), key@),
    ensures
        match stored(vault.contents(), key@) {
            None => r matches Err(VaultError::NotFound(m)) && m@ == key@,
            Some(e) => match opened(auth.key_view(), e.0, e.1) {
                Some(p) => r matches Ok(v) && v@ == p,
                None => r matches Err(VaultError::Decryption(m)) && m@ == opening_failure(e.0, e.1),
            },
        },
{
    vault.get(key, auth)
}

pub fn vault_delete(vault: &mut Vault, key: &str, auth: &AuthToken) -> (r: Result<(), VaultError>)
    ensures
        stored(old(vault).contents(), key@) is None <==> r is Err,
        stored(old(vault).contents(), key@) is None ==> (r matches Err(VaultError::NotFound(m)) && m@ == key@),
        r is Ok ==> stored(final(vault).contents(), key@) is None,
        r is Ok ==> forall|j: Seq<char>|
            j != key@ ==> #[trigger] stored(final(vault).contents(), j) == stored(old(vault).contents(), j),
        r is Err ==> final(vault).contents() == old(vault).contents(),
{
    vault.delete(key, auth)
}

/// The names of the stored values, never the values.
pub fn vault_list(vault: &Vault) -> (r: Vec<String>)
    ensures
        forall|j: Seq<char>| crate::text::texts(r@).contains(j) <==> #[trigger] stored(vault.contents(), j) is Some,
        crate::text::texts(r@).no_duplicates(),
{
    vault.list_keys()
}

/// The value a read of `name` with `key` gives, if any.
pub open spec fn read_value(contents: Seq<EntryView>, key: Seq<u8>, name: Seq<char>) -> Option<Seq<u8>> {
    match stored(contents, name) {
        Some(e) => opened(key, e.0, e.1),
        None => None,
    }
}

/// A value set under a name reads back with the same token, and setting it
/// changes what no other name reads.
pub proof fn read_back_after_set(
    before: Seq<EntryView>,
    after: Seq<EntryView>,
    key: Seq<u8>,
    name: Seq<char>,
    value: Seq<u8>,
)
    requires
        stored(after, name) matches Some(e) && opened(key, e.0, e.1) == Some(value),
        forall|j: Seq<char>| j != name ==> #[trigger] stored(after, j) == stored(before, j),
    ensures
        read_value(after, key, name) == Some(value),
        forall|j: Seq<char>, k: Seq<u8>| j != name ==> #[trigger] read_value(after, k, j) == read_value(before, k, j),
{
    assert forall|j: Seq<char>, k: Seq<u8>| j != name implies #[trigger] read_value(after, k, j) == read_value(
        before,
        k,
        j,
    ) by {
        assert(stored(after, j) == stored(before, j));
    }
}

/// After a delete nothing reads under that name, with any key.
pub proof fn nothing_reads_after_delete(after: Seq<EntryView>, key: Seq<u8>, name: Seq<char>)
    requires
        stored(after, name) is None,
    ensures
        read_value(after, key, name) is None,
{
}

/// The names `vault_list` reports for these contents.
pub open spec fn listed_names(contents: Seq<EntryView>) -> Set<Seq<char>> {
    Set::new(|j: Seq<char>| stored(contents, j) is Some)
}

/// The listing follows the writes: after a successful set of `name` the
/// names listed are those before plus `name`; after a successful delete
/// they are those before without it.
pub proof fn listing_follows_set_and_delete(before: Seq<EntryView>, after: Seq<EntryView>, name: Seq<char>)
    requires
        forall|j: Seq<char>| j != name ==> #[trigger] stored(after, j) == stored(before, j),
    ensures
        stored(after, name) is Some ==> listed_names(after) == listed_names(before).insert(name),
        stored(after, name) is None ==> listed_names(after) == listed_names(before).remove(name),
{
    if stored(after, name) is Some {
        assert(listed_names(after) =~= listed_names(before).insert(name));
    } else {
        assert(listed_names(after) =~= listed_names(before).remove(name));
    }
}

/// Over a run of successful sets on a vault that held nothing, the names
/// listed are exactly the names set, each once: a listing of the result
/// (distinct names, exactly the stored ones) has as many entries as there
/// were distinct names.
pub proof fn listing_after_sets(names: Seq<Seq<char>>, states: Seq<Seq<EntryView>>, listing: Seq<Seq<char>>)
    requires
        states.len() == names.len() + 1,
        forall|j: Seq<char>| #[trigger] stored(states[0], j) is None,
        forall|k: int|
            0 <= k < names.len() ==> stored(states[k + 1], #[trigger] names[k]) is Some && forall|j: Seq<char>|
                j != names[k] ==> #[trigger] stored(states[k + 1], j) == stored(states[k], j),
        listing.no_duplicates(),
        forall|j: Seq<char>| listing.contains(j) <==> #[trigger] stored(states.last(), j) is Some,
    ensures
        listed_names(states.last()) == names.to_set(),
        listing.to_set() == names.to_set(),
        listing.len() == names.to_set().len(),
{
    lemma_listed_after_sets(names, states, names.len() as int);
    assert(names.take(names.len() as int) =~= names);
    assert(listing.to_set() =~= listed_names(states.last()));
    listing.unique_seq_to_set();
}

proof fn lemma_listed_after_sets(names: Seq<Seq<char>>, states: Seq<Seq<EntryView>>, n: int)
    requires
        states.len() == names.len() + 1,
        0 <= n <= names.len(),
        forall|j: Seq<char>| #[trigger] stored(states[0], j) is None,
        forall|k: int|
            0 <= k < names.len() ==> stored(states[k + 1], #[trigger] names[k]) is Some && forall|j: Seq<char>|
                j != names[k] ==> #[trigger] stored(states[k + 1], j) == stored(states[k], j),
    ensures
        listed_names(states[n]) == names.take(n).to_set(),
    decreases n,
{
    if n == 0 {
        assert(listed_names(states[0]) =~= Set::<Seq<char>>::empty());
        assert(names.take(0).to_set() =~= Set::<Seq<char>>::empty());
    } else {
        lemma_listed_after_sets(names, states, n - 1);
        let nm = names[n - 1];
        assert(stored(states[n], nm) is Some);
        assert forall|j: Seq<char>| j != nm implies #[trigger] stored(states[n], j) == stored(states[n - 1], j) by {
            assert(forall|jj: Seq<char>| jj != names[n - 1] ==> #[trigger] stored(states[n - 1 + 1], jj) == stored(states[n - 1], jj));
        }
        listing_follows_set_and_delete(states[n - 1], states[n], nm);
        assert(names.take(n) =~= names.take(n - 1).push(nm));
        names.take(n - 1).lemma_push_to_set_commute(nm);
    }
}

} // verus!
