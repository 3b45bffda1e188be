//! The kernel-wide error type.
use vstd::prelude::*;

use crate::text::{push_string, starts_with, to_string};

verus! {

/// `std::io::Error`, carried through unchanged.
#[verifier::external_type_specification]
#[verifier::external_body]
pub struct ExIoError(std::io::Error);

/// Errors of the agent kernel; each variant carries its message.
#[derive(Debug)]
pub enum HawkError {
    Io(std::io::Error),
    Database(String),
    Config(String),
    Permission(String),
    Snapshot(String),
    Vault(String),
    Bus(String),
    Serialization(String),
    NotFound(String),
    InvalidManifest(String),
}

/// `<std::io::Error as Display>::to_string`: the error's own message. Its
/// text comes from the platform (for an OS error, the C library's
/// description in the current locale), so nothing is stated of it.
#[verifier::external_body]
pub(crate) fn io_error_message(e: &std::io::Error) -> (s: String) {
    e.to_string()
}

/// The prefix naming a kernel error's kind.
pub open spec fn hawk_error_prefix(e: HawkError) -> Seq<char> {
    match e {
        HawkError::Io(_) => "I/O error: "@,
        HawkError::Database(_) => "Database error: "@,
        HawkError::Config(_) => "Config error: "@,
        HawkError::Permission(_) => "Permission denied: "@,
        HawkError::Snapshot(_) => "Snapshot error: "@,
        HawkError::Vault(_) => "Vault error: "@,
        HawkError::Bus(_) => "Bus error: "@,
        HawkError::Serialization(_) => "Serialization error: "@,
        HawkError::NotFound(_) => "Not found: "@,
        HawkError::InvalidManifest(_) => "Invalid manifest: "@,
    }
}

/// The message a kernel error carries; an I/O error's comes from the
/// platform and is not known here.
pub open spec fn hawk_error_detail(e: HawkError) -> Option<Seq<char>> {
    match e {
        HawkError::Io(_) => None,
        HawkError::Database(m) => Some(m@),
        HawkError::Config(m) => Some(m@),
        HawkError::Permission(m) => Some(m@),
        HawkError::Snapshot(m) => Some(m@),
        HawkError::Vault(m) => Some(m@),
        HawkError::Bus(m) => Some(m@),
        HawkError::Serialization(m) => Some(m@),
        HawkError::NotFound(m) => Some(m@),
        HawkError::InvalidManifest(m) => Some(m@),
    }
}

/// `s` is what kernel error `e` displays: the prefix naming its kind, then
/// its own message.
pub open spec fn hawk_error_shown(e: HawkError, s: Seq<char>) -> bool {
    &&& starts_with(s, hawk_error_prefix(e))
    &&& (hawk_error_detail(e) matches Some(m) ==> s == hawk_error_prefix(e) + m)
}

pub(crate) fn prefixed(prefix: &str, m: &String) -> (s: String)
    ensures
        s@ == prefix@ + m@,
        starts_with(s@, prefix@),
{
    let mut s = to_string(prefix);
    push_string(&mut s, m);
    assert(s@.subrange(0, prefix@.len() as int) =~= prefix@);
    s
}

impl HawkError {
    /// The message this error displays.
    pub fn message(&self) -> (s: String)
        ensures
            hawk_error_shown(*self, s@),
    {
        match self {
            HawkError::Io(e) => {
                let t = io_error_message(e);
                prefixed("I/O error: ", &t)
            },
            HawkError::Database(m) => prefixed("Database error: ", m),
            HawkError::Config(m) => prefixed("Config error: ", m),
            HawkError::Permission(m) => prefixed("Permission denied: ", m),
            HawkError::Snapshot(m) => prefixed("Snapshot error: ", m),
            HawkError::Vault(m) => prefixed("Vault error: ", m),
            HawkError::Bus(m) => prefixed("Bus error: ", m),
            HawkError::Serialization(m) => prefixed("Serialization error: ", m),
            HawkError::NotFound(m) => prefixed("Not found: ", m),
            HawkError::InvalidManifest(m) => prefixed("Invalid manifest: ", m),
        }
    }
}

} // verus!
