//! Token accounting: its error type and the budget rule. Recording usage and
//! summing it are database queries the program makes.
use vstd::prelude::*;

use crate::text::{push_string, to_string};

verus! {

#[derive(Debug)]
pub enum TokenError {
    Database(String),
}

/// `<rusqlite::Error as Display>::to_string`: the error's message. Some
/// variants display an inner error of any kind (an I/O error's text comes
/// from the platform), so nothing is stated of the text.
#[verifier::external_body]
pub(crate) fn db_error_message(e: &rusqlite::Error) -> (s: String) {
    e.to_string()
}

impl TokenError {
    /// A database error, carried by its message (the database error's own
    /// text, which is not known here).
    pub fn from_db(e: &rusqlite::Error) -> (r: TokenError)
        ensures
            r is Database,
    {
        TokenError::Database(db_error_message(e))
    }

    /// The error's message, as the program prints it.
    pub fn message(&self) -> (s: String)
        ensures
            s@ == match *self {
                TokenError::Database(m) => "database error: "@ + m@,
            },
    {
        match self {
            TokenError::Database(m) => {
                let mut s = to_string("database error: ");
                push_string(&mut s, m);
                s
            },
        }
    }
}

/// Whether an agent that has used `total_tokens` (the database's sum) is
/// over a budget of `budget_tokens`; using exactly the budget is not.
pub fn budget_exceeded(total_tokens: i64, budget_tokens: u64) -> (b: bool)
    ensures
        b == ((total_tokens as u64) > budget_tokens),
{
    (total_tokens as u64) > budget_tokens
}

} // verus!
