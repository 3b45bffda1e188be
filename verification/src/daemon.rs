//! The daemon's error type and the privacy rule it enforces. Starting the
//! daemon (opening the database, loading the configuration) is the
//! program's work.
use vstd::prelude::*;

use crate::config::PrivacyConfig;
use crate::error::{hawk_error_shown, HawkError};
use crate::text::{push_string, str_eq, to_string};

verus! {

#[derive(Debug)]
pub enum DaemonError {
    Database(String),
    Config(String),
}

impl DaemonError {
    /// A kernel error as the daemon reports it: database errors stay
    /// database errors; every other error becomes a configuration error,
    /// carrying its own message (a configuration error) or its displayed
    /// text (any other).
    pub fn from_hawk(e: HawkError) -> (r: DaemonError)
        ensures
            match e {
                HawkError::Database(m) => r matches DaemonError::Database(d) && d@ == m@,
                HawkError::Config(m) => r matches DaemonError::Config(c) && c@ == m@,
                _ => r matches DaemonError::Config(c) && hawk_error_shown(e, c@),
            },
    {
        let text = e.message();
        match e {
            HawkError::Database(m) => DaemonError::Database(m),
            HawkError::Config(m) => DaemonError::Config(m),
            _ => DaemonError::Config(text),
        }
    }

    /// The error's message, as the program prints it.
    pub fn message(&self) -> (s: String)
        ensures
            s@ == match *self {
                DaemonError::Database(m) => "database error: "@ + m@,
                DaemonError::Config(m) => "config error: "@ + m@,
            },
    {
        match self {
            DaemonError::Database(m) => {
                let mut s = to_string("database error: ");
                push_string(&mut s, m);
                s
            },
            DaemonError::Config(m) => {
                let mut s = to_string("config error: ");
                push_string(&mut s, m);
                s
            },
        }
    }
}

/// Whether the privacy mode cuts the machine off from the network.
pub fn is_air_gapped(privacy: &PrivacyConfig) -> (b: bool)
    ensures
        b == (privacy.mode@ == "air-gapped"@),
{
    str_eq(privacy.mode.as_str(), "air-gapped")
}

} // verus!
