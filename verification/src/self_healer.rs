//! Self-healing of a failed agent: which adjustment each retry applies, and
//! whether the agent recovers or the failure is escalated to the user.
use vstd::prelude::*;

use crate::text::to_string;

verus! {

#[derive(Debug)]
pub enum HealerError {
    Database(String),
}

#[derive(Debug, PartialEq)]
pub enum HealingOutcome {
    Recovered { attempt: u32, adjustment: String },
    Escalated { attempts: u32, last_error: String },
}

#[derive(Debug)]
pub struct HealingEvent {
    pub id: i64,
    pub agent_pid: u32,
    pub timestamp: String,
    pub original_error: String,
    pub adjustment: String,
    pub outcome: String,
    pub attempt_number: u32,
}

/// The adjustment tried on retry `attempt`.
pub open spec fn adjustment_text(attempt: u32) -> Seq<char> {
    if attempt == 1 {
        "reduce_context"@
    } else if attempt == 2 {
        "change_strategy"@
    } else {
        "reset_parameters"@
    }
}

pub fn adjustment_for(attempt: u32) -> (s: &'static str)
    ensures
        s@ == adjustment_text(attempt),
{
    match attempt {
        1 => "reduce_context",
        2 => "change_strategy",
        _ => "reset_parameters",
    }
}

/// The attempt that is written to the healing log.
#[derive(Debug)]
pub struct LoggedAttempt {
    pub adjustment: String,
    pub outcome: String,
    pub attempt_number: u32,
}

/// Decides a healing run with at most `max_retries` retries. Retries are
/// simulated: the first one succeeds unless `always_fail` is set or it is
/// the last one allowed; otherwise every retry fails and the error is
/// escalated. Returns the outcome and the one attempt to log.
pub fn decide_healing(max_retries: u32, always_fail: bool, error: &str) -> (r: (HealingOutcome, LoggedAttempt))
    ensures
        !always_fail && max_retries > 1 ==> (r.0 matches HealingOutcome::Recovered { attempt, adjustment }
            && attempt == 1 && adjustment@ == adjustment_text(1)) && r.1.adjustment@ == adjustment_text(1)
            && r.1.outcome@ == "Success"@ && r.1.attempt_number == 1,
        always_fail || max_retries <= 1 ==> (r.0 matches HealingOutcome::Escalated { attempts, last_error }
            && attempts == max_retries && last_error@ == error@) && r.1.adjustment@ == adjustment_text(max_retries)
            && r.1.outcome@ == "Failure"@ && r.1.attempt_number == max_retries,
{
    let mut attempt: u32 = 1;
    while attempt <= max_retries
        invariant
            1 <= attempt,
            attempt > 1 ==> always_fail || max_retries <= 1,
        ensures
            always_fail || max_retries <= 1,
        decreases max_retries as int - attempt,
    {
        let succeeded = !always_fail && attempt < max_retries;
        if succeeded {
            let adjustment = adjustment_for(attempt);
            return (
                HealingOutcome::Recovered { attempt, adjustment: to_string(adjustment) },
                LoggedAttempt { adjustment: to_string(adjustment), outcome: to_string("Success"), attempt_number: attempt },
            );
        }
        if attempt == max_retries {
            break;
        }
        attempt = attempt + 1;
    }
    let last = adjustment_for(max_retries);
    (
        HealingOutcome::Escalated { attempts: max_retries, last_error: to_string(error) },
        LoggedAttempt { adjustment: to_string(last), outcome: to_string("Failure"), attempt_number: max_retries },
    )
}


impl HealerError {
    /// The error's message, as the program prints it.
    pub fn message(&self) -> (s: String)
        ensures
            s@ == match *self {
                HealerError::Database(m) => "database error: "@ + m@,
            },
    {
        match self {
            HealerError::Database(m) => crate::error::prefixed("database error: ", m),
        }
    }
}

} // verus!
