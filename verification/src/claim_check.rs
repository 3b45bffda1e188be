//! Checking what an agent claims to have done against what it did. Claims
//! come either from the ClaimCheck tool's report or from the agent itself;
//! the evidence is the session's recorded actions. Running ClaimCheck,
//! loading actions and storing reports is the program's work.
use vstd::prelude::*;

use crate::text::{push_str, push_string, str_eq, to_string};

verus! {

#[derive(Debug)]
pub enum VerifyError {
    Database(String),
    Serialization(String),
    ClaimCheck(String),
}

impl VerifyError {
    /// The error's message, as the program prints it.
    pub fn message(&self) -> (s: String)
        ensures
            s@ == match *self {
                VerifyError::Database(m) => "database error: "@ + m@,
                VerifyError::Serialization(m) => "serialization error: "@ + m@,
                VerifyError::ClaimCheck(m) => "claimcheck error: "@ + m@,
            },
    {
        let mut s = String::new();
        match self {
            VerifyError::Database(m) => {
                push_str(&mut s, "database error: ");
                push_string(&mut s, m);
            },
            VerifyError::Serialization(m) => {
                push_str(&mut s, "serialization error: ");
                push_string(&mut s, m);
            },
            VerifyError::ClaimCheck(m) => {
                push_str(&mut s, "claimcheck error: ");
                push_string(&mut s, m);
            },
        }
        s
    }
}

// ── ClaimCheck's report ──────────────────────────────────────────────────────

#[derive(Debug, Clone)]
pub struct ClaimCheckSummary {
    pub total: u32,
    pub pass: u32,
    pub fail: u32,
    pub unverifiable: u32,
}

/// One claim as ClaimCheck judged it: `result` is `"PASS"`, `"FAIL"` or
/// `"UNVERIFIABLE"`.
#[derive(Debug, Clone)]
pub struct ClaimCheckClaim {
    pub claim_type: String,
    pub raw_text: String,
    pub result: String,
    pub reason: Option<String>,
}

#[derive(Debug, Clone)]
pub struct ClaimCheckReport {
    pub truth_score: String,
    pub summary: ClaimCheckSummary,
    pub claims: Vec<ClaimCheckClaim>,
}

// ── Claims, evidence and verdicts ────────────────────────────────────────────

#[derive(Debug, Clone)]
pub struct AgentClaim {
    pub action_type: String,
    pub resource: String,
    pub claimed_at: String,
}

/// One recorded action of a session; `payload` is JSON.
#[derive(Debug, Clone)]
pub struct SessionAction {
    pub step_number: i64,
    pub timestamp: String,
    pub action_type: String,
    pub agent_pid: i64,
    pub payload: String,
}

#[derive(Debug, Clone)]
pub struct SessionEvidence {
    pub session_id: String,
    pub actions: Vec<SessionAction>,
}

#[derive(Debug, Clone, PartialEq)]
pub enum ClaimVerdict {
    Pass,
    Fail,
    Inconclusive { reason: String },
}

#[derive(Debug, Clone)]
pub struct ClaimResult {
    pub claim: AgentClaim,
    pub verdict: ClaimVerdict,
    pub discrepancies: Vec<String>,
}

#[derive(Debug, Clone, Copy, PartialEq, Eq, Structural)]
pub enum VerificationStatus {
    Verified,
    Unverified,
    Inconclusive,
}

impl VerificationStatus {
    /// The status's name, as it is stored and printed.
    pub fn label(&self) -> (s: &'static str)
        ensures
            s@ == match *self {
                VerificationStatus::Verified => "Verified"@,
                VerificationStatus::Unverified => "Unverified"@,
                VerificationStatus::Inconclusive => "Inconclusive"@,
            },
    {
        match self {
            VerificationStatus::Verified => "Verified",
            VerificationStatus::Unverified => "Unverified",
            VerificationStatus::Inconclusive => "Inconclusive",
        }
    }
}

/// A session's verification: every claim's result and the overall status;
/// the truth score and ClaimCheck's own report when ClaimCheck was used.
#[derive(Debug, Clone)]
pub struct VerificationReport {
    pub session_id: String,
    pub overall_status: VerificationStatus,
    pub claims: Vec<ClaimResult>,
    pub truth_score: Option<String>,
    pub claimcheck_raw: Option<ClaimCheckReport>,
}

// ── Reading a payload (serde_json) ───────────────────────────────────────────

/// What `serde_json` finds in `payload` under `key`: the text of that entry
/// when `payload` parses as a JSON object whose entry `key` is a string,
/// nothing otherwise.
pub uninterp spec fn json_string_entry(payload: Seq<char>, key: Seq<char>) -> Option<Seq<char>>;

/// `serde_json::from_str::<Value>`, then `Value::get(key)` and
/// `Value::as_str`: the string entry `key` of the JSON object `payload`.
#[verifier::external_body]
fn json_string_field(payload: &str, key: &str) -> (r: Option<String>)
    ensures
        match r {
            Some(s) => json_string_entry(payload@, key@) == Some(s@),
            None => json_string_entry(payload@, key@) is None,
        },
{
    let v: serde_json::Value = match serde_json::from_str(payload) {
        Ok(v) => v,
        Err(_) => return None,
    };
    match v.get(key) {
        Some(x) => match x.as_str() {
            Some(s) => Some(s.to_string()),
            None => None,
        },
        None => None,
    }
}

/// The payload entries that can name the resource an action touched.
pub open spec fn resource_keys() -> Seq<Seq<char>> {
    seq!["resource"@, "path"@, "url"@, "command"@]
}

/// An action's payload names `resource` under one of the resource keys.
pub open spec fn payload_names(payload: Seq<char>, resource: Seq<char>) -> bool {
    exists|k: int| 0 <= k < 4 && #[trigger] json_string_entry(payload, resource_keys()[k]) == Some(resource)
}

/// An action backs a claim: same kind of action, on the claimed resource.
pub open spec fn backs(a: SessionAction, c: AgentClaim) -> bool {
    a.action_type@ == c.action_type@ && payload_names(a.payload@, c.resource@)
}

/// The verdict's shape, with an inconclusive reason taken by its text.
pub open spec fn verdict_view(v: ClaimVerdict) -> (int, Seq<char>) {
    match v {
        ClaimVerdict::Pass => (0, Seq::empty()),
        ClaimVerdict::Fail => (1, Seq::empty()),
        ClaimVerdict::Inconclusive { reason } => (2, reason@),
    }
}

/// What the evidence says of a claim: inconclusive without evidence, a pass
/// when some recorded action backs it, a failure otherwise.
pub open spec fn claim_verdict(c: AgentClaim, actions: Seq<SessionAction>) -> (int, Seq<char>) {
    if actions.len() == 0 {
        (2, "no evidence"@)
    } else if exists|i: int| 0 <= i < actions.len() && backs(#[trigger] actions[i], c) {
        (0, Seq::empty())
    } else {
        (1, Seq::empty())
    }
}

fn payload_names_exec(payload: &str, resource: &str) -> (b: bool)
    ensures
        b == payload_names(payload@, resource@),
{
    proof {
        reveal_strlit("resource");
        reveal_strlit("path");
        reveal_strlit("url");
        reveal_strlit("command");
    }
    let keys: [&str; 4] = ["resource", "path", "url", "command"];
    let mut k: usize = 0;
    while k < 4
        invariant
            k <= 4,
            keys@.len() == 4,
            forall|j: int| 0 <= j < 4 ==> (#[trigger] keys@[j])@ == resource_keys()[j],
            forall|j: int|
                0 <= j < k ==> #[trigger] json_string_entry(payload@, resource_keys()[j]) != Some(
                    resource@,
                ),
        decreases 4 - k,
    {
        let key = keys[k];
        match json_string_field(payload, key) {
            Some(v) => {
                if str_eq(v.as_str(), resource) {
                    assert(json_string_entry(payload@, resource_keys()[k as int]) == Some(resource@));
                    return true;
                }
            },
            None => {},
        }
        k = k + 1;
    }
    false
}

/// Whether a recorded action backs a claim.
pub fn action_backs(action: &SessionAction, claim: &AgentClaim) -> (b: bool)
    ensures
        b == backs(*action, *claim),
{
    str_eq(action.action_type.as_str(), claim.action_type.as_str()) && payload_names_exec(
        action.payload.as_str(),
        claim.resource.as_str(),
    )
}

/// The payload entries that name the resource of an action of kind
/// `action_type`, in the order they are tried.
pub open spec fn claim_keys(action_type: Seq<char>) -> (Seq<char>, Seq<char>) {
    if action_type == "api_call"@ {
        ("url"@, "resource"@)
    } else if action_type == "command_exec"@ {
        ("command"@, "resource"@)
    } else {
        ("path"@, "resource"@)
    }
}

/// The resource an action of kind `action_type` names in its payload: the
/// first of its keys with a string entry, or the empty text.
pub open spec fn claimed_resource(action_type: Seq<char>, payload: Seq<char>) -> Seq<char> {
    let (k1, k2) = claim_keys(action_type);
    match json_string_entry(payload, k1) {
        Some(s) => s,
        None => match json_string_entry(payload, k2) {
            Some(s) => s,
            None => Seq::empty(),
        },
    }
}

/// The resource a recorded action names, by the keys of its kind.
pub fn extract_resource(action_type: &str, payload: &str) -> (r: String)
    ensures
        r@ == claimed_resource(action_type@, payload@),
{
    proof {
        reveal_strlit("api_call");
        reveal_strlit("command_exec");
    }
    let (k1, k2) = if str_eq(action_type, "api_call") {
        ("url", "resource")
    } else if str_eq(action_type, "command_exec") {
        ("command", "resource")
    } else {
        ("path", "resource")
    };
    match json_string_field(payload, k1) {
        Some(s) => s,
        None => match json_string_field(payload, k2) {
            Some(s) => s,
            None => String::new(),
        },
    }
}

/// The claims a session makes: one per recorded action, given as
/// `(action_type, timestamp, payload)` in step order.
pub fn claims_from_actions(rows: Vec<(String, String, String)>) -> (r: Vec<AgentClaim>)
    ensures
        r@.len() == rows@.len(),
        forall|i: int|
            0 <= i < r@.len() ==> (#[trigger] r@[i]).action_type@ == rows@[i].0@ && r@[i].claimed_at@
                == rows@[i].1@ && r@[i].resource@ == claimed_resource(rows@[i].0@, rows@[i].2@),
{
    let mut out: Vec<AgentClaim> = Vec::new();
    let n = rows.len();
    let mut i: usize = 0;
    while i < n
        invariant
            n == rows@.len(),
            i <= n,
            out@.len() == i,
            forall|j: int|
                0 <= j < i ==> (#[trigger] out@[j]).action_type@ == rows@[j].0@ && out@[j].claimed_at@
                    == rows@[j].1@ && out@[j].resource@ == claimed_resource(rows@[j].0@, rows@[j].2@),
        decreases n - i,
    {
        let row = &rows[i];
        let resource = extract_resource(row.0.as_str(), row.2.as_str());
        out.push(
            AgentClaim {
                action_type: to_string(row.0.as_str()),
                resource,
                claimed_at: to_string(row.1.as_str()),
            },
        );
        i = i + 1;
    }
    out
}

/// Holds the session database; the program loads evidence from it and
/// stores reports in it.
pub struct VerificationEngine {
    pub db: rusqlite::Connection,
}

#[verifier::external_type_specification]
#[verifier::external_body]
pub struct ExConnection(rusqlite::Connection);

impl VerificationEngine {
    /// An engine over the session database `db`.
    pub fn new(db: rusqlite::Connection) -> (r: Self)
        ensures
            r.db == db,
    {
        VerificationEngine { db }
    }

    /// Judges one claim against a session's recorded actions.
    pub fn verify_claim(&self, claim: &AgentClaim, evidence: &SessionEvidence) -> (v: ClaimVerdict)
        ensures
            verdict_view(v) == claim_verdict(*claim, evidence.actions@),
    {
        judge_claim(claim, &evidence.actions)
    }

    /// The report on `claims` against the session's recorded `actions`: each
    /// claim's verdict, a discrepancy line for each failed claim, and the
    /// overall status.
    pub fn assess_session(&self, session_id: &str, claims: Vec<AgentClaim>, actions: &Vec<SessionAction>) -> (r:
        VerificationReport)
        ensures
            r.session_id@ == session_id@,
            r.claims@.len() == claims@.len(),
            forall|i: int|
                0 <= i < claims@.len() ==> result_is(#[trigger] r.claims@[i], claims@[i], actions@),
            r.overall_status == status_of(verdict_views(r.claims@)),
            r.truth_score is None,
            r.claimcheck_raw is None,
    {
        let ghost cs = claims@;
        let n = claims.len();
        let mut rest = claims;
        let mut results: Vec<ClaimResult> = Vec::new();
        let mut k: usize = 0;
        while rest.len() > 0
            invariant
                k <= cs.len(),
                cs.len() == n,
                k + rest@.len() == cs.len(),
                rest@ == cs.skip(k as int),
                results@.len() == k,
                forall|i: int| 0 <= i < k ==> result_is(#[trigger] results@[i], cs[i], actions@),
            decreases rest.len(),
        {
            let claim = rest.remove(0);
            proof {
                assert(cs.skip(k as int)[0] == claim);
                assert(rest@ =~= cs.skip(k + 1));
            }
            let verdict = judge_claim(&claim, actions);
            let mut discrepancies: Vec<String> = Vec::new();
            match verdict {
                ClaimVerdict::Fail => {
                    discrepancies.push(discrepancy_line(&claim));
                },
                _ => {},
            }
            proof {
                if verdict is Fail {
                    assert(texts_of(discrepancies@) =~= seq![discrepancy_text(claim)]);
                } else {
                    assert(texts_of(discrepancies@) =~= Seq::<Seq<char>>::empty());
                }
            }
            results.push(ClaimResult { claim, verdict, discrepancies });
            assert(result_is(results@[k as int], cs[k as int], actions@));
            k = k + 1;
        }
        let overall_status = derive_status(&results);
        VerificationReport {
            session_id: to_string(session_id),
            overall_status,
            claims: results,
            truth_score: None,
            claimcheck_raw: None,
        }
    }
}

fn judge_claim(claim: &AgentClaim, actions: &Vec<SessionAction>) -> (v: ClaimVerdict)
    ensures
        verdict_view(v) == claim_verdict(*claim, actions@),
{
    if actions.len() == 0 {
        return ClaimVerdict::Inconclusive { reason: to_string("no evidence") };
    }
    let mut i: usize = 0;
    while i < actions.len()
        invariant
            i <= actions@.len(),
            forall|j: int| 0 <= j < i ==> !backs(#[trigger] actions@[j], *claim),
        decreases actions.len() - i,
    {
        if action_backs(&actions[i], claim) {
            assert(backs(actions@[i as int], *claim));
            return ClaimVerdict::Pass;
        }
        i = i + 1;
    }
    ClaimVerdict::Fail
}

/// The discrepancy recorded for a failed claim.
pub open spec fn discrepancy_text(c: AgentClaim) -> Seq<char> {
    "no recorded "@ + c.action_type@ + " action for resource '"@ + c.resource@ + "'"@
}

fn discrepancy_line(claim: &AgentClaim) -> (s: String)
    ensures
        s@ == discrepancy_text(*claim),
{
    let mut s = String::new();
    push_str(&mut s, "no recorded ");
    push_string(&mut s, &claim.action_type);
    push_str(&mut s, " action for resource '");
    push_string(&mut s, &claim.resource);
    push_str(&mut s, "'");
    s
}

pub open spec fn texts_of(v: Seq<String>) -> Seq<Seq<char>> {
    v.map_values(|s: String| s@)
}

/// A claim's result: the claim itself, the verdict the evidence gives, and
/// one discrepancy line exactly when the claim failed.
pub open spec fn result_is(r: ClaimResult, c: AgentClaim, actions: Seq<SessionAction>) -> bool {
    &&& r.claim == c
    &&& verdict_view(r.verdict) == claim_verdict(c, actions)
    &&& texts_of(r.discrepancies@) == if r.verdict is Fail {
        seq![discrepancy_text(c)]
    } else {
        Seq::empty()
    }
}

pub open spec fn verdict_views(rs: Seq<ClaimResult>) -> Seq<(int, Seq<char>)> {
    rs.map_values(|r: ClaimResult| verdict_view(r.verdict))
}

/// The overall status of a list of verdicts: inconclusive when there are
/// none, unverified when any failed, verified when all passed, inconclusive
/// otherwise.
pub open spec fn status_of(vs: Seq<(int, Seq<char>)>) -> VerificationStatus {
    if vs.len() == 0 {
        VerificationStatus::Inconclusive
    } else if exists|i: int| 0 <= i < vs.len() && (#[trigger] vs[i]).0 == 1 {
        VerificationStatus::Unverified
    } else if forall|i: int| 0 <= i < vs.len() ==> (#[trigger] vs[i]).0 == 0 {
        VerificationStatus::Verified
    } else {
        VerificationStatus::Inconclusive
    }
}

/// The overall status of a session's claim results.
pub fn derive_status(results: &Vec<ClaimResult>) -> (s: VerificationStatus)
    ensures
        s == status_of(verdict_views(results@)),
{
    let ghost vs = verdict_views(results@);
    if results.len() == 0 {
        return VerificationStatus::Inconclusive;
    }
    let mut i: usize = 0;
    let mut all_pass = true;
    while i < results.len()
        invariant
            i <= results@.len(),
            vs == verdict_views(results@),
            forall|j: int| 0 <= j < i ==> (#[trigger] vs[j]).0 != 1,
            all_pass == (forall|j: int| 0 <= j < i ==> (#[trigger] vs[j]).0 == 0),
        decreases results.len() - i,
    {
        assert(vs[i as int] == verdict_view(results@[i as int].verdict));
        match &results[i].verdict {
            ClaimVerdict::Fail => {
                return VerificationStatus::Unverified;
            },
            ClaimVerdict::Pass => {},
            ClaimVerdict::Inconclusive { .. } => {
                all_pass = false;
            },
        }
        i = i + 1;
    }
    if all_pass {
        VerificationStatus::Verified
    } else {
        VerificationStatus::Inconclusive
    }
}

/// A session with no recorded actions stays inconclusive, whatever its
/// agent claims.
pub proof fn no_evidence_is_inconclusive(claims: Seq<AgentClaim>, rs: Seq<ClaimResult>)
    requires
        rs.len() == claims.len(),
        forall|i: int| 0 <= i < claims.len() ==> result_is(#[trigger] rs[i], claims[i], Seq::empty()),
    ensures
        status_of(verdict_views(rs)) == VerificationStatus::Inconclusive,
{
    let vs = verdict_views(rs);
    assert forall|i: int| 0 <= i < vs.len() implies (#[trigger] vs[i]).0 == 2 by {
        assert(result_is(rs[i], claims[i], Seq::empty()));
    }
    if vs.len() > 0 {
        assert(vs[0].0 == 2);
    }
}

/// One failed claim makes a session unverified; a session whose claims all
/// passed, and that has some, is verified.
pub proof fn status_follows_verdicts(vs: Seq<(int, Seq<char>)>)
    ensures
        (exists|i: int| 0 <= i < vs.len() && (#[trigger] vs[i]).0 == 1) ==> status_of(vs)
            == VerificationStatus::Unverified,
        vs.len() > 0 && (forall|i: int| 0 <= i < vs.len() ==> (#[trigger] vs[i]).0 == 0) ==> status_of(
            vs,
        ) == VerificationStatus::Verified,
        status_of(vs) == VerificationStatus::Verified ==> vs.len() > 0,
{
}

// ── A report from ClaimCheck's findings ─────────────────────────────────────

/// The verdict ClaimCheck's result word stands for: `PASS`, `FAIL`, or
/// inconclusive for anything else, with ClaimCheck's reason (or
/// `unverifiable`).
pub open spec fn claimcheck_verdict(c: ClaimCheckClaim) -> (int, Seq<char>) {
    if c.result@ == "PASS"@ {
        (0, Seq::empty())
    } else if c.result@ == "FAIL"@ {
        (1, Seq::empty())
    } else {
        (
            2,
            match c.reason {
                Some(r) => r@,
                None => "unverifiable"@,
            },
        )
    }
}

/// A ClaimCheck claim carried over: its type and text become the claim,
/// with no claim time; its reason, if any, is the one discrepancy.
pub open spec fn carried_over(r: ClaimResult, c: ClaimCheckClaim) -> bool {
    &&& r.claim.action_type@ == c.claim_type@
    &&& r.claim.resource@ == c.raw_text@
    &&& r.claim.claimed_at@ == Seq::<char>::empty()
    &&& verdict_view(r.verdict) == claimcheck_verdict(c)
    &&& texts_of(r.discrepancies@) == match c.reason {
        Some(m) => seq![m@],
        None => Seq::empty(),
    }
}

/// The overall status ClaimCheck's counts give: unverified when any claim
/// failed, verified when some passed, inconclusive otherwise.
pub open spec fn summary_status(s: ClaimCheckSummary) -> VerificationStatus {
    if s.fail > 0 {
        VerificationStatus::Unverified
    } else if s.pass > 0 {
        VerificationStatus::Verified
    } else {
        VerificationStatus::Inconclusive
    }
}

fn copy_text(s: &String) -> (r: String)
    ensures
        r@ == s@,
{
    to_string(s.as_str())
}

fn carry_over(c: &ClaimCheckClaim) -> (r: ClaimResult)
    ensures
        carried_over(r, *c),
{
    proof {
        reveal_strlit("PASS");
        reveal_strlit("FAIL");
        assert("PASS"@[0] != "FAIL"@[0]);
    }
    let verdict = if str_eq(c.result.as_str(), "PASS") {
        ClaimVerdict::Pass
    } else if str_eq(c.result.as_str(), "FAIL") {
        ClaimVerdict::Fail
    } else {
        let reason = match &c.reason {
            Some(r) => copy_text(r),
            None => to_string("unverifiable"),
        };
        ClaimVerdict::Inconclusive { reason }
    };
    let mut discrepancies: Vec<String> = Vec::new();
    match &c.reason {
        Some(r) => {
            discrepancies.push(copy_text(r));
            assert(texts_of(discrepancies@) =~= seq![r@]);
        },
        None => {
            assert(texts_of(discrepancies@) =~= Seq::<Seq<char>>::empty());
        },
    }
    let claim = AgentClaim {
        action_type: copy_text(&c.claim_type),
        resource: copy_text(&c.raw_text),
        claimed_at: String::new(),
    };
    ClaimResult { claim, verdict, discrepancies }
}

/// The report for a session that ClaimCheck checked: each of its claims
/// carried over in order, the status its counts give, its truth score and
/// its own report.
pub fn report_from_claimcheck(session_id: &str, cc: ClaimCheckReport) -> (r: VerificationReport)
    ensures
        r.session_id@ == session_id@,
        r.claims@.len() == cc.claims@.len(),
        forall|i: int| 0 <= i < cc.claims@.len() ==> carried_over(#[trigger] r.claims@[i], cc.claims@[i]),
        r.overall_status == summary_status(cc.summary),
        r.truth_score matches Some(t) && t@ == cc.truth_score@,
        r.claimcheck_raw == Some(cc),
{
    let mut claims: Vec<ClaimResult> = Vec::new();
    let mut i: usize = 0;
    while i < cc.claims.len()
        invariant
            i <= cc.claims@.len(),
            claims@.len() == i,
            forall|j: int| 0 <= j < i ==> carried_over(#[trigger] claims@[j], cc.claims@[j]),
        decreases cc.claims.len() - i,
    {
        claims.push(carry_over(&cc.claims[i]));
        i = i + 1;
    }
    let overall_status = if cc.summary.fail > 0 {
        VerificationStatus::Unverified
    } else if cc.summary.pass > 0 {
        VerificationStatus::Verified
    } else {
        VerificationStatus::Inconclusive
    };
    let truth_score = Some(copy_text(&cc.truth_score));
    VerificationReport {
        session_id: to_string(session_id),
        overall_status,
        claims,
        truth_score,
        claimcheck_raw: Some(cc),
    }
}

} // verus!
