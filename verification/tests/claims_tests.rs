use openhawk::claim_check::{claims_from_actions, extract_resource};
use openhawk::claim_check::{
    derive_status, report_from_claimcheck, AgentClaim, ClaimCheckClaim, ClaimCheckReport, ClaimCheckSummary,
    ClaimVerdict, SessionAction, SessionEvidence, VerificationEngine, VerificationStatus, VerifyError,
};

fn engine() -> VerificationEngine {
    VerificationEngine::new(rusqlite::Connection::open_in_memory().unwrap())
}

fn claim(action_type: &str, resource: &str) -> AgentClaim {
    AgentClaim { action_type: action_type.into(), resource: resource.into(), claimed_at: "2024-01-01T00:00:00Z".into() }
}

fn action(step: i64, action_type: &str, payload: &str) -> SessionAction {
    SessionAction {
        step_number: step,
        timestamp: "2024-01-01T00:00:00Z".into(),
        action_type: action_type.into(),
        agent_pid: 42,
        payload: payload.into(),
    }
}

fn evidence(actions: Vec<SessionAction>) -> SessionEvidence {
    SessionEvidence { session_id: "s1".into(), actions }
}

#[test]
fn inconclusive_when_no_evidence() {
    let engine = engine();
    assert_eq!(
        engine.verify_claim(&claim("file_write", "/tmp/out.txt"), &evidence(vec![])),
        ClaimVerdict::Inconclusive { reason: "no evidence".into() }
    );
}

#[test]
fn pass_when_matching_action_exists() {
    let engine = engine();
    let ev = evidence(vec![action(1, "file_write", r#"{"path":"/tmp/out.txt"}"#)]);
    assert_eq!(engine.verify_claim(&claim("file_write", "/tmp/out.txt"), &ev), ClaimVerdict::Pass);
}

#[test]
fn fail_when_no_matching_action() {
    let engine = engine();
    let ev = evidence(vec![action(1, "file_write", r#"{"path":"/tmp/out.txt"}"#)]);
    assert_eq!(engine.verify_claim(&claim("api_call", "https://api.openai.com/v1/chat"), &ev), ClaimVerdict::Fail);
}

#[test]
fn api_call_matched_via_url_field() {
    let engine = engine();
    let ev = evidence(vec![action(1, "api_call", r#"{"url":"https://api.openai.com/v1/chat"}"#)]);
    assert_eq!(engine.verify_claim(&claim("api_call", "https://api.openai.com/v1/chat"), &ev), ClaimVerdict::Pass);
}

#[test]
fn command_exec_matched_via_command_field() {
    let engine = engine();
    let ev = evidence(vec![action(1, "command_exec", r#"{"command":"python3"}"#)]);
    assert_eq!(engine.verify_claim(&claim("command_exec", "python3"), &ev), ClaimVerdict::Pass);
}

#[test]
fn payload_that_is_not_json_backs_nothing() {
    let engine = engine();
    let ev = evidence(vec![action(1, "file_write", "/tmp/out.txt"), action(2, "file_write", r#"{"path":7}"#)]);
    assert_eq!(engine.verify_claim(&claim("file_write", "/tmp/out.txt"), &ev), ClaimVerdict::Fail);
    let ev = evidence(vec![action(1, "file_write", r#"{"resource":"/tmp/out.txt"}"#)]);
    assert_eq!(engine.verify_claim(&claim("file_write", "/tmp/out.txt"), &ev), ClaimVerdict::Pass);
}

#[test]
fn verify_session_all_pass_returns_verified() {
    let engine = engine();
    let actions = vec![action(1, "file_write", r#"{"path":"/tmp/result.txt"}"#)];
    let report = engine.assess_session("sess-pass", vec![claim("file_write", "/tmp/result.txt")], &actions);
    assert_eq!(report.overall_status, VerificationStatus::Verified);
    assert_eq!(report.claims[0].verdict, ClaimVerdict::Pass);
    assert!(report.truth_score.is_none());
}

#[test]
fn verify_session_any_fail_returns_unverified() {
    let engine = engine();
    let actions = vec![action(1, "file_write", r#"{"path":"/tmp/result.txt"}"#)];
    let claims = vec![claim("file_write", "/tmp/result.txt"), claim("api_call", "https://api.openai.com/v1/chat")];
    let report = engine.assess_session("sess-fail", claims, &actions);
    assert_eq!(report.overall_status, VerificationStatus::Unverified);
}

#[test]
fn verify_session_no_actions_returns_inconclusive() {
    let engine = engine();
    let report = engine.assess_session("sess-inc", vec![claim("file_write", "/tmp/out.txt")], &vec![]);
    assert_eq!(report.overall_status, VerificationStatus::Inconclusive);
}

#[test]
fn verify_session_empty_claims_returns_inconclusive() {
    let engine = engine();
    let report = engine.assess_session("sess-empty", vec![], &vec![]);
    assert_eq!(report.overall_status, VerificationStatus::Inconclusive);
    assert_eq!(report.session_id, "sess-empty");
}

#[test]
fn discrepancies_populated_on_fail() {
    let engine = engine();
    let actions = vec![action(1, "file_write", r#"{"path":"/tmp/other.txt"}"#)];
    let report = engine.assess_session("sess-disc", vec![claim("file_write", "/tmp/missing.txt")], &actions);
    assert_eq!(report.claims[0].verdict, ClaimVerdict::Fail);
    assert_eq!(report.claims[0].discrepancies, vec!["no recorded file_write action for resource '/tmp/missing.txt'".to_string()]);
}

#[test]
fn status_of_results() {
    assert_eq!(derive_status(&vec![]), VerificationStatus::Inconclusive);
    assert_eq!(VerificationStatus::Unverified.label(), "Unverified");
}

fn cc_claim(kind: &str, text: &str, result: &str, reason: Option<&str>) -> ClaimCheckClaim {
    ClaimCheckClaim { claim_type: kind.into(), raw_text: text.into(), result: result.into(), reason: reason.map(|r| r.into()) }
}

#[test]
fn claimcheck_report_maps_verdicts_and_status() {
    let cc = ClaimCheckReport {
        truth_score: "67%".into(),
        summary: ClaimCheckSummary { total: 3, pass: 1, fail: 1, unverifiable: 1 },
        claims: vec![
            cc_claim("File", "created src/auth.ts", "PASS", None),
            cc_claim("Package", "installed jsonwebtoken", "FAIL", Some("package not found in any lockfile")),
            cc_claim("Test", "all tests pass", "UNVERIFIABLE", None),
        ],
    };
    let r = report_from_claimcheck("s9", cc);
    assert_eq!(r.overall_status, VerificationStatus::Unverified);
    assert_eq!(r.truth_score.as_deref(), Some("67%"));
    assert_eq!(r.claims[0].verdict, ClaimVerdict::Pass);
    assert_eq!(r.claims[1].verdict, ClaimVerdict::Fail);
    assert_eq!(r.claims[1].discrepancies, vec!["package not found in any lockfile".to_string()]);
    assert_eq!(r.claims[2].verdict, ClaimVerdict::Inconclusive { reason: "unverifiable".into() });
    assert_eq!(r.claims[0].claim.action_type, "File");
    assert_eq!(r.claims[0].claim.resource, "created src/auth.ts");
    assert!(r.claimcheck_raw.is_some());
}

#[test]
fn claimcheck_counts_decide_status() {
    let mk = |pass, fail| ClaimCheckReport {
        truth_score: "N/A".into(),
        summary: ClaimCheckSummary { total: pass + fail, pass, fail, unverifiable: 0 },
        claims: vec![],
    };
    assert_eq!(report_from_claimcheck("a", mk(2, 0)).overall_status, VerificationStatus::Verified);
    assert_eq!(report_from_claimcheck("a", mk(0, 0)).overall_status, VerificationStatus::Inconclusive);
}

#[test]
fn verify_error_messages() {
    assert_eq!(VerifyError::ClaimCheck("boom".into()).message(), "claimcheck error: boom");
    assert_eq!(VerifyError::Database("x".into()).message(), "database error: x");
}

#[test]
fn resource_is_taken_by_the_keys_of_the_action_kind() {
    assert_eq!(extract_resource("api_call", r#"{"url":"https://x","path":"/p"}"#), "https://x");
    assert_eq!(extract_resource("command_exec", r#"{"resource":"ls -l"}"#), "ls -l");
    assert_eq!(extract_resource("file_write", r#"{"url":"u","path":"/tmp/a"}"#), "/tmp/a");
    assert_eq!(extract_resource("file_write", r#"{"path":7,"resource":"r"}"#), "r");
    assert_eq!(extract_resource("file_write", "not json"), "");
    assert_eq!(extract_resource("api_call", r#"{"path":"/p"}"#), "");
}

#[test]
fn every_recorded_action_becomes_a_claim() {
    let rows = vec![
        ("file_write".to_string(), "t1".to_string(), r#"{"path":"/a"}"#.to_string()),
        ("api_call".to_string(), "t2".to_string(), r#"{"url":"http://b"}"#.to_string()),
    ];
    let claims = claims_from_actions(rows);
    assert_eq!(claims.len(), 2);
    assert_eq!(claims[0].action_type, "file_write");
    assert_eq!(claims[0].resource, "/a");
    assert_eq!(claims[0].claimed_at, "t1");
    assert_eq!(claims[1].resource, "http://b");
    assert_eq!(claims[1].claimed_at, "t2");
}
