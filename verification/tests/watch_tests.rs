use openhawk::watch::{
    build_report, format_report, partition_alerts, select_dep_findings, select_etch_drifts, DepFinding, EtchDiff,
    EtchResult, FieldChange, WatchAlert,
};

fn change(field: &str, kind: &str) -> FieldChange {
    FieldChange { field: field.into(), change_type: kind.into() }
}

fn drift(endpoint: &str, changes: Vec<FieldChange>) -> WatchAlert {
    WatchAlert::ApiDrift { endpoint: endpoint.into(), field_changes: changes, timestamp: "2024-05-01T10:00:00+00:00".into() }
}

fn phantom(agent: &str, dep: &str) -> WatchAlert {
    WatchAlert::PhantomDependency { agent_name: agent.into(), dependency: dep.into(), timestamp: "2024-05-01T10:00:01+00:00".into() }
}

#[test]
fn emit_api_drift_stores_correct_alert_structure() {
    let a = drift("https://api.example.com/v1/users", vec![change("email", "removed")]);
    assert_eq!(a.alert_type(), "api_drift");
    assert_eq!(a.agent_name(), None);
    let p = phantom("coder", "left-pad");
    assert_eq!(p.alert_type(), "phantom_dep");
    assert_eq!(p.agent_name(), Some("coder"));
    assert_eq!(p.timestamp(), "2024-05-01T10:00:01+00:00");
}

#[test]
fn generate_report_aggregates_api_drifts_and_phantom_deps() {
    let alerts = vec![
        drift("https://api.example.com/v1", vec![change("id", "modified")]),
        phantom("agent-b", "stale-dep"),
        drift("https://api.example.com/v2", vec![]),
    ];
    let report = build_report(alerts, "2024-05-01T10:00:02+00:00".to_string());
    assert_eq!(report.api_drifts.len(), 2);
    assert_eq!(report.phantom_deps.len(), 1);
    assert!(!report.generated_at.is_empty());
}

#[test]
fn generate_report_empty_when_no_alerts() {
    let report = build_report(vec![], "now".to_string());
    assert!(report.api_drifts.is_empty());
    assert!(report.phantom_deps.is_empty());
}

#[test]
fn partition_keeps_order() {
    let (d, p) = partition_alerts(vec![phantom("a", "x"), drift("e1", vec![]), phantom("b", "y"), drift("e2", vec![])]);
    assert_eq!(d, vec![drift("e1", vec![]), drift("e2", vec![])]);
    assert_eq!(p, vec![phantom("a", "x"), phantom("b", "y")]);
}

#[test]
fn format_report_includes_endpoint_and_dep_info() {
    let report = build_report(
        vec![drift("https://api.example.com/users", vec![change("email", "removed")]), phantom("coder-agent", "unused-lib")],
        "T".to_string(),
    );
    let output = format_report(&report, true, true);
    assert!(output.contains("https://api.example.com/users"));
    assert!(output.contains("removed email"));
    assert!(output.contains("coder-agent"));
    assert!(output.contains("unused-lib"));
}

#[test]
fn format_report_shows_none_when_empty() {
    let report = build_report(vec![], "T".to_string());
    let output = format_report(&report, true, true);
    assert!(output.contains("(none)"));
}

#[test]
fn format_report_exact_text() {
    let report = build_report(vec![drift("E", vec![change("f", "added")]), phantom("ag", "dep")], "G".to_string());
    let expected = format!(
        "Watch Report — generated at G\n{}\n\nAPI Drifts (1)\n  [2024-05-01T10:00:00+00:00] E\n    added f\n\nPhantom Dependencies (1)\n  [2024-05-01T10:00:01+00:00] agent=ag dep=dep\n",
        "=".repeat(60)
    );
    assert_eq!(format_report(&report, false, false), expected);
}

#[test]
fn format_report_tips_only_when_scanner_missing() {
    let report = build_report(vec![], "G".to_string());
    let with_tools = format_report(&report, true, true);
    assert!(!with_tools.contains("tip:"));
    let without = format_report(&report, false, false);
    assert!(without.contains("tip: install etch to enable real API drift detection"));
    assert!(without.contains("tip: install ghostdep to enable real dependency scanning"));
    assert!(without.contains("API Drifts (0)"));
    assert!(without.contains("Phantom Dependencies (0)"));
}

#[test]
fn field_change_types_are_preserved() {
    let results = vec![EtchResult {
        endpoint: "https://api.example.com/test".into(),
        diffs: vec![
            EtchDiff { field: "a".into(), severity: Some("added".into()) },
            EtchDiff { field: "b".into(), severity: Some("removed".into()) },
            EtchDiff { field: "c".into(), severity: None },
        ],
    }];
    let drifts = select_etch_drifts(&results);
    let field_changes = &drifts[0].1;
    assert_eq!(field_changes[0].change_type, "added");
    assert_eq!(field_changes[1].change_type, "removed");
    assert_eq!(field_changes[2].change_type, "modified");
}

#[test]
fn etch_results_without_diffs_are_dropped() {
    let results = vec![
        EtchResult { endpoint: "GET /a".into(), diffs: vec![] },
        EtchResult { endpoint: "GET /b".into(), diffs: vec![EtchDiff { field: "x".into(), severity: None }] },
    ];
    let drifts = select_etch_drifts(&results);
    assert_eq!(drifts, vec![("GET /b".to_string(), vec![change("x", "modified")])]);
}

#[test]
fn ghostdep_keeps_high_confidence_phantom_and_unused() {
    let f = |t: &str, n: &str, c: Option<&str>| DepFinding { finding_type: t.into(), name: n.into(), confidence: c.map(|s| s.into()) };
    let findings = vec![
        f("phantom", "axios", Some("high")),
        f("unused", "lodash", None),
        f("unused", "chalk", Some("low")),
        f("outdated", "react", Some("high")),
    ];
    assert_eq!(select_dep_findings(&findings), vec!["[phantom] axios".to_string(), "[unused] lodash".to_string()]);
}
