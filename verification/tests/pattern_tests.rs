use openhawk::patterns::{find_patterns, generate_manifest, PatternError, PatternRecord};

fn log_of(actions: &[&str], times: usize) -> Vec<String> {
    let mut v = Vec::new();
    for _ in 0..times {
        for a in actions {
            v.push(a.to_string());
        }
    }
    v
}

#[test]
fn record_action_stores_sequence_in_order() {
    let log = log_of(&["open file", "edit file", "save file"], 5);
    let patterns = find_patterns(&log);
    assert!(
        patterns.iter().any(|(seq, _)| seq == &vec!["open file", "edit file", "save file"]),
        "expected the 3-action sequence to be detected"
    );
}

#[test]
fn detect_patterns_requires_min_3_actions() {
    let log = log_of(&["a", "b"], 10);
    let patterns = find_patterns(&log);
    assert!(patterns.iter().all(|(seq, _)| seq.len() >= 3));
}

#[test]
fn detect_patterns_requires_min_5_occurrences() {
    let log = log_of(&["x", "y", "z"], 4);
    assert!(find_patterns(&log).is_empty(), "4 occurrences should not trigger detection");
}

#[test]
fn detect_patterns_triggers_at_exactly_5_occurrences() {
    let log = log_of(&["hawk run agent", "hawk verify session", "hawk undo"], 5);
    let patterns = find_patterns(&log);
    assert!(patterns.iter().any(|(_, c)| *c >= 5));
    let abc = patterns.iter().find(|(s, _)| s == &vec!["hawk run agent", "hawk verify session", "hawk undo"]).unwrap();
    assert_eq!(abc.1, 5);
}

#[test]
fn patterns_are_listed_once_shortest_first() {
    let log = log_of(&["a", "b", "c"], 6);
    let patterns = find_patterns(&log);
    for i in 0..patterns.len() {
        for j in i + 1..patterns.len() {
            assert_ne!(patterns[i].0, patterns[j].0);
            assert!(patterns[i].0.len() <= patterns[j].0.len());
        }
    }
    // every rotation of a,b,c occurs at least five times
    assert!(patterns.iter().any(|(s, c)| s == &vec!["b", "c", "a"] && *c == 5));
    assert!(patterns.iter().any(|(s, c)| s == &vec!["a", "b", "c"] && *c == 6));
}

#[test]
fn accept_pattern_returns_valid_toml_manifest() {
    let record = PatternRecord {
        id: "0123456789abcdef".to_string(),
        action_sequence: vec!["open browser".into(), "navigate to url".into(), "extract data".into()],
        occurrence_count: 5,
        last_occurrence: "2024-01-01T00:00:00Z".to_string(),
        status: "Detected".to_string(),
    };
    let manifest = generate_manifest(&record);
    assert!(manifest.contains("[agent]"));
    assert!(manifest.contains("name = \"pattern-01234567\""));
    assert!(manifest.contains("[permissions]"));
    assert!(manifest.contains("[pattern]"));
    assert!(manifest.contains("sequence = [\"open browser\",\"navigate to url\",\"extract data\"]"));
    assert!(manifest.contains("  # step 1: open browser\n  # step 2: navigate to url\n  # step 3: extract data\n"));
    assert!(manifest.contains("entry_command = \"hawk pattern-run 0123456789abcdef\""));
}

#[test]
fn pattern_error_messages() {
    assert_eq!(PatternError::NotFound("p1".into()).message(), "pattern not found: p1");
}
