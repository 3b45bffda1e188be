use openhawk::base64::base64_encode;
use openhawk::memory::InMemoryStore;
use openhawk::memory_api::{parse_scope, parse_u32, A2aMemoryCard, McpMemoryProvider, MemoryParams, MemoryReply};
use openhawk::memory::MemoryScope;

fn params(scope: Option<&str>, key: Option<&str>, value: Option<&str>, agent: Option<u64>) -> MemoryParams {
    MemoryParams {
        scope: scope.map(|s| s.to_string()),
        key: key.map(|s| s.to_string()),
        value: value.map(|s| s.to_string()),
        source_agent: agent,
    }
}

#[test]
fn mcp_store_and_query_round_trip() {
    let mut mcp = McpMemoryProvider::new(InMemoryStore::new());
    let encoded = base64_encode(b"mcp_value");
    let store_result = mcp.handle_tool_call("memory_store", params(Some("global"), Some("mcp_key"), Some(&encoded), Some(1)));
    assert_eq!(store_result, MemoryReply::Stored);
    match mcp.handle_tool_call("memory_query", params(None, Some("mcp_key"), None, None)) {
        MemoryReply::Found { key, value, scope, source_agent, .. } => {
            assert_eq!(key, "mcp_key");
            assert_eq!(value, encoded);
            assert_eq!(scope, "global");
            assert_eq!(source_agent, 1);
        }
        other => panic!("unexpected {other:?}"),
    }
}

#[test]
fn mcp_query_missing_key_returns_not_found() {
    let mut mcp = McpMemoryProvider::new(InMemoryStore::new());
    assert_eq!(mcp.handle_tool_call("memory_query", params(None, Some("ghost"), None, None)), MemoryReply::NotFound);
}

#[test]
fn mcp_unknown_tool_returns_error() {
    let mut mcp = McpMemoryProvider::new(InMemoryStore::new());
    match mcp.handle_tool_call("unknown_tool", MemoryParams::default()) {
        MemoryReply::Error(m) => assert!(m.contains("unknown tool")),
        other => panic!("unexpected {other:?}"),
    }
}

#[test]
fn mcp_store_missing_key_field_returns_error() {
    let mut mcp = McpMemoryProvider::new(InMemoryStore::new());
    let r = mcp.handle_tool_call("memory_store", params(Some("global"), None, Some(&base64_encode(b"x")), None));
    assert_eq!(r, MemoryReply::Error("missing field: key".to_string()));
}

#[test]
fn a2a_store_and_query_round_trip() {
    let mut a2a = A2aMemoryCard::new(InMemoryStore::new());
    let encoded = base64_encode(b"a2a_value");
    let r = a2a.handle_request("store", params(Some("session:s1"), Some("a2a_key"), Some(&encoded), Some(2)));
    assert_eq!(r, MemoryReply::Stored);
    match a2a.handle_request("query", params(None, Some("a2a_key"), None, None)) {
        MemoryReply::Found { key, scope, .. } => {
            assert_eq!(key, "a2a_key");
            assert_eq!(scope, "session:s1");
        }
        other => panic!("unexpected {other:?}"),
    }
}

#[test]
fn a2a_query_missing_key_returns_not_found() {
    let mut a2a = A2aMemoryCard::new(InMemoryStore::new());
    assert_eq!(a2a.handle_request("query", params(None, Some("ghost"), None, None)), MemoryReply::NotFound);
}

#[test]
fn a2a_unknown_action_returns_error() {
    let mut a2a = A2aMemoryCard::new(InMemoryStore::new());
    match a2a.handle_request("delete", MemoryParams::default()) {
        MemoryReply::Error(m) => assert!(m.contains("unknown action")),
        other => panic!("unexpected {other:?}"),
    }
}

#[test]
fn a2a_agent_scope_store_and_query() {
    let mut a2a = A2aMemoryCard::new(InMemoryStore::new());
    let encoded = base64_encode(b"private");
    a2a.handle_request("store", params(Some("agent:42"), Some("priv"), Some(&encoded), Some(42)));
    match a2a.handle_request("query", params(None, Some("priv"), None, None)) {
        MemoryReply::Found { scope, .. } => assert_eq!(scope, "agent:42"),
        other => panic!("unexpected {other:?}"),
    }
}

#[test]
fn store_request_errors_in_order() {
    let mut a2a = A2aMemoryCard::new(InMemoryStore::new());
    assert_eq!(
        a2a.handle_request("store", params(Some("team:x"), None, None, None)),
        MemoryReply::Error("unknown scope: team:x".to_string())
    );
    assert_eq!(
        a2a.handle_request("store", params(Some("agent:abc"), Some("k"), Some("eA=="), None)),
        MemoryReply::Error("invalid agent pid: abc".to_string())
    );
    assert_eq!(
        a2a.handle_request("store", params(None, Some("k"), None, None)),
        MemoryReply::Error("missing field: value".to_string())
    );
    assert!(matches!(a2a.handle_request("store", params(None, Some("k"), Some("abc"), None)), MemoryReply::Error(_)));
    assert_eq!(
        a2a.handle_request("query", MemoryParams::default()),
        MemoryReply::Error("missing field: key".to_string())
    );
}

#[test]
fn scopes_and_pids_parse() {
    assert_eq!(parse_scope(None), Ok(MemoryScope::Global));
    assert_eq!(parse_scope(Some("session:abc")), Ok(MemoryScope::Session("abc".to_string())));
    assert_eq!(parse_scope(Some("agent:+7")), Ok(MemoryScope::Agent(7)));
    assert_eq!(parse_u32("4294967295"), Some(u32::MAX));
    assert_eq!(parse_u32("4294967296"), None);
    assert_eq!(parse_u32("12a"), None);
    assert_eq!(parse_u32("+"), None);
    assert_eq!(parse_u32(""), None);
    assert_eq!(parse_u32("-1"), None);
    assert_eq!(parse_u32("007"), Some(7));
}
