use openhawk::bus::{BusError, BusMessage};
use openhawk::memory::{MemoryError, MemoryScope};
use openhawk::sdk::{HawkClient, SdkError};

fn client() -> HawkClient {
    HawkClient::connect(1234).unwrap()
}

fn json(text: &str) -> serde_json::Value {
    serde_json::from_str(text).unwrap()
}

#[test]
fn connect_returns_client_with_correct_pid() {
    let c = HawkClient::connect(42).unwrap();
    assert_eq!(c.pid(), 42);
}

#[test]
fn publish_valid_message_delivers_to_subscriber() {
    let mut c = client();
    let channel = c.subscribe("test.topic").unwrap();
    let (msg, targets) = c
        .publish("test.topic", &json(r#"{"jsonrpc": "2.0", "method": "do.thing", "params": {}}"#))
        .unwrap();
    assert_eq!(targets, vec![channel]);
    assert_eq!(msg.method, "do.thing");
    assert_eq!(msg.jsonrpc, "2.0");
    assert_eq!(msg.params, json("{}"));
    assert_eq!(msg.id, None);
}

#[test]
fn publish_wrong_jsonrpc_version_returns_validation_error() {
    let c = client();
    let err = c.publish("t", &json(r#"{"jsonrpc": "1.0", "method": "x", "params": {}}"#)).unwrap_err();
    assert!(matches!(err, SdkError::Validation(_)));
    assert!(err.message().contains("jsonrpc"));
    assert_eq!(err.message(), r#"validation error: jsonrpc must be "2.0", got "1.0""#);
}

#[test]
fn publish_empty_method_returns_validation_error() {
    let c = client();
    let err = c.publish("t", &json(r#"{"jsonrpc": "2.0", "method": "", "params": {}}"#)).unwrap_err();
    assert!(matches!(err, SdkError::Validation(_)));
    assert!(err.message().contains("method"));
}

#[test]
fn publish_missing_jsonrpc_field_returns_validation_error() {
    let c = client();
    let err = c.publish("t", &json(r#"{"method": "x", "params": {}}"#)).unwrap_err();
    assert!(matches!(err, SdkError::Validation(_)));
    assert_eq!(err.message(), r#"validation error: jsonrpc must be "2.0", got """#);
}

#[test]
fn publish_missing_method_field_returns_validation_error() {
    let c = client();
    let err = c.publish("t", &json(r#"{"jsonrpc": "2.0", "params": {}}"#)).unwrap_err();
    assert!(matches!(err, SdkError::Validation(_)));
}

#[test]
fn publish_without_subscribers_goes_nowhere() {
    let c = client();
    let (msg, targets) = c.publish("quiet", &json(r#"{"jsonrpc": "2.0", "method": "m", "id": 7}"#)).unwrap();
    assert!(targets.is_empty());
    assert_eq!(msg.params, serde_json::Value::Null);
    assert_eq!(msg.id, Some(7));
}

#[test]
fn memory_set_and_get_global_scope_round_trip() {
    let mut c = client();
    c.memory_set(MemoryScope::Global, "answer", b"42").unwrap();
    assert_eq!(c.memory_get("answer").unwrap(), Some(b"42".to_vec()));
}

#[test]
fn memory_set_and_get_agent_scope_round_trip() {
    let mut c = client();
    c.memory_set(MemoryScope::Agent(1234), "priv", b"secret").unwrap();
    assert_eq!(c.memory_get("priv").unwrap(), Some(b"secret".to_vec()));
}

#[test]
fn memory_get_missing_key_returns_none() {
    let c = client();
    assert_eq!(c.memory_get("nonexistent").unwrap(), None);
}

#[test]
fn register_handler_and_dispatch_calls_handler() {
    let mut c = client();
    c.register_handler("ping").unwrap();
    let msg = BusMessage { jsonrpc: "2.0".into(), method: "ping".into(), params: json("{}"), id: None };
    assert_eq!(c.handler_for(&msg.method), Some(0));
}

#[test]
fn dispatch_unknown_method_does_not_panic() {
    let c = client();
    let msg = BusMessage { jsonrpc: "2.0".into(), method: "unknown".into(), params: json("{}"), id: None };
    assert_eq!(c.handler_for(&msg.method), None);
}

#[test]
fn register_duplicate_handler_returns_error() {
    let mut c = client();
    c.register_handler("method.x").unwrap();
    let err = c.register_handler("method.x").unwrap_err();
    assert!(matches!(err, SdkError::DuplicateHandler(_)));
    assert_eq!(err.message(), "handler already registered for method: method.x");
    c.register_handler("method.y").unwrap();
    assert_eq!(c.handler_for("method.y"), Some(1));
}

#[test]
fn sdk_error_messages_carry_the_inner_error() {
    assert_eq!(SdkError::Bus(BusError::NoSubscriber(5)).message(), "bus error: no subscriber for pid 5");
    assert_eq!(SdkError::Memory(MemoryError::LockPoisoned).message(), "memory error: lock poisoned");
}
