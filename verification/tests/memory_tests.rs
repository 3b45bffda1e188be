use openhawk::base64::{base64_decode, base64_encode};
use openhawk::memory::{AuraMemoryStore, InMemoryStore, MemoryScope, SharedMemory};

fn store() -> InMemoryStore {
    InMemoryStore::new()
}

#[test]
fn global_scope_store_and_query_round_trip() {
    let mut s = store();
    s.store(MemoryScope::Global, "answer", b"42", 1).unwrap();
    let entry = s.query("answer").unwrap().expect("entry should exist");
    assert_eq!(entry.value, b"42");
    assert_eq!(entry.scope, MemoryScope::Global);
    assert_eq!(entry.source_agent, 1);
}

#[test]
fn session_scope_store_and_query_round_trip() {
    let mut s = store();
    s.store(MemoryScope::Session("sess-1".into()), "ctx", b"hello", 2).unwrap();
    let entry = s.query("ctx").unwrap().expect("entry should exist");
    assert_eq!(entry.value, b"hello");
    assert!(matches!(entry.scope, MemoryScope::Session(ref id) if id == "sess-1"));
}

#[test]
fn agent_scope_store_and_query_round_trip() {
    let mut s = store();
    s.store(MemoryScope::Agent(99), "private", b"secret", 99).unwrap();
    let entry = s.query("private").unwrap().expect("entry should exist");
    assert_eq!(entry.value, b"secret");
    assert_eq!(entry.scope, MemoryScope::Agent(99));
}

#[test]
fn query_returns_none_for_missing_key() {
    let s = store();
    assert!(s.query("nonexistent").unwrap().is_none());
}

#[test]
fn global_scope_persists_after_session_archive() {
    let mut s = store();
    s.store(MemoryScope::Global, "persistent", b"yes", 1).unwrap();
    s.store(MemoryScope::Session("sess-a".into()), "temp", b"no", 1).unwrap();
    s.archive_session("sess-a").unwrap();
    let entry = s.query("persistent").unwrap().expect("global entry should survive archival");
    assert_eq!(entry.value, b"yes");
}

#[test]
fn session_scope_is_archived_on_session_end() {
    let mut s = store();
    s.store(MemoryScope::Session("sess-b".into()), "work", b"data", 5).unwrap();
    assert!(s.query("work").unwrap().is_some());
    s.archive_session("sess-b").unwrap();
    assert!(s.query("work").unwrap().is_none());
    let archived = s.archived_entries("sess-b");
    assert_eq!(archived.len(), 1);
    assert_eq!(archived[0].key, "work");
}

#[test]
fn archive_session_only_removes_matching_session() {
    let mut s = store();
    s.store(MemoryScope::Session("sess-x".into()), "x_key", b"x", 1).unwrap();
    s.store(MemoryScope::Session("sess-y".into()), "y_key", b"y", 2).unwrap();
    s.archive_session("sess-x").unwrap();
    assert!(s.query("x_key").unwrap().is_none());
    assert!(s.query("y_key").unwrap().is_some());
}

#[test]
fn agent_scope_is_private_to_agent() {
    let mut s = store();
    s.store(MemoryScope::Agent(10), "secret", b"agent10", 10).unwrap();
    s.store(MemoryScope::Agent(20), "secret", b"agent20", 20).unwrap();
    let entry = s.query("secret").unwrap().expect("should find an agent entry");
    assert!(matches!(entry.scope, MemoryScope::Agent(_)));
    assert!(entry.value == b"agent10" || entry.value == b"agent20");
}

#[test]
fn query_priority_agent_over_session_over_global() {
    let mut s = store();
    s.store(MemoryScope::Global, "k", b"global", 0).unwrap();
    s.store(MemoryScope::Session("s1".into()), "k", b"session", 1).unwrap();
    s.store(MemoryScope::Agent(7), "k", b"agent", 7).unwrap();
    let entry = s.query("k").unwrap().unwrap();
    assert_eq!(entry.value, b"agent");
}

#[test]
fn query_falls_back_to_session_when_no_agent_entry() {
    let mut s = store();
    s.store(MemoryScope::Global, "k", b"global", 0).unwrap();
    s.store(MemoryScope::Session("s1".into()), "k", b"session", 1).unwrap();
    let entry = s.query("k").unwrap().unwrap();
    assert_eq!(entry.value, b"session");
}

#[test]
fn query_falls_back_to_global_when_no_session_or_agent_entry() {
    let mut s = store();
    s.store(MemoryScope::Global, "k", b"global", 0).unwrap();
    let entry = s.query("k").unwrap().unwrap();
    assert_eq!(entry.value, b"global");
}

#[test]
fn store_overwrites_existing_entry() {
    let mut s = store();
    s.store(MemoryScope::Global, "counter", b"1", 1).unwrap();
    s.store(MemoryScope::Global, "counter", b"2", 1).unwrap();
    let entry = s.query("counter").unwrap().unwrap();
    assert_eq!(entry.value, b"2");
}

#[test]
fn base64_round_trip() {
    let original = b"Hello, World! \x00\xff\xfe";
    let encoded = base64_encode(original);
    let decoded = base64_decode(&encoded).unwrap();
    assert_eq!(decoded, original);
}

#[test]
fn base64_empty_input() {
    assert_eq!(base64_encode(b""), "");
    assert_eq!(base64_decode("").unwrap(), b"");
}

#[test]
fn aura_memory_store_kv_does_not_panic() {
    let mut store = AuraMemoryStore::new();
    let _ = store.store_kv("hawk-test-key", "hawk-test-value");
}

#[test]
fn aura_memory_get_kv_does_not_panic() {
    let store = AuraMemoryStore::new();
    let _ = store.get_kv("hawk-test-key");
}

#[test]
fn aura_memory_list_does_not_panic() {
    let store = AuraMemoryStore::new();
    let _ = store.list();
}

#[test]
fn aura_memory_store_and_retrieve_via_fallback() {
    let mut store = AuraMemoryStore::new();
    store.store(MemoryScope::Global, "fallback-key", b"fallback-val", 1).unwrap();
    let entry = store.fallback().query("fallback-key").unwrap();
    assert!(entry.is_some());
    assert_eq!(entry.unwrap().value, b"fallback-val");
}

#[test]
fn base64_known_encodings() {
    assert_eq!(base64_encode(b"f"), "Zg==");
    assert_eq!(base64_encode(b"fo"), "Zm8=");
    assert_eq!(base64_encode(b"foo"), "Zm9v");
    assert_eq!(base64_decode("Zm9vYg==").unwrap(), b"foob");
}

#[test]
fn base64_rejects_bad_length_and_chars() {
    assert_eq!(base64_decode("abc").unwrap_err(), "base64 length must be a multiple of 4");
    assert_eq!(base64_decode("ab!d").unwrap_err(), "invalid base64 char: 33");
}

#[test]
fn kv_round_trip_and_list() {
    let mut store = AuraMemoryStore::new();
    assert!(store.store_kv("greeting", "héllo"));
    assert_eq!(store.get_kv("greeting"), Some("héllo".to_string()));
    assert_eq!(store.list(), vec![("greeting".to_string(), "héllo".to_string())]);
    assert!(store.remove("greeting"));
    assert_eq!(store.get_kv("greeting"), None);
    assert!(store.list().is_empty());
    assert_eq!(store.get_kv("missing"), None);
}

#[test]
fn archived_session_replaces_same_key() {
    let mut s = store();
    s.store(MemoryScope::Session("a".into()), "k", b"1", 1).unwrap();
    s.archive_session("a").unwrap();
    s.store(MemoryScope::Session("a".into()), "k", b"2", 1).unwrap();
    s.archive_session("a").unwrap();
    let archived = s.archived_entries("a");
    assert_eq!(archived.len(), 1);
    assert_eq!(archived[0].value, b"2");
}

#[test]
fn trait_object_dispatch_works() {
    let mut s = store();
    {
        let m: &mut dyn SharedMemory = &mut s;
        m.store(MemoryScope::Global, "t", b"v", 3).unwrap();
        assert_eq!(m.query("t").unwrap().unwrap().source_agent, 3);
    }
}
