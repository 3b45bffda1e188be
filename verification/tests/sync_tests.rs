use openhawk::sync::{ConflictStrategy, SyncEngine, SyncError, SyncItem};

fn enabled_engine() -> SyncEngine {
    let mut e = SyncEngine::new();
    e.enable("test-shared-secret").unwrap();
    e
}

#[test]
fn encrypt_decrypt_roundtrip() {
    let engine = enabled_engine();
    let plaintext = b"hello, sync world";
    let ciphertext = engine.encrypt(plaintext).unwrap();
    let recovered = engine.decrypt(&ciphertext).unwrap();
    assert_eq!(recovered, plaintext);
}

#[test]
fn encrypt_produces_different_ciphertext_each_call() {
    let engine = enabled_engine();
    let data = b"same data";
    let c1 = engine.encrypt(data).unwrap();
    let c2 = engine.encrypt(data).unwrap();
    assert_ne!(c1, c2);
}

#[test]
fn decrypt_fails_without_enable() {
    let engine = SyncEngine::new();
    let data = vec![0u8; 20];
    assert!(matches!(engine.decrypt(&data), Err(SyncError::NotEnabled)));
}

#[test]
fn decrypt_fails_on_short_input() {
    let engine = enabled_engine();
    assert!(matches!(engine.decrypt(b"short"), Err(SyncError::CiphertextTooShort)));
}

#[test]
fn decrypt_fails_on_tampered_ciphertext() {
    let engine = enabled_engine();
    let mut ct = engine.encrypt(b"data").unwrap();
    let last = ct.len() - 1;
    ct[last] ^= 0xff;
    assert!(matches!(engine.decrypt(&ct), Err(SyncError::Decryption)));
}

#[test]
fn discover_peers_returns_empty_stub() {
    let engine = SyncEngine::new();
    assert!(engine.discover_peers().is_empty());
}

#[test]
fn select_for_sync_marks_item() {
    let mut engine = SyncEngine::new();
    let item = SyncItem::Agent("my-agent".to_string());
    assert!(!engine.is_selected(&item));
    engine.select_for_sync(item.clone());
    assert!(engine.is_selected(&item));
}

#[test]
fn select_for_sync_deduplicates() {
    let mut engine = SyncEngine::new();
    let item = SyncItem::MemoryNamespace("ns1".to_string());
    engine.select_for_sync(item.clone());
    engine.select_for_sync(item.clone());
    assert_eq!(engine.selected.len(), 1);
}

#[test]
fn unselected_item_not_synced() {
    let mut engine = enabled_engine();
    engine.select_for_sync(SyncItem::Agent("agent-a".to_string()));
    let result = engine.sync().unwrap();
    assert_eq!(result.synced_items, 1);
    assert!(!engine.is_selected(&SyncItem::Agent("agent-b".to_string())));
}

#[test]
fn sync_requires_enable() {
    let engine = SyncEngine::new();
    assert!(matches!(engine.sync(), Err(SyncError::NotEnabled)));
}

#[test]
fn last_writer_wins_remote_newer() {
    let mut engine = enabled_engine();
    let winner = engine.resolve_conflict("key", b"local", 100, b"remote", 200);
    assert_eq!(winner, b"remote");
    assert_eq!(engine.conflict_log().len(), 1);
    assert_eq!(engine.conflict_log()[0].discarded_value, b"local");
}

#[test]
fn last_writer_wins_local_newer() {
    let mut engine = enabled_engine();
    let winner = engine.resolve_conflict("key", b"local", 300, b"remote", 200);
    assert_eq!(winner, b"local");
    assert_eq!(engine.conflict_log()[0].discarded_value, b"remote");
}

#[test]
fn manual_strategy_keeps_local() {
    let mut engine = enabled_engine();
    engine.set_conflict_strategy(ConflictStrategy::Manual);
    let winner = engine.resolve_conflict("key", b"local", 100, b"remote", 999);
    assert_eq!(winner, b"local");
}

#[test]
fn merge_strategy_concatenates() {
    let mut engine = enabled_engine();
    engine.set_conflict_strategy(ConflictStrategy::Merge);
    let winner = engine.resolve_conflict("key", b"abc", 1, b"def", 2);
    assert_eq!(winner, b"abcdef");
}

#[test]
fn queue_change_increments_count() {
    let mut engine = SyncEngine::new();
    assert_eq!(engine.get_queued_count(), 0);
    engine.queue_change("k1", b"v1");
    engine.queue_change("k2", b"v2");
    assert_eq!(engine.get_queued_count(), 2);
}

#[test]
fn flush_queue_drains_all() {
    let mut engine = SyncEngine::new();
    engine.queue_change("k1", b"v1");
    engine.queue_change("k2", b"v2");
    let flushed = engine.flush_queue();
    assert_eq!(flushed.len(), 2);
    assert_eq!(engine.get_queued_count(), 0);
}

#[test]
fn flush_queue_preserves_order() {
    let mut engine = SyncEngine::new();
    engine.queue_change("first", b"1");
    engine.queue_change("second", b"2");
    let flushed = engine.flush_queue();
    assert_eq!(flushed[0].0, "first");
    assert_eq!(flushed[1].0, "second");
}

#[test]
fn conflict_strategy_default_is_lww() {
    let engine = SyncEngine::new();
    assert_eq!(*engine.get_conflict_strategy(), ConflictStrategy::LastWriterWins);
}

#[test]
fn set_conflict_strategy_persists() {
    let mut engine = SyncEngine::new();
    engine.set_conflict_strategy(ConflictStrategy::Manual);
    assert_eq!(*engine.get_conflict_strategy(), ConflictStrategy::Manual);
}

#[test]
fn enable_with_different_secrets_produces_different_keys() {
    let mut e1 = SyncEngine::new();
    let mut e2 = SyncEngine::new();
    e1.enable("secret-one").unwrap();
    e2.enable("secret-two").unwrap();
    let ct = e1.encrypt(b"data").unwrap();
    assert!(e2.decrypt(&ct).is_err());
}

#[test]
fn last_writer_wins_tie_keeps_local() {
    let mut engine = SyncEngine::new();
    let winner = engine.resolve_conflict("k", b"mine", 50, b"theirs", 50);
    assert_eq!(winner, b"mine");
    assert_eq!(engine.conflict_log()[0].winner_ts, 50);
    assert_eq!(engine.conflict_log()[0].key, "k");
}

#[test]
fn encrypt_without_enable_fails() {
    let engine = SyncEngine::new();
    assert!(matches!(engine.encrypt(b"x"), Err(SyncError::NotEnabled)));
}

#[test]
fn sealed_payload_has_nonce_and_tag() {
    let engine = enabled_engine();
    let ct = engine.encrypt(b"abc").unwrap();
    assert_eq!(ct.len(), 12 + 3 + 16);
}
