use openhawk::error::HawkError;
use openhawk::memory::MemoryError;
use openhawk::nest::NestError;
use openhawk::orchestrator::OrchestratorError;
use openhawk::self_healer::HealerError;
use openhawk::sync::SyncError;
use openhawk::talon::TalonError;

#[test]
fn talon_error_messages() {
    assert_eq!(TalonError::InvalidSignature("x".into()).message(), "signature verification failed for 'x'");
    assert_eq!(TalonError::NotFound("x".into()).message(), "talon not found: 'x'");
    assert_eq!(TalonError::AlreadyInstalled("x".into()).message(), "talon already installed: 'x'");
    assert_eq!(TalonError::Lifecycle("boom".into()).message(), "talon lifecycle error: boom");
    assert_eq!(TalonError::Panicked("p".into()).message(), "talon panicked: p");
}

#[test]
fn orchestrator_error_messages() {
    assert_eq!(OrchestratorError::NoAgentsRegistered.message(), "no agents registered");
    assert_eq!(OrchestratorError::CyclicDependency.message(), "cyclic dependency in plan");
    assert_eq!(OrchestratorError::Hawk(HawkError::NotFound("agent 3".into())).message(), "Not found: agent 3");
}

#[test]
fn nest_error_messages() {
    assert_eq!(NestError::AlreadyInstalled("p".into()).message(), "package already installed: 'p'");
    assert_eq!(NestError::InvalidSignature("p".into()).message(), "invalid signature for 'p'");
    assert_eq!(NestError::InvalidPackage("no manifest".into()).message(), "invalid package: no manifest");
    assert_eq!(
        NestError::InvalidVersion("1.x".into()).message(),
        "invalid semver version '1.x': expected MAJOR.MINOR.PATCH"
    );
    let io = std::io::Error::new(std::io::ErrorKind::Other, "disk gone");
    assert_eq!(NestError::Io(io).message(), "io error: disk gone");
    assert_eq!(
        NestError::Db(rusqlite::Error::QueryReturnedNoRows).message(),
        format!("database error: {}", rusqlite::Error::QueryReturnedNoRows)
    );
}

#[test]
fn healer_memory_and_sync_error_messages() {
    assert_eq!(HealerError::Database("locked".into()).message(), "database error: locked");
    assert_eq!(MemoryError::KeyNotFound("k".into()).message(), "key not found: k");
    assert_eq!(MemoryError::LockPoisoned.message(), "lock poisoned");
    assert_eq!(MemoryError::InvalidParams("no key".into()).message(), "invalid params: no key");
    assert_eq!(SyncError::NotEnabled.message(), "sync not enabled — call enable() first");
    assert_eq!(SyncError::KeyDerivation("bad".into()).message(), "key derivation failed: bad");
    assert_eq!(SyncError::Encryption.message(), "encryption failed");
    assert_eq!(SyncError::Decryption.message(), "decryption failed");
    assert_eq!(SyncError::CiphertextTooShort.message(), "ciphertext too short");
}
