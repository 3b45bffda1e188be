use openhawk::vault::{
    keychain_key, vault_delete, vault_get, vault_list, vault_set, AuthCredential, AuthToken, SecretsVault, Vault,
    VaultError,
};

fn temp_vault() -> Vault {
    Vault::new("/tmp/openhawk-test-vault.enc".to_string())
}

fn auth_passphrase(vault: &mut Vault, pass: &str) -> AuthToken {
    vault
        .authenticate(AuthCredential::Passphrase(pass.to_string()))
        .expect("authentication should succeed")
}

fn reopen(vault: &Vault) -> Vault {
    Vault::open(vault.vault_path.clone(), vault.file().clone())
}

#[test]
fn lib_test_round_trip() {
    let mut vault = temp_vault();
    let token = auth_passphrase(&mut vault, "correct-horse-battery-staple");
    let plaintext = b"super-secret-api-key-12345";
    vault.set("MY_KEY", plaintext, &token).unwrap();
    let recovered = vault.get("MY_KEY", &token).unwrap();
    assert_eq!(recovered, plaintext);
}

#[test]
fn test_wrong_key_cannot_decrypt() {
    let mut vault = temp_vault();
    let token_a = auth_passphrase(&mut vault, "passphrase-a");
    vault.set("SECRET", b"value", &token_a).unwrap();

    let mut vault2 = reopen(&vault);
    let token_b = auth_passphrase(&mut vault2, "passphrase-b");
    assert!(vault2.get("SECRET", &token_b).is_err());
}

#[test]
fn test_list_keys_no_values() {
    let mut vault = temp_vault();
    let token = auth_passphrase(&mut vault, "pass");
    vault.set("KEY_A", b"value_a", &token).unwrap();
    vault.set("KEY_B", b"value_b", &token).unwrap();

    let keys = vault.list_keys();
    assert!(keys.contains(&"KEY_A".to_string()));
    assert!(keys.contains(&"KEY_B".to_string()));
    assert_eq!(keys.len(), 2);

    let listed = vault_list(&vault);
    assert!(listed.contains(&"KEY_A".to_string()));
    assert!(listed.contains(&"KEY_B".to_string()));
}

#[test]
fn test_delete_removes_key() {
    let mut vault = temp_vault();
    let token = auth_passphrase(&mut vault, "pass");
    vault.set("TO_DELETE", b"gone", &token).unwrap();
    assert!(vault.list_keys().contains(&"TO_DELETE".to_string()));

    vault.delete("TO_DELETE", &token).unwrap();
    assert!(!vault.list_keys().contains(&"TO_DELETE".to_string()));
    assert!(matches!(vault.get("TO_DELETE", &token), Err(VaultError::NotFound(_))));
}

#[test]
fn test_invalid_passphrase_cannot_decrypt() {
    let mut vault = temp_vault();
    let good_token = auth_passphrase(&mut vault, "correct-pass");
    vault.set("SECRET", b"my-secret", &good_token).unwrap();

    let mut vault2 = reopen(&vault);
    let bad_token = auth_passphrase(&mut vault2, "wrong-pass");
    assert!(vault2.get("SECRET", &bad_token).is_err());
}

#[test]
fn test_delete_nonexistent_key() {
    let mut vault = temp_vault();
    let token = auth_passphrase(&mut vault, "pass");
    assert!(matches!(vault.delete("DOES_NOT_EXIST", &token), Err(VaultError::NotFound(_))));
}

#[test]
fn test_cli_helpers() {
    let mut vault = temp_vault();
    let token = auth_passphrase(&mut vault, "cli-pass");

    vault_set(&mut vault, "CLI_KEY", b"cli-value", &token).unwrap();
    assert!(vault_list(&vault).contains(&"CLI_KEY".to_string()));

    let val = vault_get(&vault, "CLI_KEY", &token).unwrap();
    assert_eq!(val, b"cli-value");

    vault_delete(&mut vault, "CLI_KEY", &token).unwrap();
    assert!(!vault_list(&vault).contains(&"CLI_KEY".to_string()));
}

#[test]
fn test_nonce_uniqueness() {
    let mut vault = temp_vault();
    let token = auth_passphrase(&mut vault, "pass");
    vault.set("K1", b"same-value", &token).unwrap();
    vault.set("K2", b"same-value", &token).unwrap();

    let vf = vault.file();
    let e1 = &vf.entries.iter().find(|(k, _)| k == "K1").unwrap().1;
    let e2 = &vf.entries.iter().find(|(k, _)| k == "K2").unwrap().1;
    assert_ne!(e1.nonce, e2.nonce);
    assert_ne!(e1.ciphertext, e2.ciphertext);
}

#[test]
fn test_same_passphrase_different_vaults_different_keys() {
    let mut vault_a = temp_vault();
    let mut vault_b = temp_vault();
    let token_a = auth_passphrase(&mut vault_a, "shared-passphrase");
    let token_b = auth_passphrase(&mut vault_b, "shared-passphrase");
    assert!(token_a != token_b);
}

#[test]
fn test_same_vault_same_passphrase_same_key() {
    let mut vault = temp_vault();
    let token1 = auth_passphrase(&mut vault, "my-pass");
    vault.set("K", b"v", &token1).unwrap();

    let mut vault2 = reopen(&vault);
    let token2 = auth_passphrase(&mut vault2, "my-pass");
    let val = vault2.get("K", &token2).unwrap();
    assert_eq!(val, b"v");
    assert!(token1 == token2);
}

#[test]
fn test_kdf_salt_persisted_in_vault_file() {
    let mut vault = temp_vault();
    auth_passphrase(&mut vault, "any-pass");
    let vf = vault.file();
    assert!(!vf.kdf_salt.is_empty(), "kdf_salt should be written to vault file");
    assert_eq!(vf.kdf_salt.len(), 32, "16 bytes = 32 hex chars");
}

#[test]
fn overwriting_a_key_keeps_one_entry() {
    let mut vault = temp_vault();
    let token = auth_passphrase(&mut vault, "pass");
    vault.set("K", b"first", &token).unwrap();
    vault.set("K", b"second", &token).unwrap();
    assert_eq!(vault.list_keys(), vec!["K".to_string()]);
    assert_eq!(vault.get("K", &token).unwrap(), b"second");
    assert_eq!(vault.file().entries.len(), 1);
}

#[test]
fn bad_salt_is_reported() {
    let mut file = temp_vault().file().clone();
    file.kdf_salt = "zz".to_string();
    let mut vault = Vault::open("/tmp/x".to_string(), file.clone());
    match vault.authenticate(AuthCredential::Passphrase("p".to_string())) {
        Err(VaultError::KeyDerivation(m)) => assert!(m.starts_with("bad salt hex: ")),
        _ => panic!("expected a key derivation error"),
    }
    file.kdf_salt = "abcd".to_string();
    let mut vault = Vault::open("/tmp/x".to_string(), file);
    match vault.authenticate(AuthCredential::Passphrase("p".to_string())) {
        Err(VaultError::KeyDerivation(m)) => assert_eq!(m, "stored KDF salt has wrong length"),
        _ => panic!("expected a key derivation error"),
    }
}

#[test]
fn system_keychain_key_is_used() {
    let mut vault = temp_vault();
    assert!(matches!(vault.authenticate(AuthCredential::SystemKeychain), Err(VaultError::Keychain(_))));
    let (key, to_store) = keychain_key(None).unwrap();
    let stored = to_store.unwrap();
    assert_eq!(stored.len(), 64);
    let (again, nothing) = keychain_key(Some(stored.clone())).unwrap();
    assert!(key == again);
    assert!(nothing.is_none());
    vault.use_system_key(key);
    let token = vault.authenticate(AuthCredential::SystemKeychain).unwrap();
    vault.set("A", b"1", &token).unwrap();
    assert_eq!(vault.get("A", &token).unwrap(), b"1");
    assert!(matches!(keychain_key(Some("abcd".to_string())), Err(VaultError::Keychain(m)) if m == "invalid key length in keychain"));
    assert!(keychain_key(Some("xyz".to_string())).is_err());
}

#[test]
fn vault_error_messages() {
    assert_eq!(VaultError::NotFound("K".to_string()).message(), "key not found: K");
    assert_eq!(VaultError::NotAuthenticated.message(), "not authenticated");
}
