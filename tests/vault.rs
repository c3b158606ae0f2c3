use base64::Engine;
use vault::{
    decrypt_blob, derive_key_from_password, encrypt_blob, seal_blob, AuthStatus, MasterRecord, Session, Vault,
    VaultError, SESSION_TIMEOUT_SECS,
};

const T0: u64 = 1_700_000_000;

fn hex(bytes: &[u8]) -> String {
    bytes.iter().map(|b| format!("{:02x}", b)).collect()
}

fn vault_with_record(password: &str) -> (Vault, i64) {
    let mut v = Vault::new();
    v.setup_master_password("A", T0).unwrap();
    v.add_password("Email".to_string(), "me@x.com".to_string(), password, None, None, T0)
        .unwrap();
    let id = v.get_passwords(T0).unwrap()[0].id;
    (v, id)
}

#[test]
fn scenario_setup_add_list_decrypt() {
    let mut v = Vault::new();
    v.setup_master_password("Correct Horse", T0).unwrap();
    v.add_password("Email".to_string(), "me@x.com".to_string(), "p@ss", None, None, T0 + 1)
        .unwrap();
    let records = v.get_passwords(T0 + 2).unwrap();
    assert_eq!(records.len(), 1);
    assert_eq!(records[0].title, "Email");
    assert_eq!(records[0].username, "me@x.com");
    assert!(!records[0].encrypted_password.is_empty());
    assert_ne!(records[0].encrypted_password, "p@ss");
    assert_eq!(records[0].last_accessed, None);
    assert_eq!(v.decrypt_password(records[0].id, T0 + 3).unwrap(), "p@ss");
}

#[test]
fn scenario_logout_then_reauthenticate() {
    let (mut v, id) = vault_with_record("secret");
    v.logout();
    assert_eq!(v.authenticate("A", T0 + 10), Ok(true));
    assert_eq!(v.decrypt_password(id, T0 + 11).unwrap(), "secret");
}

#[test]
fn scenario_wrong_password_ends_session() {
    let mut v = Vault::new();
    v.setup_master_password("A", T0).unwrap();
    assert_eq!(v.authenticate("B", T0 + 1), Ok(false));
    assert!(matches!(v.get_passwords(T0 + 2), Err(VaultError::SessionExpired)));
}

#[test]
fn second_setup_is_refused_and_keeps_master() {
    let mut v = Vault::new();
    v.setup_master_password("first", T0).unwrap();
    assert_eq!(v.setup_master_password("second", T0 + 1), Err(VaultError::AlreadySetUp));
    v.logout();
    assert_eq!(v.authenticate("second", T0 + 2), Ok(false));
    assert_eq!(v.authenticate("first", T0 + 3), Ok(true));
}

#[test]
fn authenticate_before_setup_is_refused() {
    let mut v = Vault::new();
    assert_eq!(v.authenticate("A", T0), Err(VaultError::SetupMissing));
}

#[test]
fn auth_status_follows_setup_and_logout() {
    let mut v = Vault::new();
    assert_eq!(
        v.check_auth_status(T0),
        AuthStatus { is_authenticated: false, needs_setup: true }
    );
    v.setup_master_password("A", T0).unwrap();
    assert_eq!(
        v.check_auth_status(T0 + 1),
        AuthStatus { is_authenticated: true, needs_setup: false }
    );
    v.logout();
    assert_eq!(
        v.check_auth_status(T0 + 2),
        AuthStatus { is_authenticated: false, needs_setup: false }
    );
}

#[test]
fn session_lapses_after_timeout() {
    let (mut v, _) = vault_with_record("x");
    assert!(v.get_passwords(T0 + SESSION_TIMEOUT_SECS - 1).is_ok());
    let t1 = T0 + SESSION_TIMEOUT_SECS - 1;
    assert!(matches!(
        v.get_passwords(t1 + SESSION_TIMEOUT_SECS),
        Err(VaultError::SessionExpired)
    ));
    assert!(matches!(v.get_passwords(t1 + 1), Err(VaultError::SessionExpired)));
}

#[test]
fn session_lapses_exactly_at_timeout() {
    let (mut v, id) = vault_with_record("x");
    assert_eq!(v.decrypt_password(id, T0 + SESSION_TIMEOUT_SECS), Err(VaultError::SessionExpired));
}

#[test]
fn logout_refuses_privileged_calls() {
    let (mut v, id) = vault_with_record("x");
    v.logout();
    assert!(matches!(v.get_passwords(T0), Err(VaultError::SessionExpired)));
    assert_eq!(v.decrypt_password(id, T0), Err(VaultError::SessionExpired));
    assert_eq!(v.delete_password(id, T0), Err(VaultError::SessionExpired));
    assert_eq!(
        v.add_password("t".to_string(), "u".to_string(), "p", None, None, T0),
        Err(VaultError::SessionExpired)
    );
}

#[test]
fn privileged_calls_before_setup_are_refused() {
    let mut v = Vault::new();
    assert!(matches!(v.get_passwords(T0), Err(VaultError::SessionExpired)));
}

#[test]
fn decrypt_unknown_id_is_not_found() {
    let (mut v, id) = vault_with_record("x");
    assert_eq!(v.decrypt_password(id + 100, T0 + 1), Err(VaultError::NotFound));
}

#[test]
fn delete_removes_record_and_is_idempotent() {
    let (mut v, id) = vault_with_record("x");
    v.add_password("Bank".to_string(), "me".to_string(), "y", Some("money".to_string()), Some("n".to_string()), T0)
        .unwrap();
    assert_eq!(v.delete_password(id, T0 + 1), Ok(()));
    assert_eq!(v.delete_password(id, T0 + 2), Ok(()));
    let records = v.get_passwords(T0 + 3).unwrap();
    assert_eq!(records.len(), 1);
    assert_eq!(records[0].title, "Bank");
    assert_eq!(records[0].category, Some("money".to_string()));
    assert_eq!(records[0].notes, Some("n".to_string()));
    assert_eq!(v.decrypt_password(id, T0 + 4), Err(VaultError::NotFound));
    assert_eq!(v.decrypt_password(records[0].id, T0 + 5).unwrap(), "y");
}

#[test]
fn ids_are_distinct_and_increasing() {
    let (mut v, id) = vault_with_record("x");
    v.add_password("b".to_string(), "u".to_string(), "y", None, None, T0).unwrap();
    let records = v.get_passwords(T0).unwrap();
    assert_eq!(records.len(), 2);
    assert_eq!(records[1].id, id + 1);
}

#[test]
fn derived_key_is_sha256_of_password_and_salt() {
    let k = derive_key_from_password("Correct Horse", "c2FsdHNhbHQ");
    assert_eq!(
        hex(k.as_bytes()),
        "0220573935243249db26a9894434590a749041314bf637deb442d2d14261c71a"
    );
}

#[test]
fn derivation_is_deterministic_and_input_sensitive() {
    let a = derive_key_from_password("pw", "salt");
    let b = derive_key_from_password("pw", "salt");
    assert_eq!(a.as_bytes(), b.as_bytes());
    assert_ne!(a.as_bytes(), derive_key_from_password("pw", "salu").as_bytes());
    assert_ne!(a.as_bytes(), derive_key_from_password("pv", "salt").as_bytes());
}

#[test]
fn seal_blob_exact_value() {
    let k = derive_key_from_password("Correct Horse", "c2FsdHNhbHQ");
    let nonce: Vec<u8> = (0u8..12).collect();
    assert_eq!(
        seal_blob(&k, &nonce, "p@ss").unwrap(),
        "AAECAwQFBgcICQoLyEna1sQhib4PQeI/TyasFVnWaVo="
    );
}

#[test]
fn blob_round_trip() {
    let k = derive_key_from_password("pw", "salt");
    for p in ["", "p@ss", "unicode \u{e9}\u{4e2d}", &"long".repeat(1000)] {
        let blob = encrypt_blob(&k, p).unwrap();
        assert_eq!(decrypt_blob(&k, &blob), Some(p.to_string()));
    }
}

#[test]
fn blob_has_nonce_ciphertext_and_tag() {
    let k = derive_key_from_password("pw", "salt");
    let blob = encrypt_blob(&k, "p@ss").unwrap();
    // 12 + 4 + 16 = 32 bytes of base64 text
    assert_eq!(blob.len(), 44);
}

#[test]
fn fresh_nonce_per_encryption() {
    let k = derive_key_from_password("pw", "salt");
    assert_ne!(encrypt_blob(&k, "p").unwrap(), encrypt_blob(&k, "p").unwrap());
}

#[test]
fn tampered_blob_fails() {
    let k = derive_key_from_password("pw", "salt");
    let blob = encrypt_blob(&k, "p@ssword").unwrap();
    let mut chars: Vec<char> = blob.chars().collect();
    for pos in [0, 5, 16, 20, 30] {
        let mut t = chars.clone();
        t[pos] = if t[pos] == 'A' { 'B' } else { 'A' };
        let tampered: String = t.into_iter().collect();
        assert_eq!(decrypt_blob(&k, &tampered), None);
    }
    chars.truncate(8);
    let truncated: String = chars.into_iter().collect();
    assert_eq!(decrypt_blob(&k, &truncated), None);
    assert_eq!(decrypt_blob(&k, "not base64!"), None);
}

#[test]
fn wrong_key_fails() {
    let k = derive_key_from_password("pw", "salt");
    let other = derive_key_from_password("pw2", "salt");
    let blob = encrypt_blob(&k, "secret").unwrap();
    assert_eq!(decrypt_blob(&other, &blob), None);
}

#[test]
fn wipe_zeroes_key() {
    let mut k = derive_key_from_password("pw", "salt");
    k.wipe();
    assert_eq!(k.as_bytes(), &[0u8; 32][..]);
}

#[test]
fn session_starts_invalid() {
    let s = Session::new();
    assert!(!s.is_valid(T0));
    assert!(s.key().is_none());
}

#[test]
fn session_enter_refreshes_and_expires() {
    let mut s = Session::new();
    s.install(derive_key_from_password("pw", "salt"), T0);
    assert!(s.enter(T0 + SESSION_TIMEOUT_SECS - 1));
    assert!(s.enter(T0 + 2 * SESSION_TIMEOUT_SECS - 2));
    assert!(!s.enter(T0 + 3 * SESSION_TIMEOUT_SECS));
    assert!(s.key().is_none());
    assert!(!s.enter(T0 + 3 * SESSION_TIMEOUT_SECS));
}

#[test]
fn restored_vault_reopens_with_master_password() {
    let (mut v, id) = vault_with_record("kept");
    let m = v.master().unwrap();
    let master = MasterRecord {
        password_hash: m.password_hash.clone(),
        salt: m.salt.clone(),
        created_at: m.created_at,
    };
    assert_eq!(master.created_at, T0);
    assert!(master.password_hash.starts_with("$argon2id$"));
    let records = v.get_passwords(T0).unwrap();
    let mut restored = Vault::restore(Some(master), records, id + 1);
    assert_eq!(
        restored.check_auth_status(T0 + 5),
        AuthStatus { is_authenticated: false, needs_setup: false }
    );
    assert_eq!(restored.authenticate("wrong", T0 + 6), Ok(false));
    assert_eq!(restored.authenticate("A", T0 + 7), Ok(true));
    assert_eq!(restored.decrypt_password(id, T0 + 8).unwrap(), "kept");
}

#[test]
fn corrupt_stored_hash_is_storage_failure() {
    let master = MasterRecord {
        password_hash: "not a phc string".to_string(),
        salt: "c2FsdHNhbHQ".to_string(),
        created_at: T0,
    };
    let mut v = Vault::restore(Some(master), Vec::new(), 1);
    assert_eq!(v.authenticate("A", T0), Err(VaultError::StorageFailure));
}

#[test]
fn blob_decodes_to_nonce_ciphertext_and_tag() {
    let k = derive_key_from_password("pw", "salt");
    for (p, n) in [("p@ss", 4usize), ("\u{e9}", 2), ("", 0)] {
        let blob = encrypt_blob(&k, p).unwrap();
        let bytes = base64::engine::general_purpose::STANDARD.decode(&blob).unwrap();
        assert_eq!(bytes.len(), 12 + n + 16);
        assert!(blob.len() > p.len());
        assert_ne!(blob, p);
    }
}

#[test]
fn blob_shorter_than_nonce_and_tag_fails() {
    let k = derive_key_from_password("pw", "salt");
    for n in [0usize, 5, 12, 20, 27] {
        let blob = base64::engine::general_purpose::STANDARD.encode(vec![7u8; n]);
        assert_eq!(decrypt_blob(&k, &blob), None);
    }
}

#[test]
fn setup_accepts_empty_password() {
    let mut v = Vault::new();
    assert_eq!(v.setup_master_password("", T0), Ok(()));
    v.logout();
    assert_eq!(v.authenticate("", T0 + 1), Ok(true));
}
