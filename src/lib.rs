//! A local credential vault: records are kept with their password sealed under
//! a key derived from a master password, and are opened only during an
//! authenticated session that lapses after a fixed period of inactivity.

mod crypto;
mod session;
mod vault;

pub use crypto::{
    aes_gcm_seal_of, argon2_accepts, argon2_phc_of, b64_alphabet, b64_quad, b64_text, base64_of, blob_opens_to, blob_text_len,
    decrypt_blob, derive_key_from_password, derived_key, encrypt_blob, fits_cipher,
    is_argon2_hash, is_generated_salt, lemma_derivation_deterministic, lemma_round_trip, lemma_utf8_len,
    phc_b64_of, seal_blob, sealed_blob, sha256_of, utf8_char, utf8_of, SessionKey, KEY_LEN,
    MAX_PASSWORD_LEN, MAX_PLAINTEXT_LEN, NONCE_LEN, TAG_LEN,
};
pub use session::{
    elapsed, lemma_cleared_session_invalid, lemma_session_timeout, Session, SESSION_TIMEOUT_SECS,
};
pub use vault::{
    first_with_id, ids_ordered, lemma_added_record_opens, lemma_reauthentication_same_key, lemma_refused_password_locks,
    lemma_setup_exclusive, lemma_setup_password_authenticates, other_than, records_of, text_view,
    AuthStatus, MasterRecord, MasterView, PasswordRecord, RecordView, Vault, VaultError,
};
