use narou_rs::login::crypto::{
    decrypt_at_rest, decrypt_stored_value, decrypt_with_key, derive_key, encrypt_at_rest,
    encrypt_with_key, is_encrypted_at_rest, KEY_LEN, SALT_LEN,
};

fn key() -> [u8; KEY_LEN] {
    [7u8; KEY_LEN]
}

#[test]
fn round_trips_a_value() {
    let token = encrypt_with_key(&key(), "example.com", "session=abc").unwrap();
    assert_eq!(
        decrypt_with_key(&key(), "example.com", &token).unwrap(),
        "session=abc"
    );
}

#[test]
fn aad_binds_the_ciphertext_to_its_host() {
    let token = encrypt_with_key(&key(), "example.com", "session=abc").unwrap();
    assert!(decrypt_with_key(&key(), "other.example", &token).is_err());
}

#[test]
fn rejects_a_wrong_key_and_damaged_payload() {
    let token = encrypt_with_key(&key(), "example.com", "session=abc").unwrap();
    assert!(decrypt_with_key(&[9u8; KEY_LEN], "example.com", &token).is_err());
    assert!(decrypt_with_key(&key(), "example.com", "not-a-token").is_err());
    let mut damaged = token.clone();
    damaged.pop();
    assert!(decrypt_with_key(&key(), "example.com", &damaged).is_err());
}

#[test]
fn nonces_differ_between_encryptions() {
    let first = encrypt_with_key(&key(), "example.com", "session=abc").unwrap();
    let second = encrypt_with_key(&key(), "example.com", "session=abc").unwrap();
    assert_ne!(first, second);
}

#[test]
fn at_rest_values_carry_the_prefix_and_plaintext_stays_readable() {
    let stored = encrypt_at_rest(&key(), "example.com", "session=abc").unwrap();
    assert!(is_encrypted_at_rest(&stored));
    assert_eq!(
        decrypt_at_rest(&key(), "example.com", &stored).unwrap(),
        Some("session=abc".to_string())
    );
    assert_eq!(decrypt_at_rest(&key(), "example.com", "session=legacy").unwrap(), None);
}

#[test]
fn derived_keys_depend_on_the_salt_and_passphrase() {
    let salt = [1u8; SALT_LEN];
    let other_salt = [2u8; SALT_LEN];
    let first = derive_key("correct horse", &salt).unwrap();
    assert_eq!(first, derive_key("correct horse", &salt).unwrap());
    assert_ne!(first, derive_key("correct horse", &other_salt).unwrap());
    assert_ne!(first, derive_key("battery staple", &salt).unwrap());
}

#[test]
fn stored_values_need_a_key_only_when_encrypted() {
    let stored = encrypt_at_rest(&key(), "example.com", "session=abc").unwrap();
    assert!(decrypt_stored_value(None, "example.com", &stored).is_err());
    assert_eq!(decrypt_stored_value(None, "example.com", "plain").unwrap(), None);
    assert_eq!(
        decrypt_stored_value(Some(&key()), "example.com", &stored).unwrap(),
        Some("session=abc".to_string())
    );
}

use narou_rs::login::transfer::{
    clear_envelope, encrypted_envelope, open_envelope, CookieEnvelope, EnvelopeContents,
    LoginCredential, EXPORT_VERSION,
};

fn cookies() -> Vec<LoginCredential> {
    vec![
        LoginCredential::new("ncode.syosetu.com", "over18=yes; ses=1"),
        LoginCredential::new("example.com", "sid=abc"),
    ]
}

/// The credential list of `cookies()` as the payload JSON.
const COOKIES_JSON: &str =
    r#"[{"host":"ncode.syosetu.com","cookie":"over18=yes; ses=1"},{"host":"example.com","cookie":"sid=abc"}]"#;

fn sealed() -> CookieEnvelope {
    encrypted_envelope(COOKIES_JSON, "hunter2", "2026-09-20T00:00:00+09:00", None).unwrap()
}

#[test]
fn plain_envelope_round_trips() {
    let envelope = clear_envelope(cookies(), "2026-09-20T00:00:00+09:00", Some("lib"));
    assert!(!envelope.encrypted);
    assert!(envelope.payload.is_none());
    assert_eq!(envelope.version, EXPORT_VERSION);
    assert_eq!(envelope.library.as_deref(), Some("lib"));
    match open_envelope(envelope, None).unwrap() {
        EnvelopeContents::Credentials(credentials) => assert_eq!(credentials, cookies()),
        other => panic!("unexpected {other:?}"),
    }
}

#[test]
fn encrypted_envelope_hides_the_cookies_and_needs_the_passphrase() {
    let envelope = sealed();
    assert!(envelope.encrypted);
    assert_eq!(envelope.kdf.as_deref(), Some("argon2id"));
    assert!(!envelope.payload.as_deref().unwrap().contains("sid=abc"));
    assert!(envelope.credentials.is_empty());
    match open_envelope(sealed_copy(&envelope), Some("hunter2")).unwrap() {
        EnvelopeContents::Json(json) => assert_eq!(json, COOKIES_JSON),
        other => panic!("unexpected {other:?}"),
    }
    assert!(open_envelope(sealed_copy(&envelope), Some("wrong")).is_err());
    assert!(open_envelope(envelope, None).is_err());
}

fn sealed_copy(e: &CookieEnvelope) -> CookieEnvelope {
    CookieEnvelope {
        version: e.version,
        exported_at: e.exported_at.clone(),
        library: e.library.clone(),
        encrypted: e.encrypted,
        kdf: e.kdf.clone(),
        salt: e.salt.clone(),
        payload: e.payload.clone(),
        credentials: e.credentials.clone(),
        cookies: e.cookies.clone(),
    }
}

#[test]
fn rejects_unknown_versions_and_damaged_payloads() {
    let envelope = sealed();
    let mut bumped = sealed_copy(&envelope);
    bumped.version = 99;
    assert!(open_envelope(bumped, Some("hunter2")).is_err());

    let mut damaged = sealed_copy(&envelope);
    damaged.payload = Some(format!("AAAA{}", envelope.payload.as_deref().unwrap()));
    assert!(open_envelope(damaged, Some("hunter2")).is_err());
}

#[test]
fn legacy_envelopes_import_one_credential_per_host() {
    let envelope = CookieEnvelope {
        version: 1,
        exported_at: "2025-01-01T00:00:00+09:00".to_string(),
        library: None,
        encrypted: false,
        kdf: None,
        salt: None,
        payload: None,
        credentials: Vec::new(),
        cookies: vec![
            ("example.com".to_string(), "sid=abc".to_string()),
            ("ncode.syosetu.com".to_string(), "over18=yes".to_string()),
        ],
    };
    match open_envelope(envelope, Some("ignored")).unwrap() {
        EnvelopeContents::Credentials(credentials) => assert_eq!(
            credentials,
            vec![
                LoginCredential::new("example.com", "sid=abc"),
                LoginCredential::new("ncode.syosetu.com", "over18=yes"),
            ]
        ),
        other => panic!("unexpected {other:?}"),
    }
}

#[test]
fn an_encrypted_envelope_with_another_kdf_is_refused() {
    let mut envelope = sealed();
    envelope.kdf = Some("scrypt".to_string());
    let error = open_envelope(envelope, Some("hunter2")).unwrap_err();
    assert!(error.detail_text().contains("scrypt"));
}

fn login_detail(r: Result<Option<String>, narou_rs::error::NarouError>) -> String {
    match r {
        Err(narou_rs::error::NarouError::Login(m)) => m,
        other => panic!("expected a login error, got {other:?}"),
    }
}

#[test]
fn stored_value_with_a_key_fails_as_decrypt_at_rest_does() {
    let stored = encrypt_at_rest(&key(), "example.com", "session=abc").unwrap();
    let other = [9u8; KEY_LEN];
    let via_store = login_detail(decrypt_stored_value(Some(&other), "example.com", &stored));
    let direct = login_detail(decrypt_at_rest(&other, "example.com", &stored));
    assert_eq!(via_store, direct);
    assert_eq!(direct, "decryption failed: wrong key or damaged data");
}

#[test]
fn a_damaged_payload_reports_the_base64_error() {
    let token = encrypt_with_key(&key(), "example.com", "session=abc").unwrap();
    let (nonce, _) = token.split_once(':').unwrap();
    let damaged = format!("{nonce}:!!!!");
    let detail = match decrypt_with_key(&key(), "example.com", &damaged) {
        Err(narou_rs::error::NarouError::Login(m)) => m,
        other => panic!("expected a login error, got {other:?}"),
    };
    assert!(detail.starts_with("malformed ciphertext payload: "));
    assert!(detail.len() > "malformed ciphertext payload: ".len());
}
