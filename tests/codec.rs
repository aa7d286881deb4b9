use mmry::codec::{decrypt_data, encrypt_data, seal, OpenError};
use mmry::config::{derive_key, Config};

#[test]
fn sealed_text_opens_with_same_key() {
    let key = derive_key("secret");
    let text = "[{\"content\":\"hello\",\"id\":1}]";
    let env = encrypt_data(text, &key).unwrap();
    assert_ne!(env, text);
    assert_eq!(decrypt_data(&env, &key), Ok(text.to_string()));
}

#[test]
fn sealing_with_fixed_nonce_is_deterministic_and_nonce_leads() {
    let key = derive_key("k");
    let nonce = [7u8; 12];
    let a = seal("abc", &key, &nonce).unwrap();
    let b = seal("abc", &key, &nonce).unwrap();
    assert_eq!(a, b);
    // 12 bytes of nonce, 3 of text, 16 of tag: 31 bytes, 44 base64 characters
    assert_eq!(a.len(), 44);
    assert!(a.starts_with("BwcHBwcHBwcHBwcH"));
    assert_eq!(decrypt_data(&a, &key), Ok("abc".to_string()));
}

#[test]
fn fresh_nonce_each_time() {
    let key = derive_key("k");
    let a = encrypt_data("same", &key).unwrap();
    let b = encrypt_data("same", &key).unwrap();
    assert_ne!(a, b);
}

#[test]
fn wrong_key_is_rejected() {
    let env = encrypt_data("private", &derive_key("right")).unwrap();
    assert_eq!(decrypt_data(&env, &derive_key("wrong")), Err(OpenError::Rejected));
}

#[test]
fn altered_envelope_is_rejected() {
    let key = derive_key("k");
    let env = seal("payload", &key, &[1u8; 12]).unwrap();
    let mut chars: Vec<char> = env.chars().collect();
    let i = 20;
    chars[i] = if chars[i] == 'A' { 'B' } else { 'A' };
    let altered: String = chars.into_iter().collect();
    assert_eq!(decrypt_data(&altered, &key), Err(OpenError::Rejected));
}

#[test]
fn not_base64_is_refused() {
    let key = derive_key("k");
    assert_eq!(decrypt_data("not base64!", &key), Err(OpenError::NotBase64));
    assert_eq!(decrypt_data("[]", &key), Err(OpenError::NotBase64));
}

#[test]
fn envelope_shorter_than_nonce_is_refused() {
    let key = derive_key("k");
    assert_eq!(decrypt_data("AAAA", &key), Err(OpenError::TooShort));
    // eleven bytes
    assert_eq!(decrypt_data("AAAAAAAAAAAAAAA=", &key), Err(OpenError::TooShort));
    assert_eq!(decrypt_data("", &key), Err(OpenError::TooShort));
}

#[test]
fn empty_text_round_trips() {
    let key = derive_key("");
    let env = encrypt_data("", &key).unwrap();
    assert_eq!(decrypt_data(&env, &key), Ok(String::new()));
}

#[test]
fn key_is_sha256_of_key_text() {
    let k = derive_key("abc");
    assert_eq!(k[0], 0xba);
    assert_eq!(k[1], 0x78);
    assert_eq!(k[31], 0xad);
}

#[test]
fn configured_key_text_is_used() {
    let mut c = Config::default();
    c.encryption_key = Some("abc".to_string());
    let (k, updated) = c.ensure_key(&[0u8; 32]);
    assert_eq!(k, derive_key("abc"));
    assert!(updated.is_none());
}

#[test]
fn missing_key_is_created_once_and_stays() {
    let c = Config::default();
    assert!(c.encryption_key.is_none());
    let (k, updated) = c.ensure_key(&[0u8; 32]);
    let updated = updated.unwrap();
    assert_eq!(
        updated.encryption_key.as_deref(),
        Some("AAAAAAAAAAAAAAAAAAAAAAAAAAAAAAAAAAAAAAAAAAA=")
    );
    let (again, none) = updated.ensure_key(&[9u8; 32]);
    assert_eq!(again, k);
    assert!(none.is_none());
    assert_eq!(updated.max_items, c.max_items);
}

#[test]
fn random_key_creation() {
    let c = Config::default();
    let (k1, u1) = c.get_or_create_encryption_key().unwrap();
    let (k2, _) = c.get_or_create_encryption_key().unwrap();
    assert_ne!(k1, k2);
    let u1 = u1.unwrap();
    assert_eq!(k1, derive_key(u1.encryption_key.as_deref().unwrap()));
    let (k3, u3) = u1.get_or_create_encryption_key().unwrap();
    assert_eq!(k1, k3);
    assert!(u3.is_none());
}

#[test]
fn default_config() {
    let c = Config::default();
    assert!(!c.verbose);
    assert_eq!(c.theme, "dark");
    assert_eq!(c.max_items, 500);
    assert!(c.hotkey.ctrl && c.hotkey.alt && !c.hotkey.shift);
    assert_eq!(c.hotkey.key, "c");
    assert!(c.encryption_enabled);
    assert!(!c.autostart_enabled);
}
