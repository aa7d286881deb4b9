use mmry::config::{derive_key, Config};
use mmry::entry::HistoryEntry;
use mmry::persist::Protection;

#[test]
fn plain_payload_is_the_text() {
    let p = Protection::Plain;
    let json = "[{\"content\":\"a\"}]";
    assert_eq!(p.save_payload(json), Some(json.to_string()));
    assert_eq!(p.decrypted_reading(json), None);
}

#[test]
fn encrypted_payload_round_trips() {
    let p = Protection::Encrypted(derive_key("pass"));
    let json = "[{\"name\":\"g\",\"clips\":[]}]";
    let stored = p.save_payload(json).unwrap();
    assert_ne!(stored, json);
    assert_eq!(p.decrypted_reading(&stored), Some(json.to_string()));
    let other = Protection::Encrypted(derive_key("other"));
    assert_eq!(other.decrypted_reading(&stored), None);
    assert_eq!(p.decrypted_reading(json), None);
}

#[test]
fn establish_follows_config() {
    let mut c = Config::default();
    c.encryption_enabled = false;
    let (p, updated) = Protection::establish(&c, &[1u8; 32]);
    assert_eq!(p, Protection::Plain);
    assert!(updated.is_none());

    let c = Config::default();
    let (p, updated) = Protection::establish(&c, &[1u8; 32]);
    let updated = updated.unwrap();
    let text = updated.encryption_key.clone().unwrap();
    assert_eq!(p, Protection::Encrypted(derive_key(&text)));
    let (again, none) = Protection::establish(&updated, &[2u8; 32]);
    assert_eq!(again, p);
    assert!(none.is_none());
}

#[test]
fn fresh_key_text_is_drawn_at_random() {
    let c = Config::default();
    let (p1, u1) = Protection::for_config(&c);
    let (p2, u2) = Protection::for_config(&c);
    assert_ne!(p1, p2);
    assert_ne!(u1.unwrap().encryption_key, u2.unwrap().encryption_key);
    let mut off = Config::default();
    off.encryption_enabled = false;
    let (p, u) = Protection::for_config(&off);
    assert_eq!(p, Protection::Plain);
    assert!(u.is_none());
}

fn preview(s: &str) -> String {
    HistoryEntry::new(s.to_string(), 0, 1).preview()
}

#[test]
fn preview_takes_first_line() {
    assert_eq!(preview("first\nsecond"), "first");
    assert_eq!(preview("dos\r\nline"), "dos");
    assert_eq!(preview("plain"), "plain");
    assert_eq!(preview(""), "");
    assert_eq!(preview("\nafter"), "");
}

#[test]
fn preview_shortens_long_lines() {
    let long = "x".repeat(60);
    let p = preview(&long);
    assert_eq!(p, format!("{}...", "x".repeat(47)));
    let fifty = "y".repeat(50);
    assert_eq!(preview(&fifty), fifty);
    let fifty_one = "z".repeat(51);
    assert_eq!(preview(&fifty_one), format!("{}...", "z".repeat(47)));
}

#[test]
fn preview_cuts_on_character_boundary() {
    // 30 two-byte characters: 60 bytes; 23 of them fit in 47 bytes
    let wide = "é".repeat(30);
    assert_eq!(preview(&wide), format!("{}...", "é".repeat(23)));
}
