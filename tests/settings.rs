use mmry::config::HotkeyConfig;
use mmry::help::{Context, KeyBinding};
use mmry::hotkey::{key_code, parse_hotkey_config, HotkeyError, KeyCode};
use mmry::text::matches_query;
use mmry::theme::{get_theme_path, hex_to_color, Rgb, Theme};

fn hk(key: &str) -> HotkeyConfig {
    HotkeyConfig { ctrl: true, alt: false, shift: true, key: key.to_string() }
}

#[test]
fn hotkey_names_ignore_case() {
    let h = parse_hotkey_config(&hk("C")).unwrap();
    assert_eq!(h.code, KeyCode::KeyC);
    assert!(h.ctrl && !h.alt && h.shift);
    assert!(!h.has_no_modifiers());
    assert_eq!(parse_hotkey_config(&hk("PageDown")).unwrap().code, KeyCode::PageDown);
    assert_eq!(parse_hotkey_config(&hk("f12")).unwrap().code, KeyCode::F12);
    assert_eq!(parse_hotkey_config(&hk("7")).unwrap().code, KeyCode::Digit7);
}

#[test]
fn unsupported_hotkey_name() {
    let e = parse_hotkey_config(&hk("Hyper")).unwrap_err();
    assert_eq!(e, HotkeyError::UnsupportedKey("Hyper".to_string()));
    assert_eq!(e.message(), "Unsupported key: Hyper");
    assert_eq!(key_code("F13"), None);
    assert_eq!(key_code("space"), Some(KeyCode::Space));
}

#[test]
fn default_hotkey() {
    let h = HotkeyConfig::default();
    assert!(h.ctrl && h.alt && !h.shift);
    assert_eq!(parse_hotkey_config(&h).unwrap().code, KeyCode::KeyC);
}

#[test]
fn hex_colors() {
    assert_eq!(hex_to_color("#46465A"), Rgb { r: 0x46, g: 0x46, b: 0x5a });
    assert_eq!(hex_to_color("ff0080"), Rgb { r: 255, g: 0, b: 128 });
    assert_eq!(hex_to_color("##0a0B0c"), Rgb { r: 10, g: 11, b: 12 });
    assert_eq!(hex_to_color("#zz0000"), Rgb { r: 0, g: 0, b: 0 });
    assert_eq!(hex_to_color("#+f0000"), Rgb { r: 15, g: 0, b: 0 });
    assert_eq!(hex_to_color("#fff"), Rgb { r: 255, g: 255, b: 255 });
    assert_eq!(hex_to_color(""), Rgb { r: 255, g: 255, b: 255 });
}

#[test]
fn hex_colors_count_bytes() {
    // three two-byte characters: six bytes, no hex digits
    assert_eq!(hex_to_color("ééé"), Rgb { r: 0, g: 0, b: 0 });
    // six characters but seven bytes
    assert_eq!(hex_to_color("éaaaaa"), Rgb { r: 255, g: 255, b: 255 });
    assert_eq!(hex_to_color("#ffé00"), Rgb { r: 255, g: 0, b: 0 });
}

#[test]
fn theme_path_joins_like_paths() {
    assert_eq!(get_theme_path("/cfg/themes/", "dark"), "/cfg/themes/dark.json");
    assert_eq!(get_theme_path("", "dark"), "dark.json");
    assert_eq!(get_theme_path("/cfg/themes", "/abs/light"), "/abs/light.json");
    assert_eq!(get_theme_path("/cfg/themes", ""), "/cfg/themes/.json");
}

#[test]
fn default_theme_and_path() {
    let t = Theme::default();
    assert_eq!(t.background_color, "#000000");
    assert_eq!(t.selected_border_color, "#6496FF");
    assert_eq!(hex_to_color(&t.selected_text_color), Rgb { r: 200, g: 200, b: 255 });
    assert_eq!(get_theme_path("/cfg/mmry/themes", "dark"), "/cfg/mmry/themes/dark.json");
}

#[test]
fn key_binding_fields() {
    let k = KeyBinding::new("gg", "Go to first item", Context::ClipsList);
    assert_eq!(k.key, "gg");
    assert_eq!(k.description, "Go to first item");
    assert_eq!(k.context, Context::ClipsList);
}

#[test]
fn matching_ignores_case() {
    assert!(matches_query("PyThOn", "pyth"));
    assert!(matches_query("abc", ""));
    assert!(!matches_query("abc", "abcd"));
    assert!(matches_query("ÄBC", "äb"));
}
