use heimdall::config::Arrow;
use heimdall::config::Binding;
use heimdall::config::encode_all;
use heimdall::config::parses_as_u32;
use heimdall::InvalidBinding;

fn binding(key: Option<&str>, arrow: Option<Arrow>, modifiers: &[&str], command: &str) -> Binding {
    Binding {
        key: key.map(|k| k.to_string()),
        arrow,
        modifiers: modifiers.iter().map(|m| m.to_string()).collect(),
        command: command.to_string(),
    }
}

#[test]
fn key_with_modifiers_encodes_lowercased_prefix() {
    let b = binding(Some("c"), None, &["Ctrl", "Shift"], "echo hi");
    assert_eq!(b.encode(), Ok("ctrl+shift+KeyC".to_string()));
}

#[test]
fn digit_key_without_modifiers() {
    let b = binding(Some("5"), None, &[], "echo hi");
    assert_eq!(b.encode(), Ok("Digit5".to_string()));
}

#[test]
fn named_key_with_modifier() {
    let b = binding(Some("enter"), None, &["Ctrl"], "echo hi");
    assert_eq!(b.encode(), Ok("ctrl+Enter".to_string()));
}

#[test]
fn equals_sign_is_named_key() {
    let b = binding(Some("="), None, &[], "echo hi");
    assert_eq!(b.encode(), Ok("Equal".to_string()));
}

#[test]
fn arrow_without_modifiers() {
    let b = binding(None, Some(Arrow::Up), &[], "echo hi");
    assert_eq!(b.encode(), Ok("ArrowUp".to_string()));
}

#[test]
fn arrow_with_modifier() {
    let b = binding(None, Some(Arrow::Left), &["Shift"], "echo hi");
    assert_eq!(b.encode(), Ok("shift+ArrowLeft".to_string()));
}

#[test]
fn neither_key_nor_arrow_is_invalid() {
    let b = binding(None, None, &["Ctrl"], "echo hi");
    assert_eq!(b.encode(), Err(InvalidBinding));
}

#[test]
fn neither_key_nor_arrow_without_modifiers_is_invalid() {
    let b = binding(None, None, &[], "echo hi");
    assert_eq!(b.encode(), Err(InvalidBinding));
}

#[test]
fn digit_rule_precedes_letter_fallback() {
    let b = binding(Some("5"), None, &[], "echo hi");
    let code = b.encode().unwrap();
    assert_eq!(code, "Digit5");
    assert_ne!(code, "Key5");
}

#[test]
fn digit_rule_keeps_the_key_text() {
    let b = binding(Some("05"), None, &[], "echo hi");
    assert_eq!(b.encode(), Ok("Digit05".to_string()));
    let plus = binding(Some("+5"), None, &[], "echo hi");
    assert_eq!(plus.encode(), Ok("Digit+5".to_string()));
}

#[test]
fn value_beyond_u32_falls_back_to_letter_rule() {
    assert!(parses_as_u32("4294967295"));
    assert!(!parses_as_u32("4294967296"));
    let b = binding(Some("4294967296"), None, &[], "echo hi");
    assert_eq!(b.encode(), Ok("Key4294967296".to_string()));
}

#[test]
fn parses_as_u32_matches_std_parse() {
    for s in ["0", "5", "42", "+7", "4294967295", "4294967296", "", "+", "-5", "1a", "a1", " 5"] {
        assert_eq!(parses_as_u32(s), s.parse::<u32>().is_ok(), "disagree on {s:?}");
    }
}

#[test]
fn named_key_lookup_is_case_insensitive() {
    let b = binding(Some("ESC"), None, &[], "echo hi");
    assert_eq!(b.encode(), Ok("Escape".to_string()));
    let b2 = binding(Some("Escape"), None, &[], "echo hi");
    assert_eq!(b2.encode(), Ok("Escape".to_string()));
    let b3 = binding(Some("BackSpace"), None, &[], "echo hi");
    assert_eq!(b3.encode(), Ok("Backspace".to_string()));
}

#[test]
fn named_key_table_entries() {
    for (key, code) in [
        ("enter", "Enter"),
        ("esc", "Escape"),
        ("escape", "Escape"),
        ("space", "Space"),
        ("=", "Equal"),
        ("equal", "Equal"),
        ("tab", "Tab"),
        ("backspace", "Backspace"),
        ("delete", "Delete"),
    ] {
        assert_eq!(Binding::try_parse_to_code(key), Some(code.to_string()));
    }
    assert_eq!(Binding::try_parse_to_code("q"), None);
}

#[test]
fn letter_fallback_uppercases_the_key() {
    let b = binding(Some("c"), None, &[], "echo hi");
    assert_eq!(b.encode(), Ok("KeyC".to_string()));
    let b2 = binding(Some("abc"), None, &[], "echo hi");
    assert_eq!(b2.encode(), Ok("KeyABC".to_string()));
}

#[test]
fn format_with_modifiers_joins_and_lowercases() {
    let b = binding(Some("c"), None, &["Ctrl", "Alt", "Super"], "echo hi");
    assert_eq!(b.format_with_modifiers("KeyC"), "ctrl+alt+super+KeyC");
    let none = binding(Some("c"), None, &[], "echo hi");
    assert_eq!(none.format_with_modifiers("KeyC"), "KeyC");
}

#[test]
fn arrow_names_round_trip() {
    for (a, n) in [
        (Arrow::Up, "Up"),
        (Arrow::Down, "Down"),
        (Arrow::Left, "Left"),
        (Arrow::Right, "Right"),
    ] {
        assert_eq!(a.name(), n);
        assert_eq!(Arrow::from_name(n), Some(a));
    }
    assert_eq!(Arrow::from_name("up"), None);
    assert_eq!(Arrow::from_name("North"), None);
}

#[test]
fn encode_all_rejects_on_any_invalid_binding() {
    let good = binding(Some("c"), None, &["Ctrl"], "echo hi");
    let bad = binding(None, None, &[], "echo bye");
    assert_eq!(encode_all(&vec![good.clone(), bad]), Err(InvalidBinding));
    let codes = encode_all(&vec![good]).unwrap();
    assert_eq!(codes, vec!["ctrl+KeyC".to_string()]);
}

#[test]
fn encode_all_keeps_order() {
    let bs = vec![
        binding(Some("c"), None, &["Ctrl", "Shift"], "echo hi"),
        binding(Some("d"), None, &["Ctrl"], "echo bye"),
    ];
    let codes = encode_all(&bs).unwrap();
    assert_eq!(codes, vec!["ctrl+shift+KeyC".to_string(), "ctrl+KeyD".to_string()]);
}
