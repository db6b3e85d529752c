use spacerun::bindings::{Key, KeyCode, ModifiersState, Shortcut};

fn parse(s: &str) -> Shortcut {
    match Shortcut::from_str(s) {
        Ok(sc) => sc,
        Err(_) => panic!("{} should be a valid shortcut", s),
    }
}

#[test]
fn canonical_shortcuts_read_and_write_back_unchanged() {
    for s in ["a", "z", "0", "9", "SPC", "C-a", "M-b", "S-c", "L-d", "C-M-S-L-z", "C-S-5", "M-L-SPC"] {
        assert_eq!(parse(s).to_string(), s);
    }
}

#[test]
fn modifiers_are_written_in_fixed_order() {
    assert_eq!(parse("L-S-M-C-q").to_string(), "C-M-S-L-q");
    assert_eq!(parse("M-C-a").to_string(), "C-M-a");
    assert_eq!(parse("C-C-a").to_string(), "C-a");
}

#[test]
fn parse_gives_key_and_modifiers() {
    let sc = parse("C-S-x");
    assert_eq!(
        sc,
        Shortcut {
            key_code: KeyCode(Key::X),
            modifiers: ModifiersState { ctrl: true, alt: false, shift: true, logo: false },
        }
    );
    assert_eq!(parse("7").key_code, KeyCode(Key::Key7));
    assert_eq!(parse("SPC").key_code, KeyCode(Key::Space));
}

#[test]
fn empty_shortcut_is_rejected() {
    assert!(Shortcut::from_str("").is_err());
}

#[test]
fn unknown_modifier_token_is_rejected() {
    assert!(Shortcut::from_str("Z-a").is_err());
    assert!(Shortcut::from_str("c-a").is_err());
    assert!(Shortcut::from_str("-a").is_err());
}

#[test]
fn unknown_key_is_rejected() {
    assert!(Shortcut::from_str("C-").is_err());
    assert!(Shortcut::from_str("C-ab").is_err());
    assert!(Shortcut::from_str("A").is_err());
    assert!(Shortcut::from_str("space").is_err());
    assert!(Shortcut::from_str("a-").is_err());
}

#[test]
fn chords_are_equal_only_with_equal_fields() {
    assert_eq!(parse("C-a"), parse("C-a"));
    assert_ne!(parse("C-a"), parse("a"));
    assert_ne!(parse("C-a"), parse("M-a"));
    assert_ne!(parse("C-a"), parse("C-b"));
}

#[test]
fn key_codes_read_and_write() {
    assert_eq!(KeyCode::from_str("k"), Ok(KeyCode(Key::K)));
    assert_eq!(KeyCode::from_str("SPC"), Ok(KeyCode(Key::Space)));
    assert!(KeyCode::from_str("SP").is_err());
    assert!(KeyCode::from_str("").is_err());
    assert_eq!(KeyCode(Key::Key0).to_string(), "0");
    assert_eq!(KeyCode(Key::Space).to_string(), "SPC");
}

#[test]
fn shortcut_error_has_a_message() {
    match Shortcut::from_str("Z-a") {
        Err(e) => assert_eq!(e.to_string(), "Not a valid shortcut identifier"),
        Ok(_) => panic!("Z-a should be rejected"),
    }
}
