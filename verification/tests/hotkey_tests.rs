use bgwm::hotkeys::{format_hotkey, Hotkey, HotkeyParseError, Modifiers};
use bgwm::hook::modifiers_with_win_held;

#[test]
fn parse_win_number() {
    let hk = Hotkey::parse("Win+2").unwrap();
    assert!(hk.modifiers.win);
    assert_eq!(hk.key, '2' as u16);
    assert_eq!(hk.display, "Win+2");
}

#[test]
fn parse_win_shift_number() {
    let hk = Hotkey::parse("Win+Shift+6").unwrap();
    assert!(hk.modifiers.win);
    assert!(hk.modifiers.shift);
    assert_eq!(hk.key, '6' as u16);
}

#[test]
fn normalize_super_alias() {
    let hk = Hotkey::parse("Super+3").unwrap();
    assert!(hk.modifiers.win);
}

#[test]
fn rejects_empty() {
    assert_eq!(Hotkey::parse(""), Err(HotkeyParseError::Empty));
}

#[test]
fn win_held_counts_as_win_modifier() {
    let m = modifiers_with_win_held(true, &Modifiers::from_parts(false, false, false, false));
    assert!(m.win);
}

#[test]
fn parse_errors_and_messages() {
    assert_eq!(Hotkey::parse("Win+"), Err(HotkeyParseError::MissingKey));
    assert_eq!(Hotkey::parse("Ctrl+Shift"), Err(HotkeyParseError::MissingKey));
    let e = Hotkey::parse("Win+Banana").unwrap_err();
    assert_eq!(e, HotkeyParseError::UnknownToken("Banana".to_string()));
    assert_eq!(e.message(), "unknown key token: Banana");
    assert_eq!(HotkeyParseError::Empty.message(), "empty hotkey");
    assert_eq!(HotkeyParseError::MissingKey.message(), "missing key after modifiers");
}

#[test]
fn display_is_canonical_and_reparses() {
    let hk = Hotkey::parse(" shift + super + a ").unwrap();
    assert_eq!(hk.display, "Shift+Win+a");
    let again = Hotkey::parse(&hk.display).unwrap();
    assert_eq!(again, hk);
    assert_eq!(Hotkey::normalize("control+alt+f5"), Ok("Ctrl+Alt+f5".to_string()));
}

#[test]
fn modifiers_and_format() {
    let m = Modifiers::from_parts(true, false, true, true);
    assert!(m.ctrl && !m.alt && m.shift && m.win);
    assert_eq!(format_hotkey(&m, "9"), "Ctrl+Shift+Win+9");
}
