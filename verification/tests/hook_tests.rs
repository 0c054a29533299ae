use bgwm::config::Config;
use bgwm::hook::{
    binding_key, bindings_map, chord_release_keys, hook_event_disposition, is_ours, is_win_key, key_event_flags, key_transition, ActiveChord,
    HookDisposition, HookState, HotkeyAction, KeyDownOutcome, HC_ACTION, KeyUpOutcome, INJECTED_MARKER, VK_CONTROL, VK_LWIN, VK_RWIN, VK_SHIFT,
    WM_KEYDOWN, WM_KEYUP, WM_SYSKEYDOWN, WM_SYSKEYUP,
};
use bgwm::hotkeys::Modifiers;

fn default_state() -> HookState {
    let c = Config::default();
    HookState::new(c.switch_bindings().unwrap(), c.move_bindings().unwrap())
}

fn none() -> Modifiers {
    Modifiers::from_parts(false, false, false, false)
}

#[test]
fn win_number_switches_without_start_menu() {
    let mut s = default_state();
    assert_eq!(s.key_down(VK_LWIN, &none()), KeyDownOutcome { swallow: true, action: None });
    assert_eq!(
        s.key_down('2' as u16, &none()),
        KeyDownOutcome { swallow: true, action: Some(HotkeyAction::SwitchWorkspace(2)) }
    );
    assert_eq!(s.key_up('2' as u16), KeyUpOutcome::Swallow);
    let chord = ActiveChord { main_vk: '2' as u16, modifiers: Modifiers::from_parts(false, false, false, true), win_vk: VK_LWIN };
    assert_eq!(s.key_up(VK_LWIN), KeyUpOutcome::SwallowReleaseChord(chord));
    assert_eq!(chord_release_keys(&chord), vec!['2' as u16, VK_LWIN]);
}

#[test]
fn win_alone_still_opens_start() {
    let mut s = default_state();
    s.key_down(VK_RWIN, &none());
    assert_eq!(s.key_up(VK_RWIN), KeyUpOutcome::SwallowTapWin(VK_RWIN));
    assert_eq!(s.key_up(VK_RWIN), KeyUpOutcome::PassThrough);
}

#[test]
fn unbound_combo_passes_through() {
    let mut s = default_state();
    s.key_down(VK_LWIN, &none());
    assert_eq!(s.key_down('E' as u16, &none()), KeyDownOutcome { swallow: false, action: None });
    assert_eq!(s.key_up('E' as u16), KeyUpOutcome::PassThrough);
}

#[test]
fn win_shift_number_moves_window() {
    let mut s = default_state();
    s.key_down(VK_LWIN, &none());
    let shift = Modifiers::from_parts(false, false, true, false);
    assert_eq!(
        s.key_down('6' as u16, &shift),
        KeyDownOutcome { swallow: true, action: Some(HotkeyAction::MoveWindowToWorkspace(6)) }
    );
    if let KeyUpOutcome::SwallowReleaseChord(chord) = s.key_up(VK_LWIN) {
        assert_eq!(chord_release_keys(&chord), vec!['6' as u16, VK_SHIFT, VK_LWIN]);
        s.chord_released(true);
        assert_eq!(s.key_up(VK_LWIN), KeyUpOutcome::Swallow);
        assert_eq!(s.key_up(VK_LWIN), KeyUpOutcome::PassThrough);
    } else {
        panic!("expected a chord release");
    }
}

#[test]
fn non_win_hotkey_swallows_its_release() {
    let c = Config::default();
    let mut switch = c.switch_bindings().unwrap();
    switch.push((5, bgwm::hotkeys::Hotkey::parse("Ctrl+Alt+F5").unwrap()));
    let mut s = HookState::new(switch, vec![]);
    let ca = Modifiers::from_parts(true, true, false, false);
    assert_eq!(s.key_down(0x74, &ca), KeyDownOutcome { swallow: true, action: Some(HotkeyAction::SwitchWorkspace(5)) });
    assert_eq!(s.key_up(0x74), KeyUpOutcome::Swallow);
    assert_eq!(s.key_up(0x74), KeyUpOutcome::PassThrough);
}

#[test]
fn key_helpers() {
    assert!(is_win_key(VK_LWIN) && is_win_key(VK_RWIN) && !is_win_key(VK_CONTROL));
    assert!(is_ours(INJECTED_MARKER));
    assert!(!is_ours(0));
    assert_eq!(key_transition(WM_KEYDOWN), Some(true));
    assert_eq!(key_transition(WM_SYSKEYDOWN), Some(true));
    assert_eq!(key_transition(WM_KEYUP), Some(false));
    assert_eq!(key_transition(WM_SYSKEYUP), Some(false));
    assert_eq!(key_transition(0x0200), None);
    assert_eq!(key_event_flags(VK_LWIN, true), 3);
    assert_eq!(key_event_flags('A' as u16, false), 0);
    let m = Modifiers::from_parts(false, false, false, true);
    assert_ne!(binding_key(&m, '2' as u16), binding_key(&none(), '2' as u16));
    let map = bindings_map(Config::default().switch_bindings().unwrap());
    assert_eq!(map.get(&binding_key(&m, '3' as u16)), Some(&3));
}

#[test]
fn hook_event_dispositions() {
    assert_eq!(hook_event_disposition(HC_ACTION, INJECTED_MARKER, true, WM_KEYUP), HookDisposition::Swallow);
    assert_eq!(hook_event_disposition(HC_ACTION, INJECTED_MARKER, false, WM_KEYDOWN), HookDisposition::Swallow);
    assert_eq!(hook_event_disposition(HC_ACTION, 0, true, WM_KEYDOWN), HookDisposition::PassThrough);
    assert_eq!(hook_event_disposition(1, INJECTED_MARKER, false, WM_KEYDOWN), HookDisposition::PassThrough);
    assert_eq!(hook_event_disposition(-1, 0, false, WM_KEYDOWN), HookDisposition::PassThrough);
    assert_eq!(hook_event_disposition(HC_ACTION, 0, false, WM_KEYDOWN), HookDisposition::KeyDown);
    assert_eq!(hook_event_disposition(HC_ACTION, 0, false, WM_SYSKEYDOWN), HookDisposition::KeyDown);
    assert_eq!(hook_event_disposition(HC_ACTION, 0, false, WM_KEYUP), HookDisposition::KeyUp);
    assert_eq!(hook_event_disposition(HC_ACTION, 0, false, WM_SYSKEYUP), HookDisposition::KeyUp);
    assert_eq!(hook_event_disposition(HC_ACTION, 0, false, 0x0200), HookDisposition::PassThrough);
}
