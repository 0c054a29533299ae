//! Decisions of the low-level keyboard hook.
//!
//! The hook swallows a physical Win key-down and waits. A registered combo
//! pressed while Win is held fires its action and becomes the active chord;
//! releasing Win afterwards clears the chord with marked synthetic key-ups.
//! Releasing Win with no chord replays a Win tap so the Start menu opens as
//! usual. Injected events pass through untouched; marked ones are swallowed.
//! This module holds the state and the transitions; the OS plumbing
//! (installing the hook, `SendInput`, key-state queries) lives with the
//! program that drives it.

use vstd::prelude::*;
use std::collections::HashMap;
use crate::hotkeys::{Hotkey, Modifiers};

verus! {

broadcast use {
    vstd::std_specs::hash::group_hash_axioms,
    vstd::std_specs::hash::axiom_u32_obeys_hash_table_key_model,
    vstd::std_specs::hash::axiom_random_state_builds_valid_hashers,
};

pub const VK_LWIN: u16 = 0x5B;
pub const VK_RWIN: u16 = 0x5C;
pub const VK_SHIFT: u16 = 0x10;
pub const VK_CONTROL: u16 = 0x11;
pub const VK_MENU: u16 = 0x12;

/// Tag carried by the synthetic chord-release events.
pub const INJECTED_MARKER: usize = 0x4247_574D;

pub const WM_KEYDOWN: u32 = 0x0100;
pub const WM_KEYUP: u32 = 0x0101;
pub const WM_SYSKEYDOWN: u32 = 0x0104;
pub const WM_SYSKEYUP: u32 = 0x0105;

pub const KEYEVENTF_EXTENDEDKEY: u32 = 0x0001;
pub const KEYEVENTF_KEYUP: u32 = 0x0002;

#[derive(Debug, Clone, Copy, PartialEq, Eq, Structural)]
pub enum HotkeyAction {
    SwitchWorkspace(u32),
    MoveWindowToWorkspace(u32),
}

#[derive(Debug, Clone)]
pub enum HotkeyEvent {
    Triggered(HotkeyAction),
    HookError(String),
}

#[derive(Debug, Clone)]
pub enum HotkeyEngineError {
    HookInstall(String),
}

/// A combo fired while Win was held, remembered until Win is released.
#[derive(Debug, Clone, Copy, PartialEq, Eq, Structural)]
pub struct ActiveChord {
    pub main_vk: u16,
    pub modifiers: Modifiers,
    pub win_vk: u16,
}

pub open spec fn is_win(vk: u16) -> bool {
    vk == VK_LWIN || vk == VK_RWIN
}

pub fn is_win_key(vk: u16) -> (r: bool)
    ensures
        r == is_win(vk),
{
    vk == VK_LWIN || vk == VK_RWIN
}

/// Whether an event carries the marker of our own synthetic key-ups.
pub fn is_ours(extra_info: usize) -> (r: bool)
    ensures
        r == (extra_info == INJECTED_MARKER),
{
    extra_info == INJECTED_MARKER
}

/// Key transition of a hook message: `Some(true)` for a press, `Some(false)`
/// for a release, `None` for anything else.
pub fn key_transition(msg: u32) -> (r: Option<bool>)
    ensures
        r == (if msg == WM_KEYDOWN || msg == WM_SYSKEYDOWN {
            Some(true)
        } else if msg == WM_KEYUP || msg == WM_SYSKEYUP {
            Some(false)
        } else {
            None::<bool>
        }),
{
    if msg == WM_KEYDOWN || msg == WM_SYSKEYDOWN {
        Some(true)
    } else if msg == WM_KEYUP || msg == WM_SYSKEYUP {
        Some(false)
    } else {
        None
    }
}

/// The hook code of a keyboard event to act on.
pub const HC_ACTION: i32 = 0;

/// What the hook does with an event before looking at the key.
#[derive(Debug, Clone, Copy, PartialEq, Eq, Structural)]
pub enum HookDisposition {
    /// Hand the event on unchanged.
    PassThrough,
    /// Hide the event: our own marked key-ups never reach the shell and
    /// never re-enter the state.
    Swallow,
    /// A physical key press, for `HookState::key_down`.
    KeyDown,
    /// A physical key release, for `HookState::key_up`.
    KeyUp,
}

pub open spec fn disposition_spec(code: i32, extra_info: usize, injected: bool, msg: u32) -> HookDisposition {
    if code != HC_ACTION {
        HookDisposition::PassThrough
    } else if extra_info == INJECTED_MARKER {
        HookDisposition::Swallow
    } else if injected {
        HookDisposition::PassThrough
    } else if msg == WM_KEYUP || msg == WM_SYSKEYUP {
        HookDisposition::KeyUp
    } else if msg == WM_KEYDOWN || msg == WM_SYSKEYDOWN {
        HookDisposition::KeyDown
    } else {
        HookDisposition::PassThrough
    }
}

/// The disposition of a low-level keyboard event (hook code, extra info,
/// injected flag and message): other codes pass; our marked events are
/// swallowed; other injected events (the Start-menu tap) pass; releases and
/// presses go to the state; anything else passes.
pub fn hook_event_disposition(code: i32, extra_info: usize, injected: bool, msg: u32) -> (r: HookDisposition)
    ensures
        r == disposition_spec(code, extra_info, injected, msg),
{
    if code != HC_ACTION {
        HookDisposition::PassThrough
    } else if is_ours(extra_info) {
        HookDisposition::Swallow
    } else if injected {
        HookDisposition::PassThrough
    } else {
        match key_transition(msg) {
            Some(false) => HookDisposition::KeyUp,
            Some(true) => HookDisposition::KeyDown,
            None => HookDisposition::PassThrough,
        }
    }
}

/// The key a binding is looked up by: modifier bits above the key code.
pub open spec fn binding_code(m: Modifiers, vk: u16) -> u32 {
    ((if m.ctrl { 0x8_0000u32 } else { 0u32 }) + (if m.alt { 0x4_0000u32 } else { 0u32 }) + (if m.shift {
        0x2_0000u32
    } else {
        0u32
    }) + (if m.win { 0x1_0000u32 } else { 0u32 }) + vk as u32) as u32
}

pub fn binding_key(m: &Modifiers, vk: u16) -> (r: u32)
    ensures
        r == binding_code(*m, vk),
{
    let mut r: u32 = vk as u32;
    if m.ctrl {
        r = r + 0x8_0000;
    }
    if m.alt {
        r = r + 0x4_0000;
    }
    if m.shift {
        r = r + 0x2_0000;
    }
    if m.win {
        r = r + 0x1_0000;
    }
    r
}

/// Different modifier sets or keys give different lookup keys.
pub proof fn lemma_binding_code_injective(m1: Modifiers, k1: u16, m2: Modifiers, k2: u16)
    requires
        binding_code(m1, k1) == binding_code(m2, k2),
    ensures
        m1 == m2 && k1 == k2,
{
}

/// The lookup table a binding list turns into; a later binding for the same
/// combo replaces an earlier one.
pub open spec fn bindings_table(b: Seq<(u32, Modifiers, u16)>) -> Map<u32, u32>
    decreases b.len(),
{
    if b.len() == 0 {
        Map::empty()
    } else {
        bindings_table(b.drop_last()).insert(binding_code(b.last().1, b.last().2), b.last().0)
    }
}

pub open spec fn binding_triples(b: Seq<(u32, Hotkey)>) -> Seq<(u32, Modifiers, u16)> {
    Seq::new(b.len(), |i: int| (b[i].0, b[i].1.modifiers, b[i].1.key))
}

pub fn bindings_map(bindings: Vec<(u32, Hotkey)>) -> (m: HashMap<u32, u32>)
    ensures
        m@ == bindings_table(binding_triples(bindings@)),
{
    let ghost t = binding_triples(bindings@);
    let mut m: HashMap<u32, u32> = HashMap::new();
    let mut i: usize = 0;
    assert(t.take(0) =~= Seq::<(u32, Modifiers, u16)>::empty());
    while i < bindings.len()
        invariant
            i <= bindings.len(),
            t == binding_triples(bindings@),
            m@ == bindings_table(t.take(i as int)),
        decreases bindings.len() - i,
    {
        assert(t.take(i + 1).drop_last() =~= t.take(i as int));
        let k = binding_key(&bindings[i].1.modifiers, bindings[i].1.key);
        m.insert(k, bindings[i].0);
        i = i + 1;
    }
    assert(t.take(bindings.len() as int) =~= t);
    m
}

/// What the hook does with a key press.
#[derive(Debug, Clone, Copy, PartialEq, Eq, Structural)]
pub struct KeyDownOutcome {
    /// Hide the event from the rest of the system.
    pub swallow: bool,
    /// Action to report.
    pub action: Option<HotkeyAction>,
}

/// What the hook does with a key release.
#[derive(Debug, Clone, Copy, PartialEq, Eq, Structural)]
pub enum KeyUpOutcome {
    PassThrough,
    Swallow,
    /// Swallow, then send marked key-ups for the chord's keys and report
    /// whether Win is still physically down.
    SwallowReleaseChord(ActiveChord),
    /// Swallow, then replay an unmarked Win tap with this key.
    SwallowTapWin(u16),
}

/// State shared by the hook callbacks.
pub struct HookState {
    pub switch: HashMap<u32, u32>,
    pub moves: HashMap<u32, u32>,
    /// Win key-down was swallowed; waiting for a combo or the release.
    pub win_held: Option<u16>,
    pub active_chord: Option<ActiveChord>,
    /// Main key of a non-Win hotkey whose release is swallowed.
    pub suppressed_key: Option<u16>,
    /// Swallow one more physical Win release after a chord was cleared.
    pub swallow_extra_win_up: bool,
}

/// Hook state without the binding tables.
pub struct HookFlags {
    pub win_held: Option<u16>,
    pub active_chord: Option<ActiveChord>,
    pub suppressed_key: Option<u16>,
    pub swallow_extra_win_up: bool,
}

/// Modifiers in effect for a press: the physical state, with Win counted as
/// held while a swallowed Win press is pending.
pub open spec fn effective_modifiers(win_held: bool, physical: Modifiers) -> Modifiers {
    Modifiers {
        ctrl: physical.ctrl,
        alt: physical.alt,
        shift: physical.shift,
        win: win_held || physical.win,
    }
}

pub fn modifiers_with_win_held(win_held: bool, physical: &Modifiers) -> (m: Modifiers)
    ensures
        m == effective_modifiers(win_held, *physical),
{
    Modifiers::from_parts(physical.ctrl, physical.alt, physical.shift, win_held || physical.win)
}

/// The action bound to a combo: switch bindings first, then move bindings.
pub open spec fn matched_action(sw: Map<u32, u32>, mv: Map<u32, u32>, code: u32) -> Option<
    HotkeyAction,
> {
    if sw.contains_key(code) {
        Some(HotkeyAction::SwitchWorkspace(sw[code]))
    } else if mv.contains_key(code) {
        Some(HotkeyAction::MoveWindowToWorkspace(mv[code]))
    } else {
        None
    }
}

/// Transition on a key press.
pub open spec fn key_down_spec(
    f: HookFlags,
    sw: Map<u32, u32>,
    mv: Map<u32, u32>,
    vk: u16,
    physical: Modifiers,
) -> (HookFlags, KeyDownOutcome) {
    if is_win(vk) {
        (
            HookFlags { win_held: Some(vk), active_chord: None, ..f },
            KeyDownOutcome { swallow: true, action: None },
        )
    } else {
        let m = effective_modifiers(f.win_held is Some, physical);
        match matched_action(sw, mv, binding_code(m, vk)) {
            None => (f, KeyDownOutcome { swallow: false, action: None }),
            Some(a) => match f.win_held {
                Some(w) => (
                    HookFlags {
                        active_chord: Some(ActiveChord { main_vk: vk, modifiers: m, win_vk: w }),
                        ..f
                    },
                    KeyDownOutcome { swallow: true, action: Some(a) },
                ),
                None => (
                    HookFlags { suppressed_key: Some(vk), ..f },
                    KeyDownOutcome { swallow: true, action: Some(a) },
                ),
            },
        }
    }
}

/// Transition on a key release.
pub open spec fn key_up_spec(f: HookFlags, vk: u16) -> (HookFlags, KeyUpOutcome) {
    if is_win(vk) {
        if f.swallow_extra_win_up {
            (HookFlags { swallow_extra_win_up: false, ..f }, KeyUpOutcome::Swallow)
        } else if let Some(chord) = f.active_chord {
            (
                HookFlags { active_chord: None, win_held: None, ..f },
                KeyUpOutcome::SwallowReleaseChord(chord),
            )
        } else if f.win_held is Some {
            (HookFlags { win_held: None, ..f }, KeyUpOutcome::SwallowTapWin(vk))
        } else {
            (f, KeyUpOutcome::PassThrough)
        }
    } else if f.active_chord matches Some(c) && c.main_vk == vk {
        (f, KeyUpOutcome::Swallow)
    } else if f.suppressed_key == Some(vk) {
        (HookFlags { suppressed_key: None, ..f }, KeyUpOutcome::Swallow)
    } else {
        (f, KeyUpOutcome::PassThrough)
    }
}

/// A chord stays active only while a swallowed Win press is pending.
pub open spec fn flags_ok(f: HookFlags) -> bool {
    f.active_chord is Some ==> f.win_held is Some
}

impl HookState {
    pub open spec fn flags(&self) -> HookFlags {
        HookFlags {
            win_held: self.win_held,
            active_chord: self.active_chord,
            suppressed_key: self.suppressed_key,
            swallow_extra_win_up: self.swallow_extra_win_up,
        }
    }

    /// A fresh state for the given switch and move bindings.
    pub fn new(switch: Vec<(u32, Hotkey)>, moves: Vec<(u32, Hotkey)>) -> (s: Self)
        ensures
            s.switch@ == bindings_table(binding_triples(switch@)),
            s.moves@ == bindings_table(binding_triples(moves@)),
            s.win_held is None,
            s.active_chord is None,
            s.suppressed_key is None,
            !s.swallow_extra_win_up,
    {
        HookState {
            switch: bindings_map(switch),
            moves: bindings_map(moves),
            win_held: None,
            active_chord: None,
            suppressed_key: None,
            swallow_extra_win_up: false,
        }
    }

    /// Replaces the bindings, keeping the key state.
    pub fn update_bindings(&mut self, switch: Vec<(u32, Hotkey)>, moves: Vec<(u32, Hotkey)>)
        ensures
            final(self).switch@ == bindings_table(binding_triples(switch@)),
            final(self).moves@ == bindings_table(binding_triples(moves@)),
            final(self).flags() == old(self).flags(),
    {
        self.switch = bindings_map(switch);
        self.moves = bindings_map(moves);
    }

    fn lookup(&self, code: u32) -> (r: Option<HotkeyAction>)
        ensures
            r == matched_action(self.switch@, self.moves@, code),
    {
        match self.switch.get(&code) {
            Some(ws) => Some(HotkeyAction::SwitchWorkspace(*ws)),
            None => match self.moves.get(&code) {
                Some(ws) => Some(HotkeyAction::MoveWindowToWorkspace(*ws)),
                None => None,
            },
        }
    }

    /// A key press; `physical` is the modifier keys physically down.
    pub fn key_down(&mut self, vk: u16, physical: &Modifiers) -> (r: KeyDownOutcome)
        ensures
            (final(self).flags(), r) == key_down_spec(
                old(self).flags(),
                old(self).switch@,
                old(self).moves@,
                vk,
                *physical,
            ),
            final(self).switch@ == old(self).switch@,
            final(self).moves@ == old(self).moves@,
    {
        if is_win_key(vk) {
            self.win_held = Some(vk);
            self.active_chord = None;
            return KeyDownOutcome { swallow: true, action: None };
        }
        let modifiers = modifiers_with_win_held(self.win_held.is_some(), physical);
        let code = binding_key(&modifiers, vk);
        let action = match self.lookup(code) {
            Some(a) => a,
            None => {
                return KeyDownOutcome { swallow: false, action: None };
            },
        };
        match self.win_held {
            Some(win_vk) => {
                self.active_chord = Some(ActiveChord { main_vk: vk, modifiers, win_vk });
            },
            None => {
                self.suppressed_key = Some(vk);
            },
        }
        KeyDownOutcome { swallow: true, action: Some(action) }
    }

    /// A key release.
    pub fn key_up(&mut self, vk: u16) -> (r: KeyUpOutcome)
        ensures
            (final(self).flags(), r) == key_up_spec(old(self).flags(), vk),
            final(self).switch@ == old(self).switch@,
            final(self).moves@ == old(self).moves@,
    {
        if is_win_key(vk) {
            if self.swallow_extra_win_up {
                self.swallow_extra_win_up = false;
                return KeyUpOutcome::Swallow;
            }
            if let Some(chord) = self.active_chord {
                self.active_chord = None;
                self.win_held = None;
                return KeyUpOutcome::SwallowReleaseChord(chord);
            }
            if self.win_held.is_some() {
                self.win_held = None;
                return KeyUpOutcome::SwallowTapWin(vk);
            }
            return KeyUpOutcome::PassThrough;
        }
        if let Some(chord) = self.active_chord {
            if chord.main_vk == vk {
                return KeyUpOutcome::Swallow;
            }
        }
        if self.suppressed_key == Some(vk) {
            self.suppressed_key = None;
            return KeyUpOutcome::Swallow;
        }
        KeyUpOutcome::PassThrough
    }

    /// After a chord's keys were released: if Win is still physically down,
    /// its coming release is swallowed too.
    pub fn chord_released(&mut self, win_still_down: bool)
        ensures
            final(self).flags() == (HookFlags {
                swallow_extra_win_up: old(self).swallow_extra_win_up || win_still_down,
                ..old(self).flags()
            }),
            final(self).switch@ == old(self).switch@,
            final(self).moves@ == old(self).moves@,
    {
        if win_still_down {
            self.swallow_extra_win_up = true;
        }
    }
}

/// Keys a chord release lifts, in order: the main key, Shift, Ctrl, Alt as
/// held, then the Win key.
pub open spec fn chord_release_spec(c: ActiveChord) -> Seq<u16> {
    seq![c.main_vk] + (if c.modifiers.shift { seq![VK_SHIFT] } else { Seq::empty() }) + (
    if c.modifiers.ctrl {
        seq![VK_CONTROL]
    } else {
        Seq::empty()
    }) + (if c.modifiers.alt { seq![VK_MENU] } else { Seq::empty() }) + seq![c.win_vk]
}

pub fn chord_release_keys(chord: &ActiveChord) -> (r: Vec<u16>)
    ensures
        r@ == chord_release_spec(*chord),
{
    let mut r: Vec<u16> = Vec::new();
    r.push(chord.main_vk);
    let ghost a = r@;
    if chord.modifiers.shift {
        r.push(VK_SHIFT);
    }
    let ghost b = r@;
    if chord.modifiers.ctrl {
        r.push(VK_CONTROL);
    }
    let ghost c = r@;
    if chord.modifiers.alt {
        r.push(VK_MENU);
    }
    r.push(chord.win_vk);
    let ghost e = Seq::<u16>::empty();
    assert(b =~= a + (if chord.modifiers.shift { seq![VK_SHIFT] } else { e }));
    assert(c =~= b + (if chord.modifiers.ctrl { seq![VK_CONTROL] } else { e }));
    assert(r@ =~= chord_release_spec(*chord));
    r
}

/// Flags of a synthetic key event: key-up when releasing, extended for the
/// Win keys.
pub fn key_event_flags(vk: u16, key_up: bool) -> (r: u32)
    ensures
        r == (if key_up { KEYEVENTF_KEYUP } else { 0u32 }) + (if is_win(vk) {
            KEYEVENTF_EXTENDEDKEY
        } else {
            0u32
        }),
{
    let mut flags: u32 = if key_up { KEYEVENTF_KEYUP } else { 0 };
    if is_win_key(vk) {
        flags = flags + KEYEVENTF_EXTENDEDKEY;
    }
    flags
}

// ---------------------------------------------------------------------------
// Laws
// ---------------------------------------------------------------------------

/// Every transition keeps a chord only while Win is held.
pub proof fn lemma_flags_preserved(
    f: HookFlags,
    sw: Map<u32, u32>,
    mv: Map<u32, u32>,
    vk: u16,
    physical: Modifiers,
    still_down: bool,
)
    requires
        flags_ok(f),
    ensures
        flags_ok(key_down_spec(f, sw, mv, vk, physical).0),
        flags_ok(key_up_spec(f, vk).0),
        flags_ok(HookFlags { swallow_extra_win_up: f.swallow_extra_win_up || still_down, ..f }),
{
}

/// Pressing and releasing Win alone, with no pending extra release, replays
/// a Win tap (the Start menu opens) and leaves Win no longer held.
pub proof fn lemma_win_alone_taps(
    f: HookFlags,
    sw: Map<u32, u32>,
    mv: Map<u32, u32>,
    win: u16,
    physical: Modifiers,
)
    requires
        is_win(win),
        !f.swallow_extra_win_up,
    ensures
        ({
            let (f1, d) = key_down_spec(f, sw, mv, win, physical);
            let (f2, u) = key_up_spec(f1, win);
            &&& d == KeyDownOutcome { swallow: true, action: None }
            &&& u == KeyUpOutcome::SwallowTapWin(win)
            &&& f2.win_held is None
            &&& f2.active_chord is None
        }),
{
}

/// A registered combo pressed while Win is held fires its action and is
/// swallowed, its key release is swallowed, and the Win release clears the
/// chord instead of opening the Start menu.
pub proof fn lemma_win_combo_overrides(
    f: HookFlags,
    sw: Map<u32, u32>,
    mv: Map<u32, u32>,
    win: u16,
    key: u16,
    physical: Modifiers,
)
    requires
        is_win(win),
        !is_win(key),
        !f.swallow_extra_win_up,
        matched_action(sw, mv, binding_code(effective_modifiers(true, physical), key)) is Some,
    ensures
        ({
            let (f1, _) = key_down_spec(f, sw, mv, win, physical);
            let (f2, d) = key_down_spec(f1, sw, mv, key, physical);
            let (f3, u1) = key_up_spec(f2, key);
            let (f4, u2) = key_up_spec(f3, win);
            &&& d.swallow
            &&& d.action == matched_action(
                sw,
                mv,
                binding_code(effective_modifiers(true, physical), key),
            )
            &&& u1 == KeyUpOutcome::Swallow
            &&& u2 == KeyUpOutcome::SwallowReleaseChord(
                ActiveChord {
                    main_vk: key,
                    modifiers: effective_modifiers(true, physical),
                    win_vk: win,
                },
            )
            &&& f4.win_held is None
            &&& f4.active_chord is None
        }),
{
}

/// An unregistered combo passes through and changes nothing.
pub proof fn lemma_unbound_passes(
    f: HookFlags,
    sw: Map<u32, u32>,
    mv: Map<u32, u32>,
    vk: u16,
    physical: Modifiers,
)
    requires
        !is_win(vk),
        matched_action(sw, mv, binding_code(effective_modifiers(f.win_held is Some, physical), vk))
            is None,
    ensures
        key_down_spec(f, sw, mv, vk, physical) == (f, KeyDownOutcome { swallow: false, action: None }),
{
}

/// The last binding for a combo is the one the table holds.
pub proof fn lemma_table_lookup(b: Seq<(u32, Modifiers, u16)>, i: int)
    requires
        0 <= i < b.len(),
        forall|j: int| i < j < b.len() ==> (#[trigger] b[j]).1 != b[i].1 || b[j].2 != b[i].2,
    ensures
        bindings_table(b).contains_key(binding_code(b[i].1, b[i].2)),
        bindings_table(b)[binding_code(b[i].1, b[i].2)] == b[i].0,
    decreases b.len(),
{
    if i < b.len() - 1 {
        assert forall|j: int| i < j < b.drop_last().len() implies (#[trigger] b.drop_last()[j]).1
            != b.drop_last()[i].1 || b.drop_last()[j].2 != b.drop_last()[i].2 by {
            assert(b.drop_last()[j] == b[j]);
        }
        lemma_table_lookup(b.drop_last(), i);
        let l = b.last();
        if binding_code(l.1, l.2) == binding_code(b[i].1, b[i].2) {
            lemma_binding_code_injective(l.1, l.2, b[i].1, b[i].2);
            assert(b[b.len() - 1].1 != b[i].1 || b[b.len() - 1].2 != b[i].2);
        }
    }
}


/// Every key in a binding table comes from some binding of the list.
proof fn lemma_table_key_has_binding(b: Seq<(u32, Modifiers, u16)>, code: u32)
    ensures
        bindings_table(b).contains_key(code) ==> exists|i: int|
            0 <= i < b.len() && binding_code((#[trigger] b[i]).1, b[i].2) == code,
    decreases b.len(),
{
    if b.len() > 0 {
        lemma_table_key_has_binding(b.drop_last(), code);
        if bindings_table(b.drop_last()).contains_key(code) {
            let i = choose|i: int|
                0 <= i < b.drop_last().len() && binding_code((#[trigger] b.drop_last()[i]).1, b.drop_last()[i].2)
                    == code;
            assert(b.drop_last()[i] == b[i]);
        } else if bindings_table(b).contains_key(code) {
            assert(b[b.len() - 1] == b.last());
        }
    }
}

/// A key press fires an action only for a binding of that very key whose
/// modifiers are exactly the ones held: Ctrl, Alt and Shift as physically
/// down, Win when physically down or while a swallowed Win press is
/// pending. So a press with Ctrl held never fires a binding without Ctrl,
/// and one without Ctrl never fires a binding with it.
pub proof fn lemma_press_matches_held_modifiers(
    f: HookFlags,
    switch: Seq<(u32, Modifiers, u16)>,
    moves: Seq<(u32, Modifiers, u16)>,
    vk: u16,
    physical: Modifiers,
)
    ensures
        ({
            let held = Modifiers {
                ctrl: physical.ctrl,
                alt: physical.alt,
                shift: physical.shift,
                win: physical.win || f.win_held is Some,
            };
            key_down_spec(f, bindings_table(switch), bindings_table(moves), vk, physical).1.action is Some
                ==> (exists|i: int| 0 <= i < switch.len() && (#[trigger] switch[i]).1 == held && switch[i].2 == vk)
                || (exists|i: int| 0 <= i < moves.len() && (#[trigger] moves[i]).1 == held && moves[i].2 == vk)
        }),
        (forall|i: int| 0 <= i < switch.len() ==> (#[trigger] switch[i]).1.ctrl != physical.ctrl)
            && (forall|i: int| 0 <= i < moves.len() ==> (#[trigger] moves[i]).1.ctrl != physical.ctrl)
            ==> key_down_spec(f, bindings_table(switch), bindings_table(moves), vk, physical).1.action is None,
{
    let m = effective_modifiers(f.win_held is Some, physical);
    let code = binding_code(m, vk);
    lemma_table_key_has_binding(switch, code);
    lemma_table_key_has_binding(moves, code);
    if !is_win(vk) {
        if bindings_table(switch).contains_key(code) {
            let i = choose|i: int| 0 <= i < switch.len() && binding_code((#[trigger] switch[i]).1, switch[i].2) == code;
            lemma_binding_code_injective(switch[i].1, switch[i].2, m, vk);
        } else if bindings_table(moves).contains_key(code) {
            let i = choose|i: int| 0 <= i < moves.len() && binding_code((#[trigger] moves[i]).1, moves[i].2) == code;
            lemma_binding_code_injective(moves[i].1, moves[i].2, m, vk);
        }
    }
}

} // verus!
