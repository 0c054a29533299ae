//! Workspace numbering and the decisions around virtual-desktop calls:
//! index validation, events, and which windows to focus after a switch.
//! Workspaces are numbered from 1 for the user; the desktop service counts
//! from 0.

use vstd::prelude::*;
use std::collections::HashMap;
use crate::text::{decimal, push_decimal, push_str_chars};
use crate::hook::HotkeyAction;

verus! {

broadcast use {
    vstd::std_specs::hash::group_hash_axioms,
    vstd::std_specs::hash::axiom_u32_obeys_hash_table_key_model,
    vstd::std_specs::hash::axiom_random_state_builds_valid_hashers,
};

/// Number of the first workspace shown to the user.
pub const WORKSPACE_INDEX_BASE: u32 = 1;

#[derive(Debug, Clone, PartialEq, Eq)]
pub enum VirtualDesktopError {
    Api(String),
    InvalidIndex { index: u32, min: u32, max: u32 },
    NoFocusedWindow,
}

pub open spec fn desktop_error_text(e: VirtualDesktopError) -> Seq<char> {
    match e {
        VirtualDesktopError::Api(s) => "virtual desktop API error: "@ + s@,
        VirtualDesktopError::InvalidIndex { index, min, max } => "invalid workspace index "@
            + decimal(index as nat) + " (valid range: "@ + decimal(min as nat) + "..="@ + decimal(
            max as nat,
        ) + ")"@,
        VirtualDesktopError::NoFocusedWindow => "no focused window"@,
    }
}

impl VirtualDesktopError {
    /// The error's message.
    pub fn message(&self) -> (r: String)
        ensures
            r@ == desktop_error_text(*self),
    {
        let mut s = String::new();
        match self {
            VirtualDesktopError::Api(msg) => {
                push_str_chars(&mut s, "virtual desktop API error: ");
                push_str_chars(&mut s, msg.as_str());
            },
            VirtualDesktopError::InvalidIndex { index, min, max } => {
                push_str_chars(&mut s, "invalid workspace index ");
                push_decimal(&mut s, *index);
                push_str_chars(&mut s, " (valid range: ");
                push_decimal(&mut s, *min);
                push_str_chars(&mut s, "..=");
                push_decimal(&mut s, *max);
                push_str_chars(&mut s, ")");
            },
            VirtualDesktopError::NoFocusedWindow => {
                push_str_chars(&mut s, "no focused window");
            },
        }
        assert(s@ =~= desktop_error_text(*self));
        s
    }
}

/// Checks a 1-based workspace index against the number of workspaces (as
/// the desktop service reported it) and gives the service's 0-based index.
pub fn validate_index(index: u32, count: Result<u32, VirtualDesktopError>) -> (r: Result<
    u32,
    VirtualDesktopError,
>)
    ensures
        index < WORKSPACE_INDEX_BASE ==> r == Err::<u32, VirtualDesktopError>(
            VirtualDesktopError::InvalidIndex {
                index,
                min: WORKSPACE_INDEX_BASE,
                max: match count {
                    Ok(c) => c,
                    Err(_) => WORKSPACE_INDEX_BASE,
                },
            },
        ),
        index >= WORKSPACE_INDEX_BASE ==> match count {
            Err(e) => r == Err::<u32, VirtualDesktopError>(e),
            Ok(c) => if index > c {
                r == Err::<u32, VirtualDesktopError>(
                    VirtualDesktopError::InvalidIndex { index, min: WORKSPACE_INDEX_BASE, max: c },
                )
            } else {
                r == Ok::<u32, VirtualDesktopError>((index - WORKSPACE_INDEX_BASE) as u32)
            },
        },
{
    if index < WORKSPACE_INDEX_BASE {
        let max = match count {
            Ok(c) => c,
            Err(_) => WORKSPACE_INDEX_BASE,
        };
        return Err(VirtualDesktopError::InvalidIndex { index, min: WORKSPACE_INDEX_BASE, max });
    }
    match count {
        Err(e) => Err(e),
        Ok(c) => if index > c {
            Err(VirtualDesktopError::InvalidIndex { index, min: WORKSPACE_INDEX_BASE, max: c })
        } else {
            Ok(index - WORKSPACE_INDEX_BASE)
        },
    }
}

/// The 1-based workspace of a 0-based desktop index.
pub fn workspace_of_desktop(desktop_index: u32) -> (r: u32)
    requires
        desktop_index < u32::MAX,
    ensures
        r == desktop_index + WORKSPACE_INDEX_BASE,
{
    desktop_index + WORKSPACE_INDEX_BASE
}

/// A virtual-desktop event, with the indexes it carries.
#[derive(Debug, Clone, Copy, PartialEq, Eq, Structural)]
pub enum DesktopEventKind {
    /// The current desktop changed; the new desktop's 0-based index, when
    /// the service could tell it.
    DesktopChanged { new_index: Option<u32> },
    /// A desktop was moved to a new 0-based position.
    DesktopMoved { new_index: u32 },
    DesktopCreated,
    DesktopDestroyed,
    DesktopNameChanged,
    DesktopWallpaperChanged,
    WindowChanged,
}

pub open spec fn event_workspace_spec(event: DesktopEventKind, current: Option<u32>) -> Option<u32> {
    match event {
        DesktopEventKind::DesktopChanged { new_index } => match new_index {
            Some(i) => Some((i + WORKSPACE_INDEX_BASE) as u32),
            None => None,
        },
        DesktopEventKind::DesktopMoved { new_index } => Some((new_index + WORKSPACE_INDEX_BASE) as u32),
        _ => current,
    }
}

/// The 1-based workspace an event points at. Events that carry no index
/// fall back to the current workspace (`current`, 1-based, when known).
pub fn workspace_index_from_event(event: &DesktopEventKind, current: Option<u32>) -> (r: Option<u32>)
    requires
        event matches DesktopEventKind::DesktopChanged { new_index: Some(i) } ==> i < u32::MAX,
        event matches DesktopEventKind::DesktopMoved { new_index } ==> new_index < u32::MAX,
    ensures
        r == event_workspace_spec(*event, current),
{
    match event {
        DesktopEventKind::DesktopChanged { new_index } => match new_index {
            Some(i) => Some(*i + WORKSPACE_INDEX_BASE),
            None => None,
        },
        DesktopEventKind::DesktopMoved { new_index } => Some(*new_index + WORKSPACE_INDEX_BASE),
        _ => current,
    }
}

/// Whether the number of desktops may have changed.
pub fn desktop_count_may_have_changed(event: &DesktopEventKind) -> (r: bool)
    ensures
        r == (*event == DesktopEventKind::DesktopCreated || *event
            == DesktopEventKind::DesktopDestroyed),
{
    match event {
        DesktopEventKind::DesktopCreated | DesktopEventKind::DesktopDestroyed => true,
        _ => false,
    }
}

/// A workspace number brought into `1..=count` (1 when there are none).
pub open spec fn clamp_spec(workspace: u32, count: u32) -> u32 {
    let m = if workspace < count { workspace } else { count };
    if m < WORKSPACE_INDEX_BASE { WORKSPACE_INDEX_BASE } else { m }
}

pub fn clamp_workspace(workspace: u32, count: u32) -> (r: u32)
    ensures
        r == clamp_spec(workspace, count),
        WORKSPACE_INDEX_BASE <= r,
        count >= WORKSPACE_INDEX_BASE ==> r <= count,
        WORKSPACE_INDEX_BASE <= workspace <= count ==> r == workspace,
{
    let m = if workspace < count { workspace } else { count };
    if m < WORKSPACE_INDEX_BASE { WORKSPACE_INDEX_BASE } else { m }
}

/// What the app does for a hotkey.
#[derive(Debug, Clone, Copy, PartialEq, Eq, Structural)]
pub enum HotkeyPlan {
    /// The workspace is already current.
    Nothing,
    Switch(u32),
    /// Move the focused window, then switch there if `switch_after`.
    MoveFocused { workspace: u32, switch_after: bool },
}

/// The plan for a hotkey action, given the current workspace.
pub fn hotkey_plan(action: HotkeyAction, current_workspace: u32) -> (r: HotkeyPlan)
    ensures
        r == (match action {
            HotkeyAction::SwitchWorkspace(ws) => if ws == current_workspace {
                HotkeyPlan::Nothing
            } else {
                HotkeyPlan::Switch(ws)
            },
            HotkeyAction::MoveWindowToWorkspace(ws) => HotkeyPlan::MoveFocused {
                workspace: ws,
                switch_after: ws != current_workspace,
            },
        }),
{
    match action {
        HotkeyAction::SwitchWorkspace(ws) => if ws == current_workspace {
            HotkeyPlan::Nothing
        } else {
            HotkeyPlan::Switch(ws)
        },
        HotkeyAction::MoveWindowToWorkspace(ws) => HotkeyPlan::MoveFocused {
            workspace: ws,
            switch_after: ws != current_workspace,
        },
    }
}

/// Which window had the focus on each workspace, and the window to focus
/// after the next switch.
pub struct FocusMemory {
    last_by_workspace: HashMap<u32, isize>,
    pending: Option<isize>,
}

pub struct FocusMemoryView {
    pub last_by_workspace: Map<u32, isize>,
    pub pending: Option<isize>,
}

impl View for FocusMemory {
    type V = FocusMemoryView;

    closed spec fn view(&self) -> FocusMemoryView {
        FocusMemoryView { last_by_workspace: self.last_by_workspace@, pending: self.pending }
    }
}

/// The windows to try to focus after a desktop change, in order: the
/// pending one, then the one last focused on the current workspace.
pub open spec fn focus_candidates_spec(m: FocusMemoryView, current: Option<u32>) -> Seq<isize> {
    let first: Seq<isize> = match m.pending {
        Some(h) => seq![h],
        None => Seq::empty(),
    };
    let second: Seq<isize> = match current {
        Some(ws) => if m.last_by_workspace.contains_key(ws) {
            seq![m.last_by_workspace[ws]]
        } else {
            Seq::empty()
        },
        None => Seq::empty(),
    };
    first + second
}

impl FocusMemory {
    pub fn new() -> (r: FocusMemory)
        ensures
            r@.last_by_workspace == Map::<u32, isize>::empty(),
            r@.pending is None,
    {
        FocusMemory { last_by_workspace: HashMap::new(), pending: None }
    }

    /// Records the focused window (the owner root of the foreground window,
    /// when there is one) for a workspace; pinned windows are not recorded.
    pub fn remember_focused_workspace(&mut self, workspace: u32, focused: Option<isize>, pinned: bool)
        ensures
            final(self)@.pending == old(self)@.pending,
            final(self)@.last_by_workspace == (match focused {
                Some(h) => if pinned {
                    old(self)@.last_by_workspace
                } else {
                    old(self)@.last_by_workspace.insert(workspace, h)
                },
                None => old(self)@.last_by_workspace,
            }),
    {
        if let Some(h) = focused {
            if !pinned {
                self.last_by_workspace.insert(workspace, h);
            }
        }
    }

    /// The window to focus after the next desktop change.
    pub fn set_pending_focus(&mut self, hwnd: isize)
        ensures
            final(self)@.pending == Some(hwnd),
            final(self)@.last_by_workspace == old(self)@.last_by_workspace,
    {
        self.pending = Some(hwnd);
    }

    /// The last focused window recorded for a workspace.
    pub fn last_focused(&self, workspace: u32) -> (r: Option<isize>)
        ensures
            r == (if self@.last_by_workspace.contains_key(workspace) {
                Some(self@.last_by_workspace[workspace])
            } else {
                None
            }),
    {
        match self.last_by_workspace.get(&workspace) {
            Some(h) => Some(*h),
            None => None,
        }
    }

    /// After a desktop change: takes the pending window and gives the
    /// windows to try, in order (the caller falls back to the topmost main
    /// window of the desktop when none of them can take the focus).
    pub fn focus_candidates(&mut self, current_workspace: Option<u32>) -> (r: Vec<isize>)
        ensures
            r@ == focus_candidates_spec(old(self)@, current_workspace),
            final(self)@.pending is None,
            final(self)@.last_by_workspace == old(self)@.last_by_workspace,
    {
        let mut r: Vec<isize> = Vec::new();
        let mut taken: Option<isize> = None;
        std::mem::swap(&mut taken, &mut self.pending);
        if let Some(h) = taken {
            r.push(h);
        }
        if let Some(ws) = current_workspace {
            if let Some(h) = self.last_by_workspace.get(&ws) {
                r.push(*h);
            }
        }
        assert(r@ =~= focus_candidates_spec(old(self)@, current_workspace));
        r
    }
}

} // verus!
