//! The app's own bookkeeping between events: which workspace is current,
//! when the tray menu must be rebuilt, when the pressed-key buffer is
//! cleared, when to wake up next, and when the configuration is read again.
//! Times are milliseconds on the caller's monotonic clock.

use vstd::prelude::*;
use crate::virtual_desktop::{
    clamp_spec, clamp_workspace, desktop_count_may_have_changed, event_workspace_spec,
    workspace_index_from_event, DesktopEventKind, WORKSPACE_INDEX_BASE,
};

verus! {

/// Delay between a workspace action and the clearing of the pressed-key
/// buffer.
pub const KEY_BUFFER_CLEANUP_DELAY_MS: u64 = 250;

/// The longest sleep of the event loop.
pub const BACKGROUND_POLL_INTERVAL_MS: u64 = 200;

/// Workspace count assumed when the desktop service cannot tell it at
/// start-up.
pub const FALLBACK_WORKSPACE_COUNT: u32 = 4;

/// After a workspace action: the cleanup is due after the delay, when the
/// hotkey engine runs; otherwise nothing changes.
pub fn schedule_key_buffer_cleanup(due: Option<u64>, hotkeys_running: bool, now_ms: u64) -> (r: Option<u64>)
    requires
        now_ms <= u64::MAX - KEY_BUFFER_CLEANUP_DELAY_MS,
    ensures
        r == (if hotkeys_running {
            Some((now_ms + KEY_BUFFER_CLEANUP_DELAY_MS) as u64)
        } else {
            due
        }),
{
    if hotkeys_running {
        Some(now_ms + KEY_BUFFER_CLEANUP_DELAY_MS)
    } else {
        due
    }
}

/// The next step of the key-buffer cleanup.
#[derive(Debug, Clone, Copy, PartialEq, Eq, Structural)]
pub struct CleanupDecision {
    /// When the cleanup is due next.
    pub due: Option<u64>,
    /// Clear the pressed-key buffer now.
    pub clear_buffer: bool,
}

/// Polls the cleanup: nothing before it is due; dropped without a hotkey
/// engine; put off while keys are held; otherwise the buffer is cleared.
pub fn poll_key_buffer_cleanup(
    due: Option<u64>,
    now_ms: u64,
    hotkeys_running: bool,
    any_keys_down: bool,
) -> (r: CleanupDecision)
    requires
        now_ms <= u64::MAX - KEY_BUFFER_CLEANUP_DELAY_MS,
    ensures
        r == (match due {
            None => CleanupDecision { due: None, clear_buffer: false },
            Some(d) => if d > now_ms {
                CleanupDecision { due: Some(d), clear_buffer: false }
            } else if !hotkeys_running {
                CleanupDecision { due: None, clear_buffer: false }
            } else if any_keys_down {
                CleanupDecision {
                    due: Some((now_ms + KEY_BUFFER_CLEANUP_DELAY_MS) as u64),
                    clear_buffer: false,
                }
            } else {
                CleanupDecision { due: None, clear_buffer: true }
            },
        }),
{
    match due {
        None => CleanupDecision { due: None, clear_buffer: false },
        Some(d) => if d > now_ms {
            CleanupDecision { due: Some(d), clear_buffer: false }
        } else if !hotkeys_running {
            CleanupDecision { due: None, clear_buffer: false }
        } else if any_keys_down {
            CleanupDecision { due: Some(now_ms + KEY_BUFFER_CLEANUP_DELAY_MS), clear_buffer: false }
        } else {
            CleanupDecision { due: None, clear_buffer: true }
        },
    }
}

/// When the event loop wakes next: after the poll interval, or earlier
/// when the key-buffer cleanup is due before.
pub fn next_background_wake(now_ms: u64, cleanup_due: Option<u64>) -> (r: u64)
    requires
        now_ms <= u64::MAX - BACKGROUND_POLL_INTERVAL_MS,
    ensures
        r == (match cleanup_due {
            Some(d) => if d < now_ms + BACKGROUND_POLL_INTERVAL_MS {
                d
            } else {
                (now_ms + BACKGROUND_POLL_INTERVAL_MS) as u64
            },
            None => (now_ms + BACKGROUND_POLL_INTERVAL_MS) as u64,
        }),
        r <= now_ms + BACKGROUND_POLL_INTERVAL_MS,
{
    let default_wake = now_ms + BACKGROUND_POLL_INTERVAL_MS;
    match cleanup_due {
        Some(d) => if d < default_wake {
            d
        } else {
            default_wake
        },
        None => default_wake,
    }
}

/// Whether the configuration file is read again: when its modification time
/// is later than the last one seen (or none was seen).
pub fn config_reload_due(last_seen: Option<u128>, modified: u128) -> (r: bool)
    ensures
        r == (match last_seen {
            Some(prev) => modified > prev,
            None => true,
        }),
{
    match last_seen {
        Some(prev) => modified > prev,
        None => true,
    }
}

/// The workspace the app shows as current, the number of workspaces, and
/// whether the tray menu waits to be rebuilt.
#[derive(Debug, Clone, Copy, PartialEq, Eq, Structural)]
pub struct WorkspaceState {
    pub current: u32,
    pub count: u32,
    pub menu_rebuild_pending: bool,
}

impl WorkspaceState {
    /// Before the desktop service was asked anything.
    pub fn new() -> (r: WorkspaceState)
        ensures
            r.current == WORKSPACE_INDEX_BASE,
            r.count == WORKSPACE_INDEX_BASE,
            !r.menu_rebuild_pending,
    {
        WorkspaceState {
            current: WORKSPACE_INDEX_BASE,
            count: WORKSPACE_INDEX_BASE,
            menu_rebuild_pending: false,
        }
    }

    /// At start-up, from what the desktop service told (count and 1-based
    /// current workspace, when it could).
    pub fn init(&mut self, count: Option<u32>, current: Option<u32>)
        ensures
            final(self).count == (match count {
                Some(c) => c,
                None => FALLBACK_WORKSPACE_COUNT,
            }),
            final(self).current == (match current {
                Some(c) => c,
                None => WORKSPACE_INDEX_BASE,
            }),
            final(self).menu_rebuild_pending == old(self).menu_rebuild_pending,
    {
        self.count = match count {
            Some(c) => c,
            None => FALLBACK_WORKSPACE_COUNT,
        };
        self.current = match current {
            Some(c) => c,
            None => WORKSPACE_INDEX_BASE,
        };
    }

    /// Takes in a new reading of the desktop service; the current workspace
    /// is brought into `1..=count`.
    pub fn refresh(&mut self, count: Option<u32>, current: Option<u32>)
        ensures
            final(self).count == (match count {
                Some(c) => c,
                None => old(self).count,
            }),
            final(self).current == (match current {
                Some(c) => clamp_spec(c, final(self).count),
                None => old(self).current,
            }),
            final(self).menu_rebuild_pending == old(self).menu_rebuild_pending,
    {
        if let Some(c) = count {
            self.count = c;
        }
        if let Some(cur) = current {
            self.current = clamp_workspace(cur, self.count);
        }
    }

    /// A desktop event. When desktops were created or destroyed, the count
    /// is read again and the menu is to be rebuilt; when the event points at
    /// a workspace, it becomes current. Returns whether the tray icon is to
    /// be refreshed now (the menu rebuild refreshes it otherwise).
    pub fn on_desktop_event(
        &mut self,
        event: &DesktopEventKind,
        count_now: Option<u32>,
        current_now: Option<u32>,
    ) -> (refresh_icon: bool)
        requires
            event matches DesktopEventKind::DesktopChanged { new_index: Some(i) } ==> i < u32::MAX,
            event matches DesktopEventKind::DesktopMoved { new_index } ==> new_index < u32::MAX,
        ensures
            ({
                let changed = *event == DesktopEventKind::DesktopCreated || *event
                    == DesktopEventKind::DesktopDestroyed;
                let count = if changed && count_now is Some {
                    count_now->0
                } else {
                    old(self).count
                };
                &&& final(self).count == count
                &&& final(self).menu_rebuild_pending == (old(self).menu_rebuild_pending || changed)
                &&& final(self).current == (match event_workspace_spec(*event, current_now) {
                    Some(ws) => clamp_spec(ws, count),
                    None => old(self).current,
                })
                &&& refresh_icon == (event_workspace_spec(*event, current_now) is Some && !changed)
            }),
    {
        let count_changed = desktop_count_may_have_changed(event);
        if count_changed {
            if let Some(c) = count_now {
                self.count = c;
            }
            self.menu_rebuild_pending = true;
        }
        match workspace_index_from_event(event, current_now) {
            Some(ws) => {
                self.current = clamp_workspace(ws, self.count);
                !count_changed
            },
            None => false,
        }
    }

    /// Whether the tray menu is rebuilt now; if so the flag is cleared and
    /// the state is refreshed from the new reading.
    pub fn take_menu_rebuild(&mut self, count: Option<u32>, current: Option<u32>) -> (r: bool)
        ensures
            r == old(self).menu_rebuild_pending,
            !final(self).menu_rebuild_pending,
            !r ==> *final(self) == *old(self),
            r ==> final(self).count == (match count {
                Some(c) => c,
                None => old(self).count,
            }),
            r ==> final(self).current == (match current {
                Some(c) => clamp_spec(c, final(self).count),
                None => old(self).current,
            }),
    {
        if !self.menu_rebuild_pending {
            return false;
        }
        self.menu_rebuild_pending = false;
        self.refresh(count, current);
        true
    }
}

} // verus!
