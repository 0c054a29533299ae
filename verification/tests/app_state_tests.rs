use bgwm::app_state::{
    config_reload_due, next_background_wake, poll_key_buffer_cleanup, schedule_key_buffer_cleanup, CleanupDecision,
    WorkspaceState,
};
use bgwm::virtual_desktop::DesktopEventKind;

#[test]
fn key_buffer_cleanup_steps() {
    assert_eq!(schedule_key_buffer_cleanup(None, true, 1_000), Some(1_250));
    assert_eq!(schedule_key_buffer_cleanup(Some(5), false, 1_000), Some(5));
    assert_eq!(poll_key_buffer_cleanup(None, 10, true, false), CleanupDecision { due: None, clear_buffer: false });
    assert_eq!(poll_key_buffer_cleanup(Some(20), 10, true, false), CleanupDecision { due: Some(20), clear_buffer: false });
    assert_eq!(poll_key_buffer_cleanup(Some(10), 10, false, false), CleanupDecision { due: None, clear_buffer: false });
    assert_eq!(poll_key_buffer_cleanup(Some(10), 10, true, true), CleanupDecision { due: Some(260), clear_buffer: false });
    assert_eq!(poll_key_buffer_cleanup(Some(10), 10, true, false), CleanupDecision { due: None, clear_buffer: true });
}

#[test]
fn wake_times() {
    assert_eq!(next_background_wake(1_000, None), 1_200);
    assert_eq!(next_background_wake(1_000, Some(1_100)), 1_100);
    assert_eq!(next_background_wake(1_000, Some(5_000)), 1_200);
}

#[test]
fn config_reload() {
    assert!(config_reload_due(None, 0));
    assert!(config_reload_due(Some(5), 6));
    assert!(!config_reload_due(Some(5), 5));
    assert!(!config_reload_due(Some(5), 4));
}

#[test]
fn workspace_state_follows_events() {
    let mut s = WorkspaceState::new();
    assert_eq!((s.current, s.count, s.menu_rebuild_pending), (1, 1, false));
    s.init(None, None);
    assert_eq!((s.current, s.count), (1, 4));
    assert!(s.on_desktop_event(&DesktopEventKind::DesktopChanged { new_index: Some(2) }, None, None));
    assert_eq!(s.current, 3);
    assert!(!s.on_desktop_event(&DesktopEventKind::DesktopDestroyed, Some(2), Some(2)));
    assert_eq!((s.current, s.count, s.menu_rebuild_pending), (2, 2, true));
    assert!(s.take_menu_rebuild(Some(3), Some(3)));
    assert_eq!((s.current, s.count, s.menu_rebuild_pending), (3, 3, false));
    assert!(!s.take_menu_rebuild(Some(9), Some(9)));
    assert_eq!(s.count, 3);
    s.refresh(None, Some(8));
    assert_eq!(s.current, 3);
}
