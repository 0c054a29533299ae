use bgwm::hook::HotkeyAction;
use bgwm::virtual_desktop::{
    clamp_workspace, desktop_count_may_have_changed, hotkey_plan, validate_index, workspace_index_from_event,
    workspace_of_desktop, DesktopEventKind, FocusMemory, HotkeyPlan, VirtualDesktopError, WORKSPACE_INDEX_BASE,
};

#[test]
fn remember_and_pending_focus_do_not_panic() {
    let mut focus = FocusMemory::new();
    focus.remember_focused_workspace(1, None, false);
    focus.set_pending_focus(0);
}

#[test]
fn focus_candidates_in_order() {
    let mut focus = FocusMemory::new();
    focus.remember_focused_workspace(2, Some(222), false);
    focus.remember_focused_workspace(3, Some(333), true);
    assert_eq!(focus.last_focused(2), Some(222));
    assert_eq!(focus.last_focused(3), None);
    focus.set_pending_focus(999);
    assert_eq!(focus.focus_candidates(Some(2)), vec![999, 222]);
    assert_eq!(focus.focus_candidates(Some(2)), vec![222]);
    assert_eq!(focus.focus_candidates(None), Vec::<isize>::new());
}

#[test]
fn index_validation() {
    assert_eq!(validate_index(1, Ok(4)), Ok(0));
    assert_eq!(validate_index(4, Ok(4)), Ok(3));
    assert_eq!(validate_index(5, Ok(4)), Err(VirtualDesktopError::InvalidIndex { index: 5, min: 1, max: 4 }));
    assert_eq!(validate_index(0, Ok(4)), Err(VirtualDesktopError::InvalidIndex { index: 0, min: 1, max: 4 }));
    assert_eq!(
        validate_index(0, Err(VirtualDesktopError::Api("x".to_string()))),
        Err(VirtualDesktopError::InvalidIndex { index: 0, min: 1, max: 1 })
    );
    assert_eq!(
        validate_index(2, Err(VirtualDesktopError::Api("down".to_string()))),
        Err(VirtualDesktopError::Api("down".to_string()))
    );
}

#[test]
fn error_messages() {
    assert_eq!(
        VirtualDesktopError::InvalidIndex { index: 7, min: 1, max: 4 }.message(),
        "invalid workspace index 7 (valid range: 1..=4)"
    );
    assert_eq!(VirtualDesktopError::Api("E_FAIL".to_string()).message(), "virtual desktop API error: E_FAIL");
    assert_eq!(VirtualDesktopError::NoFocusedWindow.message(), "no focused window");
}

#[test]
fn events_point_at_workspaces() {
    assert_eq!(workspace_index_from_event(&DesktopEventKind::DesktopChanged { new_index: Some(2) }, Some(1)), Some(3));
    assert_eq!(workspace_index_from_event(&DesktopEventKind::DesktopChanged { new_index: None }, Some(1)), None);
    assert_eq!(workspace_index_from_event(&DesktopEventKind::DesktopMoved { new_index: 0 }, None), Some(1));
    assert_eq!(workspace_index_from_event(&DesktopEventKind::WindowChanged, Some(4)), Some(4));
    assert!(desktop_count_may_have_changed(&DesktopEventKind::DesktopCreated));
    assert!(desktop_count_may_have_changed(&DesktopEventKind::DesktopDestroyed));
    assert!(!desktop_count_may_have_changed(&DesktopEventKind::DesktopNameChanged));
    assert_eq!(workspace_of_desktop(0), WORKSPACE_INDEX_BASE);
}

#[test]
fn clamping_and_hotkey_plans() {
    assert_eq!(clamp_workspace(7, 4), 4);
    assert_eq!(clamp_workspace(0, 4), 1);
    assert_eq!(clamp_workspace(3, 0), 1);
    assert_eq!(clamp_workspace(2, 4), 2);
    assert_eq!(hotkey_plan(HotkeyAction::SwitchWorkspace(2), 2), HotkeyPlan::Nothing);
    assert_eq!(hotkey_plan(HotkeyAction::SwitchWorkspace(3), 2), HotkeyPlan::Switch(3));
    assert_eq!(
        hotkey_plan(HotkeyAction::MoveWindowToWorkspace(2), 2),
        HotkeyPlan::MoveFocused { workspace: 2, switch_after: false }
    );
    assert_eq!(
        hotkey_plan(HotkeyAction::MoveWindowToWorkspace(5), 2),
        HotkeyPlan::MoveFocused { workspace: 5, switch_after: true }
    );
}
