use std::collections::HashSet;

use bgwm::config::AppRule;
use bgwm::routing::{launch_plan, retry_delay_ms, AppRouter, LaunchPlan, RouteOutcome, StartupWindow, ROUTE_ATTEMPTS};

fn rules() -> Vec<AppRule> {
    vec![
        AppRule { executable: "notepad.exe".to_string(), workspace: None, launch_hotkey: "Win+Alt+N".to_string() },
        AppRule { executable: "notepad.exe".to_string(), workspace: Some(2), launch_hotkey: String::new() },
        AppRule { executable: r"C:\Apps\chat.exe".to_string(), workspace: Some(3), launch_hotkey: String::new() },
    ]
}

#[test]
fn new_app_window_is_queued_and_switches_after_move() {
    let mut r = AppRouter::new();
    assert!(r.on_window_shown(100, r"C:\Windows\notepad.exe", Some(7), None, &rules(), 1_000));
    assert_eq!(r.pending_len(), 1);
    let route = r.pending_at(0).clone();
    assert_eq!((route.hwnd, route.pid, route.workspace, route.attempt, route.due_ms), (100, 7, 2, 0, 1_000));
    assert!(route.switch_on_success);

    let due = r.due_routes(1_000);
    assert_eq!(due, vec![Some((100, 2))]);
    let actions = r.apply_route_outcomes(1_000, &vec![Some(RouteOutcome::Moved)], 1);
    assert_eq!(actions.switches, vec![(2, 100)]);
    assert!(actions.schedule_key_buffer_cleanup);
    assert_eq!(r.pending_len(), 0);
    assert!(r.is_routed(7));
    assert_eq!(r.routed_window(7), Some(100));
}

#[test]
fn routed_process_is_not_queued_again() {
    let mut r = AppRouter::new();
    r.on_window_shown(100, "notepad.exe", Some(7), None, &rules(), 0);
    r.apply_route_outcomes(0, &vec![Some(RouteOutcome::Moved)], 2);
    assert!(!r.on_window_shown(101, "notepad.exe", Some(7), None, &rules(), 5));
    assert_eq!(r.pending_len(), 0);
}

#[test]
fn destroying_the_routed_window_allows_routing_again() {
    let mut r = AppRouter::new();
    r.on_window_shown(100, "notepad.exe", Some(7), None, &rules(), 0);
    r.apply_route_outcomes(0, &vec![Some(RouteOutcome::Moved)], 2);
    r.on_window_destroyed(7, 555, false);
    assert!(r.is_routed(7));
    r.on_window_destroyed(7, 100, false);
    assert!(!r.is_routed(7));
    assert_eq!(r.routed_window(7), None);
    assert!(r.on_window_shown(101, "notepad.exe", Some(7), None, &rules(), 5));
}

#[test]
fn unmatched_or_unknown_windows_are_ignored() {
    let mut r = AppRouter::new();
    assert!(!r.on_window_shown(1, "calc.exe", Some(3), None, &rules(), 0));
    assert!(!r.on_window_shown(1, "notepad.exe", None, None, &rules(), 0));
    assert!(!r.on_window_shown(1, r"D:\chat.exe", Some(4), None, &rules(), 0));
    assert_eq!(r.pending_len(), 0);
}

#[test]
fn one_route_per_process_at_a_time() {
    let mut r = AppRouter::new();
    assert!(r.on_window_shown(1, r"C:\Apps\chat.exe", Some(9), None, &rules(), 0));
    assert!(!r.on_window_shown(2, r"C:\Apps\chat.exe", Some(9), None, &rules(), 0));
    assert_eq!(r.pending_len(), 1);
    assert_eq!(r.pending_at(0).workspace, 3);
    r.on_window_destroyed(9, 1, true);
    assert_eq!(r.pending_len(), 0);
}

#[test]
fn not_found_is_retried_then_given_up() {
    let mut r = AppRouter::new();
    r.on_window_shown(5, "notepad.exe", Some(1), None, &rules(), 0);
    r.apply_route_outcomes(0, &vec![Some(RouteOutcome::NotFound)], 1);
    assert_eq!(r.pending_len(), 1);
    assert_eq!((r.pending_at(0).attempt, r.pending_at(0).due_ms), (1, 50));
    assert_eq!(r.due_routes(49), vec![None]);
    r.apply_route_outcomes(49, &vec![None], 1);
    assert_eq!(r.pending_len(), 1);
    r.apply_route_outcomes(50, &vec![Some(RouteOutcome::NotFound)], 1);
    assert_eq!((r.pending_at(0).attempt, r.pending_at(0).due_ms), (2, 150));
    let actions = r.apply_route_outcomes(150, &vec![Some(RouteOutcome::NotFound)], 1);
    assert_eq!(r.pending_len(), 0);
    assert!(!r.is_routed(1));
    assert!(actions.switches.is_empty());
    assert!(!actions.schedule_key_buffer_cleanup);
    assert_eq!(ROUTE_ATTEMPTS, 3);
    assert_eq!((retry_delay_ms(0), retry_delay_ms(1), retry_delay_ms(2)), (0, 50, 100));
}

#[test]
fn gone_and_failed_routes_leave_the_queue() {
    let mut r = AppRouter::new();
    r.on_window_shown(1, "notepad.exe", Some(1), None, &rules(), 0);
    r.on_window_shown(2, r"C:\Apps\chat.exe", Some(2), None, &rules(), 0);
    r.on_window_shown(3, "notepad.exe", Some(3), None, &rules(), 10);
    let due = r.due_routes(0);
    assert_eq!(due, vec![Some((1, 2)), Some((2, 3)), None]);
    r.apply_route_outcomes(0, &vec![Some(RouteOutcome::WindowGone), Some(RouteOutcome::Failed), None], 1);
    assert_eq!(r.pending_len(), 1);
    assert_eq!(r.pending_at(0).hwnd, 3);
    assert!(!r.is_routed(1) && !r.is_routed(2));
}

#[test]
fn finished_routes_are_swap_removed_from_the_back() {
    let mut r = AppRouter::new();
    for (hwnd, pid) in [(1, 1), (2, 2), (3, 3), (4, 4), (5, 5)] {
        r.on_window_shown(hwnd, "notepad.exe", Some(pid), None, &rules(), 0);
    }
    let outcomes = vec![
        Some(RouteOutcome::NotFound),
        Some(RouteOutcome::Failed),
        Some(RouteOutcome::Moved),
        Some(RouteOutcome::NotFound),
        Some(RouteOutcome::NotFound),
    ];
    r.apply_route_outcomes(0, &outcomes, 2);
    let order: Vec<isize> = (0..r.pending_len()).map(|i| r.pending_at(i).hwnd).collect();
    let mut v = vec![1, 2, 3, 4, 5];
    v.swap_remove(2);
    v.swap_remove(1);
    assert_eq!(order, v);
    assert!(r.is_routed(3));
}

#[test]
fn pre_existing_process_switches_only_from_foreground() {
    let mut r = AppRouter::new();
    let pre: HashSet<u32> = [7u32].into_iter().collect();
    r.organize_at_startup(pre, &vec![], &rules(), None, 0);
    assert!(r.is_pre_existing(7));
    r.on_window_shown(100, "notepad.exe", Some(7), Some(99), &rules(), 0);
    assert!(!r.pending_at(0).switch_on_success);
    r.on_window_destroyed(7, 100, true);
    assert!(r.is_pre_existing(7));
    r.on_window_destroyed(7, 100, false);
    assert!(!r.is_pre_existing(7));
    let mut r2 = AppRouter::new();
    r2.organize_at_startup([7u32].into_iter().collect(), &vec![], &rules(), None, 0);
    r2.on_window_shown(100, "notepad.exe", Some(7), Some(100), &rules(), 0);
    assert!(r2.pending_at(0).switch_on_success);
}

#[test]
fn startup_organizes_existing_windows() {
    let windows = vec![
        StartupWindow { hwnd: 10, pid: 1, executable: "notepad.exe".to_string(), executable_path: r"C:\Windows\notepad.exe".to_string(), workspace: Some(2) },
        StartupWindow { hwnd: 11, pid: 2, executable: "chat.exe".to_string(), executable_path: r"C:\Apps\chat.exe".to_string(), workspace: Some(1) },
        StartupWindow { hwnd: 11, pid: 2, executable: "chat.exe".to_string(), executable_path: r"C:\Apps\chat.exe".to_string(), workspace: Some(1) },
        StartupWindow { hwnd: 12, pid: 3, executable: "calc.exe".to_string(), executable_path: r"C:\Windows\calc.exe".to_string(), workspace: Some(1) },
        StartupWindow { hwnd: 13, pid: 4, executable: "notepad.exe".to_string(), executable_path: r"C:\Windows\notepad.exe".to_string(), workspace: None },
    ];
    let mut r = AppRouter::new();
    let queued = r.organize_at_startup(HashSet::new(), &windows, &rules(), Some(13), 42);
    assert_eq!(queued, 2);
    assert!(r.is_routed(1));
    assert_eq!(r.routed_window(1), Some(10));
    assert_eq!(r.pending_len(), 2);
    let a = r.pending_at(0);
    assert_eq!((a.hwnd, a.pid, a.workspace, a.executable.as_str(), a.due_ms, a.switch_on_success), (11, 2, 3, "chat.exe", 42, false));
    let b = r.pending_at(1);
    assert_eq!((b.hwnd, b.workspace, b.switch_on_success), (13, 2, true));
}

#[test]
fn switch_for_a_moved_route() {
    let mut r = AppRouter::new();
    r.on_window_shown(100, "notepad.exe", Some(7), None, &rules(), 0);
    assert_eq!(r.switch_for(0, RouteOutcome::Moved, 1), Some((2, 100)));
    assert_eq!(r.switch_for(0, RouteOutcome::Moved, 2), None);
    assert_eq!(r.switch_for(0, RouteOutcome::NotFound, 1), None);
}

#[test]
fn launch_plans() {
    let rules = rules();
    // The first rule with exactly this executable decides: here it names no workspace.
    assert_eq!(launch_plan(&rules, "notepad.exe", Some(7), 1), LaunchPlan::Focus { hwnd: 7 });
    assert_eq!(launch_plan(&rules, "notepad.exe", None, 1), LaunchPlan::Launch { switch_to: None });
    // Exact text only: no basename or case folding.
    assert_eq!(launch_plan(&rules, "chat.exe", Some(7), 1), LaunchPlan::UnknownExecutable);
    assert_eq!(launch_plan(&rules, "NOTEPAD.EXE", None, 1), LaunchPlan::UnknownExecutable);
    let chat = r"C:\Apps\chat.exe";
    assert_eq!(
        launch_plan(&rules, chat, Some(9), 1),
        LaunchPlan::MoveThen { hwnd: 9, workspace: 3, switch: true }
    );
    assert_eq!(
        launch_plan(&rules, chat, Some(9), 3),
        LaunchPlan::MoveThen { hwnd: 9, workspace: 3, switch: false }
    );
    assert_eq!(launch_plan(&rules, chat, None, 1), LaunchPlan::Launch { switch_to: Some(3) });
    assert_eq!(launch_plan(&rules, chat, None, 3), LaunchPlan::Launch { switch_to: None });
}
