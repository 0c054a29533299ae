use bgwm::window_tracking::{
    classify_win_event, is_main_window, is_main_window_inner, normalize_exe_path, running_pids_for_executable,
    WinEventKind, WindowAttributes, EVENT_OBJECT_DESTROY, EVENT_OBJECT_SHOW, WS_CAPTION, WS_EX_TOOLWINDOW, WS_POPUP,
};

#[test]
fn normalize_exe_basename() {
    assert_eq!(normalize_exe_path(r"C:\Program Files\Google\Chrome\Application\chrome.exe"), "chrome.exe");
}

#[test]
fn exe_names_of_odd_paths() {
    assert_eq!(normalize_exe_path("chrome.exe"), "chrome.exe");
    assert_eq!(normalize_exe_path(r"C:\Tools\.\app.exe\"), "app.exe");
    assert_eq!(normalize_exe_path(r"C:\Tools\.."), r"C:\Tools\..");
    assert_eq!(normalize_exe_path("C:"), "C:");
    assert_eq!(normalize_exe_path("C:/a/b.exe"), "b.exe");
}

#[test]
fn exe_names_of_prefixed_paths() {
    assert_eq!(normalize_exe_path(r"\\server\share"), r"\\server\share");
    assert_eq!(normalize_exe_path(r"\\server\share\"), r"\\server\share\");
    assert_eq!(normalize_exe_path(r"\\server\share\app.exe"), "app.exe");
    assert_eq!(normalize_exe_path(r"\\server"), "server");
    assert_eq!(normalize_exe_path(r"\\?\C:\Tools\app.exe"), "app.exe");
    assert_eq!(normalize_exe_path(r"\\?\C:\x\."), r"\\?\C:\x\.");
    assert_eq!(normalize_exe_path(r"\\?\C:\x/y.exe"), "x/y.exe");
    assert_eq!(normalize_exe_path(r"\\?\UNC\server\share"), r"\\?\UNC\server\share");
    assert_eq!(normalize_exe_path(r"\\?\UNC\server\share\a.exe"), "a.exe");
    assert_eq!(normalize_exe_path(r"\\.\COM1"), r"\\.\COM1");
    assert_eq!(normalize_exe_path(r"//server/share/b.exe"), "b.exe");
}

fn main_window() -> WindowAttributes {
    WindowAttributes {
        is_null: false,
        visible: true,
        has_owner: false,
        style: WS_CAPTION,
        ex_style: 0,
        class_name: Some("Chrome_WidgetWin_1".to_string()),
        size: Some((800, 600)),
    }
}

#[test]
fn main_window_rules() {
    assert!(is_main_window(&main_window()));
    let mut w = main_window();
    w.visible = false;
    assert!(!is_main_window(&w));
    assert!(is_main_window_inner(&w, false));
    let mut w = main_window();
    w.has_owner = true;
    assert!(!is_main_window(&w));
    let mut w = main_window();
    w.style = WS_POPUP;
    assert!(!is_main_window(&w));
    w.style = WS_POPUP | WS_CAPTION;
    assert!(is_main_window(&w));
    let mut w = main_window();
    w.ex_style = WS_EX_TOOLWINDOW;
    assert!(!is_main_window(&w));
    let mut w = main_window();
    w.class_name = Some("Progman".to_string());
    assert!(!is_main_window(&w));
    let mut w = main_window();
    w.size = Some((99, 600));
    assert!(!is_main_window(&w));
    w.size = None;
    assert!(!is_main_window(&w));
    let mut w = main_window();
    w.is_null = true;
    assert!(!is_main_window(&w));
}

#[test]
fn pids_of_matching_processes() {
    let procs = vec![
        (10, r"C:\Program Files\Google\Chrome\Application\chrome.exe".to_string()),
        (11, r"C:\Tools\chromium\chrome.exe".to_string()),
        (12, r"C:\Windows\notepad.exe".to_string()),
    ];
    let pids = running_pids_for_executable("chrome.exe", &procs);
    assert_eq!(pids.len(), 2);
    assert!(pids.contains(&10) && pids.contains(&11));
    let exact = running_pids_for_executable(r"C:\Tools\chromium\chrome.exe", &procs);
    assert_eq!(exact.len(), 1);
    assert!(exact.contains(&11));
}

#[test]
fn win_events() {
    assert_eq!(classify_win_event(EVENT_OBJECT_SHOW, false), WinEventKind::Shown);
    assert_eq!(classify_win_event(EVENT_OBJECT_DESTROY, false), WinEventKind::Destroyed);
    assert_eq!(classify_win_event(EVENT_OBJECT_SHOW, true), WinEventKind::Ignore);
    assert_eq!(classify_win_event(0x800B, false), WinEventKind::Ignore);
}
