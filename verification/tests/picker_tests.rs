use bgwm::picker::{
    is_pickable_window, is_shell_executable, is_shell_explorer_window, is_shell_window_class,
    is_windows_shell_window, path_from_dialog_buffer, pickable_entry, sort_pickable, PickableWindow,
};
use bgwm::utf16::wide_null;

#[test]
fn shell_window_classes_are_detected() {
    assert!(is_shell_window_class("Progman"));
    assert!(is_shell_window_class("Shell_TrayWnd"));
    assert!(!is_shell_window_class("CabinetWClass"));
}

#[test]
fn shell_host_executables_are_detected() {
    assert!(is_shell_executable("SearchHost.exe", None, None));
    assert!(!is_shell_executable("chrome.exe", None, None));
}

#[test]
fn explorer_folder_windows_with_titles_are_not_shell() {
    assert!(!is_shell_explorer_window(Some("CabinetWClass"), Some("Downloads")));
    assert!(is_shell_explorer_window(Some("CabinetWClass"), Some("   ")));
    assert!(is_shell_explorer_window(Some("ExploreWClass"), None));
    assert!(is_shell_explorer_window(Some("Progman"), Some("Program Manager")));
    assert!(is_shell_explorer_window(None, Some("x")));
    assert!(!is_shell_executable("EXPLORER.EXE", Some("CabinetWClass"), Some("Documents")));
    assert!(is_shell_executable("explorer.exe", None, None));
}

#[test]
fn shell_windows_by_class_or_process() {
    assert!(is_windows_shell_window(Some("WorkerW"), None, None));
    assert!(is_windows_shell_window(
        Some("Windows.UI.Core.CoreWindow"),
        Some(r"C:\Windows\SystemApps\ShellExperienceHost.exe"),
        None
    ));
    assert!(!is_windows_shell_window(Some("Chrome_WidgetWin_1"), None, Some("Chrome")));
    assert!(!is_windows_shell_window(
        Some("Chrome_WidgetWin_1"),
        Some(r"C:\Program Files\Google\Chrome\Application\chrome.exe"),
        Some("Chrome")
    ));
}

#[test]
fn pickable_filter() {
    assert!(is_pickable_window(true, false, true, false));
    assert!(!is_pickable_window(false, false, true, false));
    assert!(!is_pickable_window(true, true, true, false));
    assert!(!is_pickable_window(true, false, false, false));
    assert!(!is_pickable_window(true, false, true, true));
}

#[test]
fn picker_entries() {
    assert_eq!(pickable_entry(None, None, None), None);
    assert_eq!(pickable_entry(Some("BGWM.exe".to_string()), None, None), None);
    assert_eq!(
        pickable_entry(Some("notepad.exe".to_string()), None, None),
        Some(PickableWindow {
            title: "(Untitled)".to_string(),
            executable: "notepad.exe".to_string(),
            full_path: "notepad.exe".to_string(),
        })
    );
    assert_eq!(
        pickable_entry(
            Some("notepad.exe".to_string()),
            Some(r"C:\Windows\notepad.exe".to_string()),
            Some("notes.txt - Notepad".to_string())
        ),
        Some(PickableWindow {
            title: "notes.txt - Notepad".to_string(),
            executable: "notepad.exe".to_string(),
            full_path: r"C:\Windows\notepad.exe".to_string(),
        })
    );
}

fn w(title: &str, exe: &str) -> PickableWindow {
    PickableWindow { title: title.to_string(), executable: exe.to_string(), full_path: exe.to_string() }
}

#[test]
fn picker_list_is_sorted_by_title_ignoring_case() {
    let sorted = sort_pickable(vec![w("beta", "1.exe"), w("Alpha", "2.exe"), w("alpha", "3.exe"), w("Gamma", "4.exe")]);
    let exes: Vec<&str> = sorted.iter().map(|x| x.executable.as_str()).collect();
    assert_eq!(exes, vec!["2.exe", "3.exe", "1.exe", "4.exe"]);
}

#[test]
fn dialog_buffer_paths() {
    let mut buf = [0u16; 260];
    let text = wide_null(r"  C:\Tools\app.exe ");
    buf[..text.len()].copy_from_slice(&text);
    assert_eq!(path_from_dialog_buffer(&buf), Some(r"C:\Tools\app.exe".to_string()));
    assert_eq!(path_from_dialog_buffer(&[0u16; 8]), None);
    assert_eq!(path_from_dialog_buffer(&[0xD800, 0x41, 0]), Some("\u{FFFD}A".to_string()));
}
