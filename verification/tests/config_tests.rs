use bgwm::config::{edit_hotkey_cell, matches_executable, validate_workspace_key, AppRule, Config, ConfigError, executable_basename, is_executable_full_path};
use bgwm::paths::{config_dir, config_path, join_path, update_state_path};
use bgwm::string_map::StringMap;

fn validation_message(c: &Config) -> Option<String> {
    match c.validate() {
        Ok(()) => None,
        Err(ConfigError::Validation(m)) => Some(m),
    }
}

#[test]
fn default_config_validates() {
    let config = Config::default();
    assert!(config.validate().is_ok());
    assert_eq!(config.version, 1);
    assert_eq!(config.switch_hotkeys.len(), 9);
    assert_eq!(config.move_hotkeys.len(), 9);
    assert_eq!(config.switch_hotkeys.get("2").map(|s| s.as_str()), Some("Win+2"));
    assert_eq!(config.move_hotkeys.get("6").map(|s| s.as_str()), Some("Win+Shift+6"));
    assert!(!config.startup.launch_at_login);
}

#[test]
fn rejects_duplicate_hotkeys() {
    let mut config = Config::default();
    config.move_hotkeys.insert("1".to_string(), "Win+1".to_string());
    assert!(config.validate().is_err());
}

#[test]
fn duplicate_hotkey_message_names_the_binding() {
    let mut config = Config::default();
    config.move_hotkeys.insert("1".to_string(), "Win+1".to_string());
    assert_eq!(validation_message(&config), Some("duplicate hotkey binding: Win+1".to_string()));
}

#[test]
fn matches_executable_by_name() {
    assert!(matches_executable(
        "chrome.exe",
        r"C:\Program Files\Google\Chrome\Application\chrome.exe"
    ));
    assert!(!matches_executable("firefox.exe", "chrome.exe"));
}

#[test]
fn matches_executable_full_path_exact_only() {
    let chrome = r"C:\Program Files\Google\Chrome\Application\chrome.exe";
    let chromium = r"C:\Tools\chromium\chrome.exe";
    assert!(matches_executable(chrome, chrome));
    assert!(!matches_executable(chrome, chromium));
    assert!(!matches_executable(chrome, "chrome.exe"));
}

#[test]
fn matches_executable_full_path_case_insensitive() {
    assert!(matches_executable(r"C:\Apps\MyApp.exe", r"c:\apps\myapp.exe"));
}

#[test]
fn matches_executable_filename_matches_any_path() {
    assert!(matches_executable(
        "chrome.exe",
        r"C:\Program Files\Google\Chrome\Application\chrome.exe"
    ));
    assert!(matches_executable("chrome.exe", r"C:\Tools\chromium\chrome.exe"));
}

#[test]
fn matching_ignores_blank_rules_and_slash_style() {
    assert!(!matches_executable("   ", "chrome.exe"));
    assert!(matches_executable("C:/Apps/MyApp.exe", r"c:\apps\myapp.exe"));
    assert!(matches_executable("  CHROME.EXE ", "chrome.exe"));
}

#[test]
fn basenames_and_full_paths() {
    assert_eq!(executable_basename(r"C:\Apps\MyApp.EXE"), "myapp.exe");
    assert_eq!(executable_basename("notepad.exe"), "notepad.exe");
    assert!(is_executable_full_path(r"C:\Apps\x.exe"));
    assert!(!is_executable_full_path("x.exe"));
}

#[test]
fn launch_only_rule_without_workspace_is_valid() {
    let mut config = Config::default();
    config.app_rules.push(AppRule {
        executable: r"C:\Apps\launch.exe".to_string(),
        workspace: None,
        launch_hotkey: "Win+Alt+L".to_string(),
    });
    config.validate().unwrap();
}

#[test]
fn rule_without_workspace_or_launch_hotkey_is_invalid() {
    let mut config = Config::default();
    config.app_rules.push(AppRule {
        executable: r"C:\Apps\orphan.exe".to_string(),
        workspace: None,
        launch_hotkey: String::new(),
    });
    assert!(config.validate().is_err());
    assert_eq!(
        validation_message(&config),
        Some(r"app rule for C:\Apps\orphan.exe must define a workspace and/or launch hotkey".to_string())
    );
}

#[test]
fn launch_hotkey_must_be_unique() {
    let mut config = Config::default();
    config.app_rules.push(AppRule {
        executable: r"C:\Apps\a.exe".to_string(),
        workspace: Some(1),
        launch_hotkey: "Win+A".to_string(),
    });
    config.app_rules.push(AppRule {
        executable: r"C:\Apps\b.exe".to_string(),
        workspace: Some(2),
        launch_hotkey: "Win+A".to_string(),
    });
    assert!(config.validate().is_err());
}

#[test]
fn each_validation_error_has_its_message() {
    let mut c = Config::default();
    c.version = 2;
    assert_eq!(validation_message(&c), Some("unsupported config version 2 (expected 1)".to_string()));

    let mut c = Config::default();
    c.switch_hotkeys.insert("0".to_string(), "Win+0".to_string());
    assert_eq!(validation_message(&c), Some("workspace index must be >= 1".to_string()));

    let mut c = Config::default();
    c.move_hotkeys.insert("x".to_string(), "Win+X".to_string());
    assert_eq!(validation_message(&c), Some("invalid workspace key: x".to_string()));

    let mut c = Config::default();
    c.switch_hotkeys.insert("3".to_string(), "Win+Banana".to_string());
    assert_eq!(
        validation_message(&c),
        Some("invalid switch hotkey for workspace 3: unknown key token: Banana".to_string())
    );

    let mut c = Config::default();
    c.app_rules.push(AppRule { executable: "  ".to_string(), workspace: Some(1), launch_hotkey: String::new() });
    assert_eq!(validation_message(&c), Some("app rule executable cannot be empty".to_string()));

    let mut c = Config::default();
    c.app_rules.push(AppRule { executable: "a.exe".to_string(), workspace: Some(0), launch_hotkey: String::new() });
    assert_eq!(validation_message(&c), Some("app rule workspace must be >= 1 when set".to_string()));
}

#[test]
fn workspace_keys() {
    assert!(validate_workspace_key("3").is_ok());
    assert!(validate_workspace_key("+3").is_ok());
    assert_eq!(
        validate_workspace_key("0"),
        Err(ConfigError::Validation("workspace index must be >= 1".to_string()))
    );
    assert_eq!(
        validate_workspace_key("three"),
        Err(ConfigError::Validation("invalid workspace key: three".to_string()))
    );
}

#[test]
fn binding_lists_are_sorted_by_workspace() {
    let config = Config::default();
    let switch = config.switch_bindings().unwrap();
    assert_eq!(switch.len(), 9);
    for (i, (ws, hk)) in switch.iter().enumerate() {
        assert_eq!(*ws, i as u32 + 1);
        assert!(hk.modifiers.win);
        assert!(!hk.modifiers.shift);
    }
    let moves = config.move_bindings().unwrap();
    assert_eq!(moves.len(), 9);
    assert!(moves.iter().all(|(_, hk)| hk.modifiers.shift && hk.modifiers.win));
}

#[test]
fn launch_bindings_come_from_rules() {
    let mut config = Config::default();
    config.app_rules.push(AppRule { executable: "b.exe".to_string(), workspace: None, launch_hotkey: "Win+Alt+B".to_string() });
    config.app_rules.push(AppRule { executable: "a.exe".to_string(), workspace: Some(1), launch_hotkey: "Win+Alt+A".to_string() });
    config.app_rules.push(AppRule { executable: "c.exe".to_string(), workspace: Some(1), launch_hotkey: String::new() });
    let launch = config.launch_bindings().unwrap();
    assert_eq!(launch.len(), 2);
    assert_eq!(launch[0].0, "a.exe");
    assert_eq!(launch[1].0, "b.exe");
    assert_eq!(launch[0].1.display, "Alt+Win+A");
}

#[test]
fn workspace_icon_lookup() {
    let mut config = Config::default();
    config.workspace_icons.insert("2".to_string(), "solid:house".to_string());
    assert_eq!(config.workspace_icon(2), Some("solid:house"));
    assert_eq!(config.workspace_icon(3), None);
}

#[test]
fn hotkey_cell_edits() {
    let mut table = StringMap::new();
    edit_hotkey_cell(&mut table, 4, "Win+4");
    assert_eq!(table.get("4").map(|s| s.as_str()), Some("Win+4"));
    edit_hotkey_cell(&mut table, 4, "   ");
    assert_eq!(table.get("4"), None);
    assert_eq!(table.len(), 0);
}

#[test]
fn config_locations() {
    assert_eq!(config_dir(Some(r"C:\Users\ann\AppData\Local")), r"C:\Users\ann\AppData\Local\bgwm");
    assert_eq!(config_path(Some(r"C:\Users\ann\AppData\Local")), r"C:\Users\ann\AppData\Local\bgwm\config.json");
    assert_eq!(config_path(None), r".\bgwm\config.json");
    assert_eq!(update_state_path(Some(r"C:\Users\ann\AppData\Local\")), r"C:\Users\ann\AppData\Local\bgwm\update_state.json");
    assert_eq!(join_path("C:", "x"), "C:x");
    assert_eq!(join_path("", "x"), "x");
}
