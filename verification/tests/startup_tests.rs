use bgwm::config::StartupSettings;
use bgwm::startup::{is_not_found_code, registration_plan, startup_command, StartupError, StartupRegistration};

#[test]
fn startup_command_quotes_path_with_spaces() {
    let command = startup_command(r"C:\Program Files\bgwm\bgwm.exe");
    assert_eq!(command, r#""C:\Program Files\bgwm\bgwm.exe""#);
}

#[test]
fn disabled_launch_unregisters() {
    let off = StartupSettings { launch_at_login: false };
    assert_eq!(registration_plan(&off, Err(StartupError::ExecutablePath("gone".to_string()))), Ok(StartupRegistration::Unregister));
}

#[test]
fn enabled_launch_registers_quoted_command() {
    let on = StartupSettings { launch_at_login: true };
    let plan = registration_plan(&on, Ok(r"C:\bgwm.exe".to_string())).unwrap();
    let expected: Vec<u16> = "\"C:\\bgwm.exe\"".encode_utf16().chain(std::iter::once(0)).collect();
    assert_eq!(
        plan,
        StartupRegistration::Register { command: "\"C:\\bgwm.exe\"".to_string(), value_data: expected }
    );
}

#[test]
fn enabled_launch_reports_missing_executable() {
    let on = StartupSettings { launch_at_login: true };
    let err = registration_plan(&on, Err(StartupError::ExecutablePath("denied".to_string()))).unwrap_err();
    assert_eq!(err.message(), "failed to resolve BGWM executable path: denied");
    assert_eq!(
        StartupError::Windows("open registry key: 5".to_string()).message(),
        "failed to update Windows startup registration: open registry key: 5"
    );
}

#[test]
fn not_found_codes() {
    assert!(is_not_found_code(2));
    assert!(is_not_found_code(1168));
    assert!(!is_not_found_code(0));
    assert!(!is_not_found_code(5));
}
