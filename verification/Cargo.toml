[package]
name = "bgwm"
version = "0.1.0"
edition = "2021"
publish = false

[dependencies]
serde = { version = "=1.0.229", features = ["derive"] }
serde_json = "=1.0.154"
thiserror = "=2.0.21"
tracing = "=0.1.44"
tracing-subscriber = { version = "=0.3.23", features = ["env-filter", "fmt"] }
crossbeam-channel = "=0.5.17"
image = { version = "=0.25.10", default-features = false, features = ["png"] }
winit = { version = "=0.30.13", default-features = false, features = ["rwh_06"] }
eframe = { version = "=0.31.1", default-features = false, features = ["glow", "default_fonts"] }
tray-icon = "=0.26.1"
winvd = { version = "=0.0.49", features = ["crossbeam-channel"] }
windows = { version = "=0.58.0", features = ["Win32_Foundation", "Win32_UI_WindowsAndMessaging", "Win32_UI_Input_KeyboardAndMouse", "Win32_System_Threading", "Win32_System_Registry", "Win32_System_JobObjects", "Win32_System_Diagnostics_ToolHelp", "Win32_UI_Accessibility", "Win32_UI_Controls_Dialogs", "Win32_Networking_WinHttp", "Win32_Security"] }
