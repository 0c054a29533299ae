//! BGWM's core, verified: the configuration model and its validation, the
//! hotkey grammar, the keyboard hook's decisions, app routing, workspace
//! numbering and tray text, the icon catalogue, the update policy, and the
//! text, path and UTF-16 handling they rest on.

pub mod text;
pub mod utf16;
pub mod sort;
pub mod string_map;
pub mod paths;
pub mod hotkeys;
pub mod config;
pub mod hook;
pub mod font_icons;
pub mod updater;
pub mod window_tracking;
pub mod routing;
pub mod virtual_desktop;
pub mod app_state;
pub mod tray;
pub mod startup;
pub mod picker;
