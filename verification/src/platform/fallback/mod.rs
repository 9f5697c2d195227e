//! Inert stand-ins for a system that the shell has no integration with: nothing is done, and every
//! question is answered so that nothing depends on it.
use crate::platform::CursorSample;
use vstd::prelude::*;

pub mod hidden_windows;

verus! {

/// The cursor is never known.
pub fn cursor_sample(_hwnd: isize) -> (r: Option<CursorSample>)
    ensures
        r is None,
{
    None
}

/// The theme is light.
pub fn system_dark_mode() -> (r: bool)
    ensures
        !r,
{
    false
}

/// The shell animates.
pub fn system_animations() -> (r: bool)
    ensures
        r,
{
    true
}

/// No change of a setting is noticed.
pub fn watch_setting_change<F: Fn()>(_f: F) {
}

pub fn unwatch_setting_change() {
}

pub fn apply_window_chrome(_hwnd: isize, _dark: bool) {
}

/// The clipboard takes nothing.
pub fn set_clipboard_text(_text: &str) -> (r: bool)
    ensures
        !r,
{
    false
}

/// No folder is picked.
pub fn pick_folder(_owner_hwnd: isize, _title: &str, _initial_dir: Option<&str>) -> (r: Option<String>)
    ensures
        r is None,
{
    None
}

/// Nothing is opened.
pub fn shell_open(_path: &str) -> (r: bool)
    ensures
        !r,
{
    false
}

/// Nothing is shown.
pub fn show_in_folder(_path: &str) -> (r: bool)
    ensures
        !r,
{
    false
}

/// No language is known.
pub fn os_ui_languages() -> (r: Vec<String>)
    ensures
        r@.len() == 0,
{
    Vec::new()
}

pub fn attach_parent_console() {
}

/// There is no hash function.
pub fn sha256(_data: &[u8]) -> (r: Option<[u8; 32]>)
    ensures
        r is None,
{
    None
}

} // verus!
