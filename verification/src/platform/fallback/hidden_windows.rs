//! Stand-ins where the engine's own windows are not hidden: no window is known, hidden or moved.
use vstd::prelude::*;

verus! {

/// A window, as far as anything is known of it.
#[derive(Debug, Clone)]
pub struct WindowDescription {
    pub hwnd: isize,
    pub title: String,
}

pub fn install(_main_hwnd: isize) {
}

pub fn uninstall() {
}

/// Nothing is hidden.
pub fn hide_root(_root: isize) -> (r: bool)
    ensures
        !r,
{
    false
}

pub fn show_root(_root: isize) {
}

pub fn forget_root(_root: isize) {
}

/// Nothing is hidden.
pub fn is_hidden(_hwnd: isize) -> (r: bool)
    ensures
        !r,
{
    false
}

/// Every window is its own root.
pub fn root_of(hwnd: isize) -> (r: isize)
    ensures
        r == hwnd,
{
    hwnd
}

/// No title is known.
pub fn window_title(_hwnd: isize) -> (r: String)
    ensures
        r@.len() == 0,
{
    String::new()
}

pub fn is_visible(_hwnd: isize) -> (r: bool)
    ensures
        !r,
{
    false
}

pub fn is_window(_hwnd: isize) -> (r: bool)
    ensures
        !r,
{
    false
}

/// The handle and no title.
pub fn describe(hwnd: isize) -> (r: WindowDescription)
    ensures
        r.hwnd == hwnd,
        r.title@.len() == 0,
{
    WindowDescription { hwnd, title: String::new() }
}

/// No styles.
pub fn styles(_hwnd: isize) -> (r: (u32, u32))
    ensures
        r == (0u32, 0u32),
{
    (0, 0)
}

pub fn set_native_caption(_hwnd: isize, _dark: bool) {
}

pub fn set_sta_owned_listener<F: Fn(isize)>(_f: F) {
}

pub fn allow_dialogs(_root: isize, _allow: bool) {
}

pub fn set_dialog_listener<F: Fn(isize)>(_f: F) {
}

/// Nothing moves.
pub fn move_window(_hwnd: isize, _x: i32, _y: i32) -> (r: bool)
    ensures
        !r,
{
    false
}

pub fn window_rect(_hwnd: isize) -> (r: Option<[i32; 4]>)
    ensures
        r is None,
{
    None
}

pub fn client_origin(_hwnd: isize) -> (r: Option<(i32, i32)>)
    ensures
        r is None,
{
    None
}

pub fn client_rect(_hwnd: isize) -> (r: Option<[i32; 4]>)
    ensures
        r is None,
{
    None
}

pub fn work_area(_hwnd: isize) -> (r: Option<[i32; 4]>)
    ensures
        r is None,
{
    None
}

} // verus!
