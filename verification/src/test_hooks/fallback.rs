//! Inert stand-ins for a system without the windows that the test surface looks at: there are no
//! consoles to watch, no window belongs to this process, and nothing can be captured.
use crate::png::Image;
use crate::text::copy_text;
use vstd::prelude::*;

verus! {

// ------------------------------------------------------------------------------ console windows

pub fn install() {
}

pub fn uninstall() {
}

pub fn record(_hwnd: isize, _pid: u32, _class: String, _title: String) {
}

/// Nothing is watched.
pub fn installed() -> (r: bool)
    ensures
        !r,
{
    false
}

/// No process is known.
pub fn parent_map() -> (r: Vec<(u32, u32)>)
    ensures
        r@.len() == 0,
{
    Vec::new()
}

// ------------------------------------------------------------------------------ windows

pub fn belongs_to_us(_hwnd: isize) -> (r: bool)
    ensures
        !r,
{
    false
}

pub fn owner(_hwnd: isize) -> (r: isize)
    ensures
        r == 0,
{
    0
}

pub fn visible(_hwnd: isize) -> (r: bool)
    ensures
        !r,
{
    false
}

pub fn foreground() -> (r: isize)
    ensures
        r == 0,
{
    0
}

pub fn hit_test(_hwnd: isize, _x: i32, _y: i32) -> (r: i32)
    ensures
        r == 0,
{
    0
}

/// No message is posted.
pub fn post(_hwnd: isize, _message: &str) -> (r: Option<&'static str>)
    ensures
        r is None,
{
    None
}

pub fn clipboard_text() -> (r: Option<String>)
    ensures
        r is None,
{
    None
}

// ------------------------------------------------------------------------------ capture

/// The resolution of an unscaled display.
pub fn dpi_of(_hwnd: isize) -> (r: u32)
    ensures
        r == 96,
{
    96
}

/// No window is drawn.
pub fn window(_hwnd: isize, _client_only: bool) -> (r: Result<Image, String>)
    ensures
        r is Err,
        r->Err_0@ == "window capture is a Windows feature"@,
{
    Err(copy_text("window capture is a Windows feature"))
}

} // verus!
