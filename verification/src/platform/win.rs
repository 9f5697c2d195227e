//! Decisions around Win32: the calls are made outside and their results come as plain values.
use crate::platform::hidden_windows::{owner, owner_of, Desktop};
use crate::platform::CursorSample;
use crate::text::{chars_of, copy_text, decimal, decimal_text, join3, opt_view, quote, quoted, replace_text, replaced_from};
use vstd::prelude::*;

verus! {

// ------------------------------------------------------------------------------ UTF-16

/// `char::from_u32` makes a character of every number that is one: below the surrogates, or above them
/// and no larger than the largest.
pub assume_specification[ char::from_u32 ](i: u32) -> (r: Option<char>)
    ensures
        r is Some <==> (i <= 0xD7FF || 0xE000 <= i <= 0x10FFFF),
        r is Some ==> r->0 == i as char,
;

/// What numbers characters have.
proof fn char_range(c: char)
    ensures
        0 <= c as int <= 0xD7FF || 0xE000 <= c as int <= 0x10FFFF,
        c as u32 as int == c as int,
        (c as int) as char == c,
{
}

/// A character in UTF-16: itself, or a pair of surrogates.
pub open spec fn units(c: char) -> Seq<u16> {
    let n = c as int;
    if n < 0x10000 {
        seq![n as u16]
    } else {
        seq![(0xD800 + (n - 0x10000) / 0x400) as u16, (0xDC00 + (n - 0x10000) % 0x400) as u16]
    }
}

/// A text in UTF-16, from character `i` on.
pub open spec fn utf16(s: Seq<char>, i: int) -> Seq<u16>
    decreases s.len() - i,
{
    if i < 0 || i >= s.len() {
        Seq::empty()
    } else {
        units(s[i]) + utf16(s, i + 1)
    }
}

/// A text in UTF-16, ended by a zero.
pub fn wide(s: &str) -> (r: Vec<u16>)
    ensures
        r@ == utf16(s@, 0).push(0u16),
{
    let cs = chars_of(s);
    let total: usize = cs.len();
    let mut out: Vec<u16> = Vec::new();
    let mut i: usize = 0;
    let ghost whole = utf16(s@, 0);
    proof {
        assert(out@ + whole =~= whole);
    }
    while i < total
        invariant
            i <= total,
            total == cs@.len(),
            cs@ == s@,
            whole == out@ + utf16(s@, i as int),
        decreases total - i,
    {
        let n: u32 = cs[i] as u32;
        let ghost before = out@;
        proof {
            char_range(s@[i as int]);
        }
        if n < 0x10000 {
            out.push(n as u16);
        } else {
            out.push((0xD800 + (n - 0x10000) / 0x400) as u16);
            out.push((0xDC00 + (n - 0x10000) % 0x400) as u16);
        }
        proof {
            assert(out@ =~= before + units(s@[i as int]));
            assert(before + (units(s@[i as int]) + utf16(s@, i + 1)) =~= out@ + utf16(s@, i + 1));
        }
        i = i + 1;
    }
    proof {
        assert(out@ + Seq::<u16>::empty() =~= out@);
    }
    out.push(0);
    out
}

/// Half of a pair of surrogates, the first or the second.
pub open spec fn is_high(u: u16) -> bool {
    0xD800 <= u < 0xDC00
}

pub open spec fn is_low(u: u16) -> bool {
    0xDC00 <= u < 0xE000
}

/// The text of UTF-16 units from position `i` on; half a pair becomes a replacement character.
pub open spec fn decoded(u: Seq<u16>, i: int) -> Seq<char>
    decreases u.len() - i,
{
    if i < 0 || i >= u.len() {
        Seq::empty()
    } else if is_high(u[i]) && i + 1 < u.len() && is_low(u[i + 1]) {
        seq![(0x10000 + (u[i] - 0xD800) * 0x400 + (u[i + 1] - 0xDC00)) as char] + decoded(u, i + 2)
    } else if is_high(u[i]) || is_low(u[i]) {
        seq!['\u{FFFD}'] + decoded(u, i + 1)
    } else {
        seq![u[i] as char] + decoded(u, i + 1)
    }
}

/// The text of UTF-16 units.
pub fn from_wide(u: &[u16]) -> (r: String)
    ensures
        r@ == decoded(u@, 0),
{
    let total: usize = u.len();
    let mut out = String::new();
    let mut i: usize = 0;
    let ghost whole = decoded(u@, 0);
    proof {
        assert(out@ + whole =~= whole);
    }
    while i < total
        invariant
            i <= total,
            total == u@.len(),
            whole == out@ + decoded(u@, i as int),
        decreases total - i,
    {
        let a: u16 = u[i];
        let high = 0xD800 <= a && a < 0xDC00;
        let low = 0xDC00 <= a && a < 0xE000;
        let ghost before = out@;
        let mut step: usize = 1;
        let c: char = if high && total - i > 1 && 0xDC00 <= u[i + 1] && u[i + 1] < 0xE000 {
            step = 2;
            let n: u32 = 0x10000 + (a as u32 - 0xD800) * 0x400 + (u[i + 1] as u32 - 0xDC00);
            match char::from_u32(n) {
                Some(c) => c,
                None => '\u{FFFD}',
            }
        } else if high || low {
            '\u{FFFD}'
        } else {
            match char::from_u32(a as u32) {
                Some(c) => c,
                None => '\u{FFFD}',
            }
        };
        out.push(c);
        proof {
            assert(before + (seq![c] + decoded(u@, i + step)) =~= out@ + decoded(u@, i + step));
        }
        i = i + step;
    }
    proof {
        assert(out@ + Seq::<char>::empty() =~= out@);
    }
    out
}

/// A text survives being written in UTF-16 and read back.
pub proof fn a_text_survives_utf16(s: Seq<char>)
    ensures
        decoded(utf16(s, 0), 0) == s,
{
    reads_back(Seq::empty(), s, 0);
    assert(Seq::<u16>::empty() + utf16(s, 0) =~= utf16(s, 0));
    assert(s.skip(0) =~= s);
}

proof fn reads_back(p: Seq<u16>, s: Seq<char>, i: int)
    requires
        0 <= i <= s.len(),
    ensures
        decoded(p + utf16(s, i), p.len() as int) == s.skip(i),
    decreases s.len() - i,
{
    let u = p + utf16(s, i);
    if i < s.len() {
        let c = s[i];
        let part = units(c);
        char_range(c);
        let next = p + part;
        let rest = utf16(s, i + 1);
        assert(u =~= next + rest);
        reads_back(next, s, i + 1);
        assert(seq![c] + s.skip(i + 1) =~= s.skip(i));
        let n = c as int;
        let at = p.len() as int;
        if n < 0x10000 {
            assert(u[at] == n as u16);
        } else {
            let h = (n - 0x10000) / 0x400;
            let l = (n - 0x10000) % 0x400;
            assert(u[at] == (0xD800 + h) as u16);
            assert(u[at + 1] == (0xDC00 + l) as u16);
            assert(0 <= h < 0x400 && 0 <= l < 0x400);
            assert(0x10000 + h * 0x400 + l == n);
        }
    } else {
        assert(u =~= p);
        assert(s.skip(i) =~= Seq::<char>::empty());
    }
}

/// Where the first zero at or after `i` stands.
pub open spec fn zero_at(u: Seq<u16>, i: int) -> Option<int>
    decreases u.len() - i,
{
    if i < 0 || i >= u.len() {
        None
    } else if u[i] == 0 {
        Some(i)
    } else {
        zero_at(u, i + 1)
    }
}

/// Where the first zero at or after `from` stands.
fn find_zero(u: &[u16], from: usize) -> (r: Option<usize>)
    ensures
        match r {
            Some(k) => zero_at(u@, from as int) == Some(k as int) && from <= k < u@.len(),
            None => zero_at(u@, from as int) is None,
        },
{
    let mut i: usize = from;
    while i < u.len()
        invariant
            from <= i,
            zero_at(u@, i as int) == zero_at(u@, from as int),
        decreases u@.len() - i,
    {
        if u[i] == 0 {
            return Some(i);
        }
        i = i + 1;
    }
    None
}

/// The text of `u[from..to]`.
fn text_between(u: &[u16], from: usize, to: usize) -> (r: String)
    requires
        from <= to <= u@.len(),
    ensures
        r@ == decoded(u@.subrange(from as int, to as int), 0),
{
    let mut part: Vec<u16> = Vec::new();
    let mut i: usize = from;
    while i < to
        invariant
            from <= i <= to <= u@.len(),
            part@ == u@.subrange(from as int, i as int),
        decreases to - i,
    {
        part.push(u[i]);
        i = i + 1;
        proof {
            assert(part@ =~= u@.subrange(from as int, i as int));
        }
    }
    from_wide(part.as_slice())
}

/// The directory of the installer, out of the buffer that the registry filled: `None` where the value
/// was not read, has no end, or is empty.
pub fn msi_install_dir(read: bool, buffer: &[u16]) -> (r: Option<String>)
    ensures
        match r {
            Some(dir) => read && zero_at(buffer@, 0) is Some && zero_at(buffer@, 0)->0 > 0 && dir@ == decoded(
                buffer@.take(zero_at(buffer@, 0)->0),
                0,
            ),
            None => !read || zero_at(buffer@, 0) is None || zero_at(buffer@, 0)->0 == 0,
        },
{
    if !read {
        return None;
    }
    match find_zero(buffer, 0) {
        Some(end) => {
            if end == 0 {
                return None;
            }
            proof {
                assert(buffer@.subrange(0, end as int) =~= buffer@.take(end as int));
            }
            Some(text_between(buffer, 0, end))
        },
        None => None,
    }
}

/// The languages in a buffer from position `i` on: each is ended by a zero, and an empty one is none.
pub open spec fn languages_from(u: Seq<u16>, i: int) -> Seq<Seq<char>>
    decreases u.len() - i,
{
    if i < 0 || i >= u.len() {
        Seq::empty()
    } else {
        match zero_at(u, i) {
            Some(end) => if i <= end < u.len() {
                let rest = languages_from(u, end + 1);
                if end > i { seq![decoded(u.subrange(i, end), 0)] + rest } else { rest }
            } else {
                Seq::empty()
            },
            None => seq![decoded(u.subrange(i, u.len() as int), 0)],
        }
    }
}

/// The languages of the system, most preferred first, out of the buffer that it filled.
pub fn os_ui_languages(buffer: &[u16]) -> (r: Vec<String>)
    ensures
        crate::text::text_views(r@) == languages_from(buffer@, 0),
{
    let total: usize = buffer.len();
    let mut out: Vec<String> = Vec::new();
    let mut i: usize = 0;
    let ghost whole = languages_from(buffer@, 0);
    proof {
        assert(crate::text::text_views(out@) + whole =~= whole);
    }
    while i < total
        invariant
            i <= total,
            total == buffer@.len(),
            whole == crate::text::text_views(out@) + languages_from(buffer@, i as int),
        decreases total - i,
    {
        let (end, next): (usize, usize) = match find_zero(buffer, i) {
            Some(k) => (k, k + 1),
            None => (total, total),
        };
        if end > i {
            let language = text_between(buffer, i, end);
            let ghost before = out@;
            out.push(language);
            proof {
                let rest = languages_from(buffer@, next as int);
                assert(crate::text::text_views(out@) =~= crate::text::text_views(before).push(language@));
                assert(crate::text::text_views(before) + (seq![language@] + rest) =~= crate::text::text_views(out@) + rest);
                assert(crate::text::text_views(before) + seq![language@] =~= crate::text::text_views(out@) + Seq::<Seq<char>>::empty());
            }
        }
        i = next;
    }
    proof {
        assert(crate::text::text_views(out@) + Seq::<Seq<char>>::empty() =~= crate::text::text_views(out@));
    }
    out
}

// ------------------------------------------------------------------------------ settings

/// Apps use the dark theme: the value that says "light" is there, and 0.
pub open spec fn is_dark(apps_use_light_theme: Option<u32>) -> bool {
    apps_use_light_theme == Some(0u32)
}

/// Apps use the dark theme: the value that says "light" is there, and 0.
pub fn system_dark_mode(apps_use_light_theme: Option<u32>) -> (r: bool)
    ensures
        r == is_dark(apps_use_light_theme),
        r == (apps_use_light_theme == Some(0u32)),
{
    match apps_use_light_theme {
        Some(v) => v == 0,
        None => false,
    }
}

/// The system animates. A setting that cannot be read counts as on.
pub fn system_animations(read: bool, enabled: bool) -> (r: bool)
    ensures
        r == (!read || enabled),
{
    !read || enabled
}

/// The message that a setting changed.
pub const WM_SETTINGCHANGE: u32 = 26;

/// The observer of settings.
#[derive(Debug, Clone, Copy, PartialEq, Eq, Structural)]
pub struct SettingWatch {
    /// The hook (0: not installed).
    pub hook: isize,
    /// Somebody is told.
    pub callback: bool,
}

/// Somebody is told from now on. Returns whether the hook is still to be installed.
pub fn watch_setting_change(state: &mut SettingWatch) -> (r: bool)
    ensures
        r == (old(state).hook == 0),
        *final(state) == (SettingWatch { callback: true, ..*old(state) }),
{
    state.callback = true;
    state.hook == 0
}

/// Nobody is told any more. Returns the hook that is to be removed.
pub fn unwatch_setting_change(state: &mut SettingWatch) -> (r: Option<isize>)
    ensures
        r == (if old(state).hook != 0 { Some(old(state).hook) } else { None::<isize> }),
        *final(state) == (SettingWatch { hook: 0, callback: false }),
{
    let hook: isize = state.hook;
    state.hook = 0;
    state.callback = false;
    if hook != 0 { Some(hook) } else { None }
}

/// A message passed. Returns whether somebody is told.
pub fn on_message(state: &SettingWatch, code: i32, message: u32) -> (r: bool)
    ensures
        r == (code >= 0 && message == WM_SETTINGCHANGE && state.callback),
{
    code >= 0 && message == WM_SETTINGCHANGE && state.callback
}

/// What a window frame is given: the attribute and its value.
#[derive(Debug, Clone, Copy, PartialEq, Eq, Structural)]
pub struct FrameAttribute {
    pub attribute: u32,
    pub value: i32,
}

/// Whether the frame is dark.
pub const DWMWA_USE_IMMERSIVE_DARK_MODE: u32 = 20;

/// The shape of the corners.
pub const DWMWA_WINDOW_CORNER_PREFERENCE: u32 = 33;

/// Round corners.
pub const DWMWCP_ROUND: i32 = 2;

/// The dark or light frame, with round corners.
pub open spec fn frame_of(dark: bool) -> Seq<FrameAttribute> {
    seq![
        FrameAttribute { attribute: DWMWA_USE_IMMERSIVE_DARK_MODE, value: if dark { 1 } else { 0 } },
        FrameAttribute { attribute: DWMWA_WINDOW_CORNER_PREFERENCE, value: DWMWCP_ROUND },
    ]
}

/// What the frame of a window is given; nothing where there is no window.
pub fn apply_window_chrome(hwnd: isize, dark: bool) -> (r: Vec<FrameAttribute>)
    ensures
        r@ == (if hwnd == 0 { Seq::empty() } else { frame_of(dark) }),
{
    let mut out: Vec<FrameAttribute> = Vec::new();
    if hwnd == 0 {
        return out;
    }
    out.push(FrameAttribute { attribute: DWMWA_USE_IMMERSIVE_DARK_MODE, value: if dark { 1 } else { 0 } });
    out.push(FrameAttribute { attribute: DWMWA_WINDOW_CORNER_PREFERENCE, value: DWMWCP_ROUND });
    proof {
        assert(out@ =~= frame_of(dark));
    }
    out
}

// ------------------------------------------------------------------------------ the clipboard

/// How often the clipboard is tried, with a short sleep after each failure.
pub const CLIPBOARD_TRIES: u32 = 10;

/// What is done next to put a text on the clipboard.
#[derive(Debug, Clone, Copy, PartialEq, Eq, Structural)]
pub enum Clip {
    /// Open it; so many tries are left.
    Open { left: u32 },
    /// Empty it.
    Empty,
    /// Allocate memory for the text.
    Allocate,
    /// Lock the memory.
    Lock,
    /// Copy the text into it, unlock it and hand it over.
    Place,
    /// Free the memory: it was not taken.
    Free,
    /// Close the clipboard.
    Close { ok: bool },
    /// That is all.
    Done { ok: bool },
}

/// What follows a step of which it is known whether it worked.
pub open spec fn clip_after(step: Clip, worked: bool) -> Clip {
    match step {
        Clip::Open { left } => if worked {
            Clip::Empty
        } else if left <= 1 {
            Clip::Done { ok: false }
        } else {
            Clip::Open { left: (left - 1) as u32 }
        },
        Clip::Empty => if worked { Clip::Allocate } else { Clip::Close { ok: false } },
        Clip::Allocate => if worked { Clip::Lock } else { Clip::Close { ok: false } },
        Clip::Lock => if worked { Clip::Place } else { Clip::Free },
        Clip::Place => if worked { Clip::Close { ok: true } } else { Clip::Free },
        Clip::Free => Clip::Close { ok: false },
        Clip::Close { ok } => Clip::Done { ok },
        Clip::Done { ok } => Clip::Done { ok },
    }
}

/// What is done next to put a text on the clipboard. The first step is `Clip::Open` with all tries.
pub fn set_clipboard_text(step: Clip, worked: bool) -> (r: Clip)
    ensures
        r == clip_after(step, worked),
{
    match step {
        Clip::Open { left } => if worked {
            Clip::Empty
        } else if left <= 1 {
            Clip::Done { ok: false }
        } else {
            Clip::Open { left: left - 1 }
        },
        Clip::Empty => if worked { Clip::Allocate } else { Clip::Close { ok: false } },
        Clip::Allocate => if worked { Clip::Lock } else { Clip::Close { ok: false } },
        Clip::Lock => if worked { Clip::Place } else { Clip::Free },
        Clip::Place => if worked { Clip::Close { ok: true } } else { Clip::Free },
        Clip::Free => Clip::Close { ok: false },
        Clip::Close { ok } => Clip::Done { ok },
        Clip::Done { ok } => Clip::Done { ok },
    }
}

/// The steps that are left at most.
pub open spec fn clip_left(step: Clip) -> nat {
    match step {
        Clip::Open { left } => (left + 7) as nat,
        Clip::Empty => 6,
        Clip::Allocate => 5,
        Clip::Lock => 4,
        Clip::Place => 3,
        Clip::Free => 2,
        Clip::Close { ok: _ } => 1,
        Clip::Done { ok: _ } => 0,
    }
}

/// The steps come to an end; the clipboard, once open, is closed before they do; memory that was
/// allocated is handed over or freed; and it all worked only where the text was taken.
pub proof fn the_clipboard_is_given_back(step: Clip, worked: bool)
    ensures
        !(step is Done) ==> clip_left(clip_after(step, worked)) < clip_left(step),
        clip_after(step, worked) is Done ==> step is Done || step is Close || (step is Open && !worked),
        (step is Lock || step is Place) && !worked ==> clip_after(step, worked) is Free,
        clip_after(step, worked) == (Clip::Close { ok: true }) ==> step is Place && worked,
{
}

// ------------------------------------------------------------------------------ the folder picker

/// A folder is picked; it must be in the file system and exist.
pub const PICK_OPTIONS: u32 = 0x860;

/// The options of the picker, with those that make it pick folders.
pub fn picker_options(options: u32) -> (r: u32)
    ensures
        r == options | PICK_OPTIONS,
{
    options | PICK_OPTIONS
}

/// A path with the separators of the system.
pub open spec fn native_path(path: Seq<char>) -> Seq<char> {
    replaced_from(path, "/"@, "\\"@, 0)
}

/// A path with the separators of the system.
pub fn to_native(path: &str) -> (r: String)
    ensures
        r@ == native_path(path@),
{
    proof {
        reveal_strlit("/");
    }
    replace_text(path, "/", "\\")
}

/// The folder that the picker begins in: the one that is wanted, where it is a folder.
pub fn initial_folder(wanted: Option<&str>, is_dir: bool) -> (r: Option<String>)
    ensures
        match r {
            Some(dir) => is_dir && wanted is Some && dir@ == native_path(wanted->0@),
            None => !is_dir || wanted is None,
        },
{
    match wanted {
        Some(dir) => if is_dir { Some(to_native(dir)) } else { None },
        None => None,
    }
}

/// What the picker said.
pub struct Picked {
    /// It could be made.
    pub created: bool,
    /// What showing it came to; negative where it failed or was cancelled.
    pub shown: i32,
    /// The name of what was picked, in UTF-16, where there is one.
    pub name: Option<Vec<u16>>,
}

/// Showing the picker ended with the user cancelling it, which nobody has to be warned of.
pub fn was_cancelled(shown: i32) -> (r: bool)
    ensures
        r == (shown == -0x7FF8_FB39),
{
    shown == -0x7FF8_FB39
}

/// The text of UTF-16 units up to the first zero.
pub open spec fn text_to_zero(u: Seq<u16>) -> Seq<char> {
    match zero_at(u, 0) {
        Some(end) => decoded(u.take(end), 0),
        None => decoded(u, 0),
    }
}

/// The folder that was picked.
pub open spec fn picked_folder(p: Picked) -> Option<Seq<char>> {
    if !p.created || p.shown < 0 {
        None
    } else {
        match p.name {
            Some(name) => if text_to_zero(name@).len() > 0 { Some(text_to_zero(name@)) } else { None },
            None => None,
        }
    }
}

/// The text of UTF-16 units up to the first zero.
pub fn from_wide_ptr(u: &[u16]) -> (r: String)
    ensures
        r@ == text_to_zero(u@),
{
    let end: usize = match find_zero(u, 0) {
        Some(k) => k,
        None => u.len(),
    };
    proof {
        assert(u@.subrange(0, end as int) =~= u@.take(end as int));
        assert(u@.take(u@.len() as int) =~= u@);
    }
    text_between(u, 0, end)
}

/// The folder that was picked: `None` where the picker failed, was cancelled or named nothing.
pub fn pick_folder(p: &Picked) -> (r: Option<String>)
    ensures
        match r {
            Some(dir) => picked_folder(*p) == Some(dir@),
            None => picked_folder(*p) is None,
        },
{
    if !p.created || p.shown < 0 {
        return None;
    }
    match &p.name {
        Some(name) => {
            let path = from_wide_ptr(name.as_slice());
            if chars_of(path.as_str()).len() == 0 {
                return None;
            }
            Some(path)
        },
        None => None,
    }
}

/// A file was opened by its handler: the answer is larger than 32.
pub fn shell_open(answer: isize) -> (r: bool)
    ensures
        r == (answer > 32),
{
    answer > 32
}

/// A file was shown in its folder: the path named something, and the folder could be opened.
pub fn show_in_folder(found: bool, opened: i32) -> (r: bool)
    ensures
        r == (found && opened >= 0),
{
    found && opened >= 0
}

/// Where downloads go.
pub enum Downloads {
    /// This folder.
    Folder(String),
    /// `Downloads` below this one.
    Below(String),
    Unknown,
}

/// Where downloads go: the folder that the system names, else one below the profile of the user.
pub fn downloads_dir(known: Option<&str>, profile: Option<&str>) -> (r: Downloads)
    ensures
        match r {
            Downloads::Folder(dir) => opt_view(known) == Some(dir@) && dir@.len() > 0,
            Downloads::Below(dir) => (known is None || known->0@.len() == 0) && opt_view(profile) == Some(dir@),
            Downloads::Unknown => (known is None || known->0@.len() == 0) && profile is None,
        },
{
    match known {
        Some(dir) => {
            if chars_of(dir).len() > 0 {
                return Downloads::Folder(copy_text(dir));
            }
        },
        None => {},
    }
    match profile {
        Some(dir) => Downloads::Below(copy_text(dir)),
        None => Downloads::Unknown,
    }
}

// ------------------------------------------------------------------------------ the cursor

/// What the window system says about the cursor.
pub struct Poll {
    /// Where it is; `None` on a secure desktop.
    pub cursor: Option<(i32, i32)>,
    /// The top-left corner of the inside of our window; `None` when the window is gone.
    pub client: Option<(i32, i32)>,
    /// The top-level window under the cursor (0: none).
    pub root: isize,
    /// The states of the left, right and middle button: the highest bit says held, the lowest pressed
    /// since it was asked for last.
    pub left: u16,
    pub right: u16,
    pub middle: u16,
}

/// One of the next `left` owners of a window is `ours`.
pub open spec fn owned_within(d: Desktop, hwnd: isize, ours: isize, left: nat) -> bool
    decreases left,
{
    left > 0 && hwnd != 0 && (owner(d, hwnd) == ours || owned_within(d, owner(d, hwnd), ours, (left - 1) as nat))
}

/// The owners of a window that are followed.
pub const OWNERS: u32 = 8;

fn is_owned_popup(d: &Desktop, root: isize, ours: isize) -> (r: bool)
    requires
        ours != 0,
    ensures
        r == owned_within(*d, root, ours, OWNERS as nat),
{
    let mut left: u32 = OWNERS;
    let mut w: isize = root;
    while left > 0
        invariant
            ours != 0,
            owned_within(*d, root, ours, OWNERS as nat) == owned_within(*d, w, ours, left as nat),
        decreases left,
    {
        if w == 0 {
            return false;
        }
        w = owner_of(d, w);
        if w == ours {
            return true;
        }
        left = left - 1;
    }
    false
}

/// The highest bit is set.
pub open spec fn held(state: u16) -> bool {
    state >= 0x8000
}

/// The lowest bit is set.
pub open spec fn pressed(state: u16) -> bool {
    state % 2 == 1
}

/// The cursor relative to our window.
pub open spec fn sampled(hwnd: isize, poll: Poll, d: Desktop) -> Option<CursorSample> {
    match (poll.cursor, poll.client) {
        (Some((x, y)), Some((client_left, client_top))) => if hwnd == 0 {
            None
        } else {
            Some(
                CursorSample {
                    x,
                    y,
                    client_left,
                    client_top,
                    over_window: poll.root == hwnd,
                    owned_popup: poll.root != hwnd && owned_within(d, poll.root, hwnd, OWNERS as nat),
                    buttons: held(poll.left) || held(poll.right) || held(poll.middle),
                    clicked: pressed(poll.left) || pressed(poll.right) || pressed(poll.middle),
                },
            )
        },
        _ => None,
    }
}

/// The cursor relative to our window; `None` where the cursor or the window is not known.
pub fn cursor_sample(hwnd: isize, poll: &Poll, d: &Desktop) -> (r: Option<CursorSample>)
    ensures
        r == sampled(hwnd, *poll, *d),
{
    if hwnd == 0 {
        return None;
    }
    let (x, y): (i32, i32) = match poll.cursor {
        Some(p) => p,
        None => {
            return None;
        },
    };
    let (client_left, client_top): (i32, i32) = match poll.client {
        Some(p) => p,
        None => {
            return None;
        },
    };
    let over_window = poll.root == hwnd;
    let owned_popup = !over_window && is_owned_popup(d, poll.root, hwnd);
    Some(
        CursorSample {
            x,
            y,
            client_left,
            client_top,
            over_window,
            owned_popup,
            buttons: poll.left >= 0x8000 || poll.right >= 0x8000 || poll.middle >= 0x8000,
            clicked: poll.left % 2 == 1 || poll.right % 2 == 1 || poll.middle % 2 == 1,
        },
    )
}

// ------------------------------------------------------------------------------ input

/// The window in the foreground in words: its process, class and title.
pub fn describe_foreground(window: Option<(u32, &str, &str)>) -> (r: String)
    ensures
        r@ == (match window {
            None => "none"@,
            Some((pid, class, title)) => "pid "@ + decimal(pid as nat) + " class "@ + class@ + " title "@ + quoted(title@),
        }),
{
    match window {
        None => copy_text("none"),
        Some((pid, class, title)) => {
            let mut s = join3("pid ", decimal_text(pid as u64).as_str(), " class ");
            s.append(class);
            s.append(" title ");
            s.append(quote(title).as_str());
            s
        },
    }
}

/// Input may be made up for a window: only while it is the one in the foreground.
pub fn may_send(hwnd: isize, foreground: isize) -> (r: bool)
    ensures
        r == (hwnd != 0 && foreground == hwnd),
{
    hwnd != 0 && foreground == hwnd
}

/// What brings a window to the foreground.
#[derive(Debug, Clone, Copy, PartialEq, Eq, Structural)]
pub enum Raise {
    /// There is no window.
    Impossible,
    /// It is there already.
    Nothing,
    /// Restore it first where it is minimized; share the input of the thread in the foreground, where
    /// that is another one.
    Raise { restore: bool, attach: bool },
}

/// What brings a window to the foreground. `thread`: the thread of the window in the foreground (0:
/// none); `me`: our own.
pub open spec fn raise_of(hwnd: isize, foreground: isize, minimized: bool, thread: u32, me: u32) -> Raise {
    if hwnd == 0 {
        Raise::Impossible
    } else if foreground == hwnd {
        Raise::Nothing
    } else {
        Raise::Raise { restore: minimized, attach: thread != 0 && thread != me }
    }
}

/// What brings a window to the foreground. `thread`: the thread of the window in the foreground (0:
/// none); `me`: our own.
pub fn bring_to_foreground(hwnd: isize, foreground: isize, minimized: bool, thread: u32, me: u32) -> (r: Raise)
    ensures
        r == raise_of(hwnd, foreground, minimized, thread, me),
        r == (if hwnd == 0 {
            Raise::Impossible
        } else if foreground == hwnd {
            Raise::Nothing
        } else {
            Raise::Raise { restore: minimized, attach: thread != 0 && thread != me }
        }),
{
    if hwnd == 0 {
        Raise::Impossible
    } else if foreground == hwnd {
        Raise::Nothing
    } else {
        Raise::Raise { restore: minimized, attach: thread != 0 && thread != me }
    }
}

/// A point in one number: the lower 16 bits of `y` above the lower 16 bits of `x`.
pub open spec fn packed(x: int, y: int) -> int {
    y % 0x10000 * 0x10000 + x % 0x10000
}

/// A point as a mouse message carries it.
pub fn mouse_lparam(x: i32, y: i32) -> (r: u32)
    ensures
        r == packed(x as int, y as int),
{
    let low: i64 = (x as i64 + 0x8000_0000) % 0x10000;
    let high: i64 = (y as i64 + 0x8000_0000) % 0x10000;
    high as u32 * 0x10000 + low as u32
}

/// A key of the extended part of a keyboard.
pub open spec fn extended(vk: u16) -> bool {
    (0x21 <= vk <= 0x28) || vk == 0x2D || vk == 0x2E || vk == 0x5B || vk == 0x5C || vk == 0x6F || vk == 0x90 || vk == 0xA3 || vk == 0xA5
}

pub fn is_extended(vk: u16) -> (r: bool)
    ensures
        r == extended(vk),
{
    (0x21 <= vk && vk <= 0x28) || vk == 0x2D || vk == 0x2E || vk == 0x5B || vk == 0x5C || vk == 0x6F || vk == 0x90 || vk == 0xA3 || vk == 0xA5
}

/// The flags of a key that goes up or down: 2 for up, 1 for an extended one.
pub fn key_flags(vk: u16, up: bool) -> (r: u32)
    ensures
        r == (if up { 2int } else { 0 }) + (if extended(vk) { 1int } else { 0 }),
{
    let mut flags: u32 = if up { 2 } else { 0 };
    if is_extended(vk) {
        flags = flags + 1;
    }
    flags
}

// ------------------------------------------------------------------------------ what holds

/// The units of a character: itself below 0x10000, else a first half from 0xD800 on and a second half from
/// 0xDC00 on that hold ten bits each of what is above; half a pair stands for nothing.
pub proof fn a_character_is_one_unit_or_a_pair(c: char, u: u16)
    ensures
        (c as int) < 0x10000 ==> units(c).len() == 1 && units(c)[0] as int == c as int,
        (c as int) >= 0x10000 ==> {
            let p = units(c);
            &&& p.len() == 2
            &&& 0xD800 <= p[0] <= 0xDBFF && 0xDC00 <= p[1] <= 0xDFFF
            &&& 0x10000 + (p[0] - 0xD800) * 0x400 + (p[1] - 0xDC00) == c as int
        },
        0xD800 <= u <= 0xDFFF ==> decoded(seq![u], 0) == seq!['\u{FFFD}'],
        u < 0xD800 || u > 0xDFFF ==> decoded(seq![u], 0) == seq![u as char],
{
    char_range(c);
    if 0xD800 <= u <= 0xDFFF {
        assert(decoded(seq![u], 1) =~= Seq::<char>::empty());
        assert(decoded(seq![u], 0) =~= seq!['\u{FFFD}']);
    } else {
        assert(decoded(seq![u], 1) =~= Seq::<char>::empty());
        assert(decoded(seq![u], 0) =~= seq![u as char]);
    }
}

/// The first zero is one, and none stands before it.
pub proof fn the_first_zero_is_the_first(u: Seq<u16>, i: int)
    requires
        0 <= i,
    ensures
        match zero_at(u, i) {
            Some(k) => i <= k < u.len() && u[k] == 0 && forall|j: int| i <= j < k ==> #[trigger] u[j] != 0,
            None => forall|j: int| i <= j < u.len() ==> #[trigger] u[j] != 0,
        },
    decreases u.len() - i,
{
    if i < u.len() && u[i] != 0 {
        the_first_zero_is_the_first(u, i + 1);
    }
}

proof fn units_are_not_zero(s: Seq<char>, i: int)
    requires
        0 <= i,
        !s.contains('\0'),
    ensures
        forall|k: int| 0 <= k < utf16(s, i).len() ==> #[trigger] utf16(s, i)[k] != 0,
        i < s.len() ==> utf16(s, i).len() > 0,
    decreases s.len() - i,
{
    if i < s.len() {
        char_range(s[i]);
        assert(s[i] != '\0') by {
            assert(s.contains(s[i]));
        }
        units_are_not_zero(s, i + 1);
        let p = units(s[i]);
        let rest = utf16(s, i + 1);
        assert forall|k: int| 0 <= k < utf16(s, i).len() implies #[trigger] utf16(s, i)[k] != 0 by {
            if k < p.len() {
                assert(utf16(s, i)[k] == p[k]);
            } else {
                assert(utf16(s, i)[k] == rest[k - p.len()]);
            }
        }
    }
}

/// A text that is ended by a zero is read up to it, whatever follows.
pub proof fn a_text_ends_at_the_first_zero(s: Seq<char>, rest: Seq<u16>)
    requires
        !s.contains('\0'),
    ensures
        text_to_zero(utf16(s, 0) + seq![0u16] + rest) == s,
        zero_at(utf16(s, 0) + seq![0u16] + rest, 0) == Some(utf16(s, 0).len() as int),
{
    let w = utf16(s, 0);
    let u = w + seq![0u16] + rest;
    units_are_not_zero(s, 0);
    the_first_zero_is_the_first(u, 0);
    let k = w.len() as int;
    assert(u[k] == 0);
    assert(zero_at(u, 0) == Some(k)) by {
        match zero_at(u, 0) {
            Some(j) => {
                if j < k {
                    assert(u[j] == w[j]);
                }
            },
            None => {},
        }
    }
    assert(u.take(k) =~= w);
    a_text_survives_utf16(s);
}

proof fn zero_shifts(u: Seq<u16>, by: int, i: int)
    requires
        0 <= by,
        0 <= i,
        by <= u.len(),
    ensures
        zero_at(u, by + i) == (match zero_at(u.skip(by), i) {
            Some(k) => Some(by + k),
            None => None,
        }),
    decreases u.len() - i,
{
    if by + i < u.len() {
        assert(u.skip(by)[i] == u[by + i]);
        zero_shifts(u, by, i + 1);
    }
}

proof fn languages_shift(u: Seq<u16>, by: int, i: int)
    requires
        0 <= by,
        0 <= i,
        by <= u.len(),
    ensures
        languages_from(u, by + i) == languages_from(u.skip(by), i),
    decreases u.len() - i,
{
    let t = u.skip(by);
    if by + i < u.len() {
        zero_shifts(u, by, i);
        the_first_zero_is_the_first(t, i);
        match zero_at(t, i) {
            Some(end) => {
                languages_shift(u, by, end + 1);
                assert(u.subrange(by + i, by + end) =~= t.subrange(i, end));
            },
            None => {
                assert(u.subrange(by + i, u.len() as int) =~= t.subrange(i, t.len() as int));
            },
        }
    }
}

/// The languages of the system are read one after the other, each up to its zero; empty ones are none.
pub proof fn languages_are_read_in_order(language: Seq<char>, rest: Seq<u16>)
    requires
        language.len() > 0,
        !language.contains('\0'),
    ensures
        languages_from(utf16(language, 0) + seq![0u16] + rest, 0) == seq![language] + languages_from(rest, 0),
        languages_from(seq![0u16] + rest, 0) == languages_from(rest, 0),
        languages_from(Seq::empty(), 0) == Seq::<Seq<char>>::empty(),
{
    let w = utf16(language, 0);
    let u = w + seq![0u16] + rest;
    let k = w.len() as int;
    a_text_ends_at_the_first_zero(language, rest);
    units_are_not_zero(language, 0);
    languages_shift(u, k + 1, 0);
    assert(u.skip(k + 1) =~= rest);
    assert(u.subrange(0, k) =~= w);
    a_text_survives_utf16(language);
    let v = seq![0u16] + rest;
    assert(v[0] == 0);
    languages_shift(v, 1, 0);
    assert(v.skip(1) =~= rest);
}

/// A path of the system has a backslash wherever the path has a slash, and is the path otherwise.
pub proof fn slashes_become_backslashes(path: Seq<char>)
    ensures
        native_path(path).len() == path.len(),
        forall|k: int| 0 <= k < path.len() ==> #[trigger] native_path(path)[k] == (if path[k] == '/' { '\\' } else { path[k] }),
{
    reveal_strlit("/");
    reveal_strlit("\\");
    slashes_from(path, 0);
    assert forall|k: int| 0 <= k < path.len() implies #[trigger] native_path(path)[k] == (if path[k] == '/' { '\\' } else { path[k] }) by {
        assert(native_path(path)[k] == replaced_from(path, "/"@, "\\"@, 0)[k - 0]);
    }
}

proof fn slashes_from(path: Seq<char>, i: int)
    requires
        0 <= i <= path.len(),
        "/"@.len() == 1 && "/"@[0] == '/',
        "\\"@.len() == 1 && "\\"@[0] == '\\',
    ensures
        replaced_from(path, "/"@, "\\"@, i).len() == path.len() - i,
        forall|k: int| i <= k < path.len() ==> #[trigger] replaced_from(path, "/"@, "\\"@, i)[k - i] == (if path[k] == '/' { '\\' } else { path[k] }),
    decreases path.len() - i,
{
    let r = replaced_from(path, "/"@, "\\"@, i);
    if i < path.len() {
        slashes_from(path, i + 1);
        let rest = replaced_from(path, "/"@, "\\"@, i + 1);
        assert(path.subrange(i, i + 1) =~= seq![path[i]]);
        assert("/"@ =~= seq!['/']);
        assert((path.subrange(i, i + 1) == "/"@) == (path[i] == '/')) by {
            assert(seq![path[i]][0] == path[i]);
            assert(seq!['/'][0] == '/');
        }
        assert forall|k: int| i <= k < path.len() implies #[trigger] r[k - i] == (if path[k] == '/' { '\\' } else { path[k] }) by {
            if k > i {
                assert(r[k - i] == rest[k - (i + 1)]);
            }
        }
    }
}

/// A frame is told whether it is dark, and to have round corners.
pub proof fn a_frame_is_dark_and_round(dark: bool)
    ensures
        frame_of(dark).len() == 2,
        frame_of(dark)[0].attribute == 20 && frame_of(dark)[0].value == (if dark { 1int } else { 0 }),
        frame_of(dark)[1] == (FrameAttribute { attribute: 33, value: 2 }),
{
}

/// Putting a text on the clipboard: open it (again while tries are left), empty it, allocate, lock, place and
/// close; whatever fails after it was opened, it is closed.
pub proof fn the_clipboard_is_filled_in_order(left: u32)
    ensures
        clip_after((Clip::Open { left }), true) == Clip::Empty,
        left > 1 ==> clip_after((Clip::Open { left }), false) == (Clip::Open { left: (left - 1) as u32 }),
        left <= 1 ==> clip_after((Clip::Open { left }), false) == (Clip::Done { ok: false }),
        clip_after(Clip::Empty, true) == Clip::Allocate && clip_after(Clip::Allocate, true) == Clip::Lock,
        clip_after(Clip::Lock, true) == Clip::Place && clip_after(Clip::Place, true) == (Clip::Close { ok: true }),
        clip_after((Clip::Close { ok: true }), true) == (Clip::Done { ok: true }) && clip_after((Clip::Close { ok: false }), true) == (Clip::Done {
            ok: false,
        }),
        clip_after(Clip::Empty, false) == (Clip::Close { ok: false }) && clip_after(Clip::Allocate, false) == (Clip::Close { ok: false }),
        clip_after(Clip::Lock, false) == Clip::Free && clip_after(Clip::Place, false) == Clip::Free,
        clip_after(Clip::Free, true) == (Clip::Close { ok: false }),
        CLIPBOARD_TRIES == 10,
{
}

/// A folder is picked only where the picker was made, was not cancelled and named one.
pub proof fn a_folder_is_picked_by_name(p: Picked, name: Seq<char>, rest: Seq<u16>)
    requires
        !name.contains('\0'),
        p.name is Some,
        p.name->0@ == utf16(name, 0) + seq![0u16] + rest,
    ensures
        p.created && p.shown >= 0 && name.len() > 0 ==> picked_folder(p) == Some(name),
        !p.created || p.shown < 0 || name.len() == 0 ==> picked_folder(p) is None,
{
    a_text_ends_at_the_first_zero(name, rest);
}

/// What the cursor says of our window: where both are, whether the window under it is ours or owned by it
/// (not both), whether a button is held (the highest bit of its state) and whether one was pressed since it
/// was asked for last (the lowest).
pub proof fn the_cursor_is_seen_from_our_window(hwnd: isize, poll: Poll, d: Desktop)
    ensures
        sampled(hwnd, poll, d) is Some <==> hwnd != 0 && poll.cursor is Some && poll.client is Some,
        sampled(hwnd, poll, d) is Some ==> {
            let s = sampled(hwnd, poll, d)->0;
            &&& (s.x, s.y) == poll.cursor->0 && (s.client_left, s.client_top) == poll.client->0
            &&& s.over_window == (poll.root == hwnd)
            &&& s.owned_popup ==> !s.over_window
            &&& poll.root != hwnd && poll.root != 0 && owner(d, poll.root) == hwnd ==> s.owned_popup
            &&& poll.root == 0 ==> !s.owned_popup
            &&& s.buttons == (poll.left / 0x8000 == 1 || poll.right / 0x8000 == 1 || poll.middle / 0x8000 == 1)
            &&& s.clicked == (poll.left % 2 == 1 || poll.right % 2 == 1 || poll.middle % 2 == 1)
        },
{
    assert(owned_within(d, poll.root, hwnd, 8) == (poll.root != 0 && (owner(d, poll.root) == hwnd || owned_within(d, owner(d, poll.root), hwnd, 7))));
}

/// The owners of a window are followed one by one, and no further than was said.
pub proof fn owners_are_followed_one_by_one(d: Desktop, hwnd: isize, ours: isize, left: nat)
    ensures
        !owned_within(d, hwnd, ours, 0),
        !owned_within(d, 0, ours, left),
        hwnd != 0 && owner(d, hwnd) == ours ==> owned_within(d, hwnd, ours, left + 1),
        hwnd != 0 && owner(d, hwnd) != ours ==> owned_within(d, hwnd, ours, left + 1) == owned_within(d, owner(d, hwnd), ours, left),
        OWNERS == 8,
{
}

/// A point is packed into two halves of 16 bits, from which its coordinates come back, also negative ones.
pub proof fn a_packed_point_comes_back(x: int, y: int)
    requires
        -0x8000 <= x < 0x8000,
        -0x8000 <= y < 0x8000,
    ensures
        ({
            let p = packed(x, y);
            let low = p % 0x10000;
            let high = p / 0x10000;
            &&& 0 <= p < 0x1_0000_0000
            &&& (if low >= 0x8000 { low - 0x10000 } else { low }) == x
            &&& (if high >= 0x8000 { high - 0x10000 } else { high }) == y
        }),
{
}

/// The keys of the extended part: the arrows and the block above them, the Windows keys, the division of the
/// number pad, Num Lock and the right Control and Alt.
pub proof fn the_extended_keys(vk: u16)
    ensures
        extended(vk) <==> seq![0x21u16, 0x22, 0x23, 0x24, 0x25, 0x26, 0x27, 0x28, 0x2D, 0x2E, 0x5B, 0x5C, 0x6F, 0x90, 0xA3, 0xA5].contains(vk),
{
    let all = seq![0x21u16, 0x22, 0x23, 0x24, 0x25, 0x26, 0x27, 0x28, 0x2D, 0x2E, 0x5B, 0x5C, 0x6F, 0x90, 0xA3, 0xA5];
    if extended(vk) {
        assert(vk == all[0] || vk == all[1] || vk == all[2] || vk == all[3] || vk == all[4] || vk == all[5] || vk == all[6] || vk == all[7] || vk == all[8]
            || vk == all[9] || vk == all[10] || vk == all[11] || vk == all[12] || vk == all[13] || vk == all[14] || vk == all[15]);
    }
}

/// The numbers of the system that are relied on.
pub proof fn the_numbers_of_the_system()
    ensures
        WM_SETTINGCHANGE == 0x1A,
        PICK_OPTIONS == 0x20 + 0x40 + 0x800,
{
}

/// A window is raised where it exists and is not in front yet: restored where it is minimized, and attached to the
/// thread of the window in front where that is another one.
pub proof fn a_window_is_raised_where_it_is_not_in_front(hwnd: isize, foreground: isize, minimized: bool, thread: u32, me: u32)
    ensures
        raise_of(0, foreground, minimized, thread, me) is Impossible,
        hwnd != 0 ==> raise_of(hwnd, hwnd, minimized, thread, me) is Nothing,
        hwnd != 0 && foreground != hwnd ==> raise_of(hwnd, foreground, minimized, thread, me) is Raise,
        hwnd != 0 && foreground != hwnd ==> raise_of(hwnd, foreground, minimized, thread, me)->restore == minimized,
        hwnd != 0 && foreground != hwnd && thread != 0 && thread != me ==> raise_of(hwnd, foreground, minimized, thread, me)->attach,
        hwnd != 0 && foreground != hwnd && (thread == 0 || thread == me) ==> !raise_of(hwnd, foreground, minimized, thread, me)->attach,
{
}

/// The system is dark where it says that programs do not use the light theme, and light where it says nothing.
pub proof fn the_system_is_dark_where_it_says_so(v: u32)
    ensures
        is_dark(Some(0)),
        v != 0 ==> !is_dark(Some(v)),
        !is_dark(None),
{
}

} // verus!
