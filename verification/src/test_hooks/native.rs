//! Windows, captures, the clipboard and files, for the test surface.
//!
//! Everything is kept to the windows of this process: a message goes to such a window only, and a
//! capture draws one such window.
use crate::json::{
    json_quoted, json_string, list_of, optional_spelled, optional_text, truth_spelled, truth_text, write_list, Json,
};
use crate::platform::win::mouse_lparam;
use crate::png::{a_read_image_is_whole, decoded, read_png, Image, Picture};
use crate::rect::{larger, sided, sides, Edges};
use crate::test_hooks::capture::dpi_of;
use crate::test_hooks::console_watch::{self, Watch, Window};
use crate::test_hooks::{
    bool_arg, err, failure, invalid, list_length, opt_str, out, points_arg, points_failure, str_arg, text_of_arg, told, truth_of_arg, ErrorCode, Failure,
    Output, Told, ToolError,
};
use crate::text::{opt_view, chars_of, copy_text, decimal, decimal_text, hex, hex_number, hex_reads_back, hex_text, join2, join3, joined_by, one_more_member_follows, quote, quoted, same_text, signed_decimal, signed_text, text_views};
use vstd::prelude::*;

verus! {

// ------------------------------------------------------------------------------ windows

/// A window, as far as the tools ask.
#[derive(Debug, Clone, Copy, PartialEq, Eq, Structural)]
pub struct WindowState {
    pub hwnd: isize,
    /// The process that it belongs to (0: none).
    pub pid: u32,
    pub owner: isize,
    pub visible: bool,
}

/// The windows that a tool asks about.
pub struct Desk {
    /// The main window (0: none).
    pub main: isize,
    /// This process.
    pub own_pid: u32,
    pub foreground: isize,
    pub windows: Vec<WindowState>,
}

/// What is known of a window: the first entry for it from position `i` on.
pub open spec fn state_of(windows: Seq<WindowState>, hwnd: isize, i: int) -> Option<WindowState>
    decreases windows.len() - i,
{
    if i < 0 || i >= windows.len() {
        None
    } else if windows[i].hwnd == hwnd {
        Some(windows[i])
    } else {
        state_of(windows, hwnd, i + 1)
    }
}

impl Desk {
    /// The process that a window belongs to (0: none).
    pub open spec fn pid_of(self, hwnd: isize) -> u32 {
        match state_of(self.windows@, hwnd, 0) {
            Some(w) => w.pid,
            None => 0,
        }
    }

    /// A window belongs to this process; 0 is none.
    pub open spec fn has_ours(self, hwnd: isize) -> bool {
        hwnd != 0 && self.pid_of(hwnd) != 0 && self.pid_of(hwnd) == self.own_pid
    }

    /// The owner of a window (0: none).
    pub open spec fn owner_of(self, hwnd: isize) -> isize {
        match state_of(self.windows@, hwnd, 0) {
            Some(w) => w.owner,
            None => 0,
        }
    }

    /// A window is visible.
    pub open spec fn shows(self, hwnd: isize) -> bool {
        hwnd != 0 && match state_of(self.windows@, hwnd, 0) {
            Some(w) => w.visible,
            None => false,
        }
    }
}

fn find_state(desk: &Desk, hwnd: isize) -> (r: Option<WindowState>)
    ensures
        r == state_of(desk.windows@, hwnd, 0),
{
    let mut i: usize = 0;
    while i < desk.windows.len()
        invariant
            i <= desk.windows@.len(),
            state_of(desk.windows@, hwnd, i as int) == state_of(desk.windows@, hwnd, 0),
        decreases desk.windows@.len() - i,
    {
        if desk.windows[i].hwnd == hwnd {
            return Some(desk.windows[i]);
        }
        i = i + 1;
    }
    None
}

/// A window belongs to this process: it has one, and that is this one.
pub fn belongs_to_us(desk: &Desk, hwnd: isize) -> (r: bool)
    ensures
        r == (hwnd != 0 && desk.pid_of(hwnd) != 0 && desk.pid_of(hwnd) == desk.own_pid),
{
    if hwnd == 0 {
        return false;
    }
    let pid: u32 = match find_state(desk, hwnd) {
        Some(w) => w.pid,
        None => 0,
    };
    pid != 0 && pid == desk.own_pid
}

pub fn owner(desk: &Desk, hwnd: isize) -> (r: isize)
    ensures
        r == desk.owner_of(hwnd),
{
    match find_state(desk, hwnd) {
        Some(w) => w.owner,
        None => 0,
    }
}

pub fn visible(desk: &Desk, hwnd: isize) -> (r: bool)
    ensures
        r == desk.shows(hwnd),
{
    hwnd != 0 && match find_state(desk, hwnd) {
        Some(w) => w.visible,
        None => false,
    }
}

/// There is no main window.
pub open spec fn no_window() -> Failure {
    failure(ErrorCode::NoSuchTarget, "sta has no window (starting up or shutting down)"@)
}

/// The main window.
pub fn main_hwnd(hwnd: isize) -> (r: Result<isize, ToolError>)
    ensures
        match r {
            Ok(h) => h == hwnd && hwnd != 0,
            Err(e) => hwnd == 0 && e@ == no_window(),
        },
{
    if hwnd == 0 {
        return Err(err(ErrorCode::NoSuchTarget, "sta has no window (starting up or shutting down)"));
    }
    Ok(hwnd)
}

/// The window that the arguments name.
pub open spec fn named_window(args: Json) -> Option<i64> {
    match args.member("hwnd"@) {
        Some(v) => v.signed_number(),
        None => None,
    }
}

/// The handle of a number.
pub open spec fn handle(n: i64) -> isize {
    n as isize
}

/// The window that the arguments name.
pub fn wanted_hwnd(args: &Json) -> (r: Option<isize>)
    ensures
        r == (match named_window(*args) {
            Some(n) => Some(handle(n)),
            None => None::<isize>,
        }),
{
    match args.get("hwnd") {
        Some(v) => match v.as_i64() {
            Some(n) => {
                let hwnd: isize = #[verifier::truncate]
                (n as isize);
                Some(hwnd)
            },
            None => None,
        },
        None => None,
    }
}

/// `window {hwnd} does not belong to this process`.
pub open spec fn foreign_window(hwnd: isize) -> Seq<char> {
    "window "@ + signed_decimal(hwnd as int) + " does not belong to this process"@
}

fn foreign_message(hwnd: isize) -> (r: String)
    ensures
        r@ == foreign_window(hwnd),
{
    join3("window ", signed_text(hwnd as i64).as_str(), " does not belong to this process")
}

/// The window that a tool acts on.
pub open spec fn target(args: Json, desk: Desk) -> Result<isize, Failure> {
    match named_window(args) {
        Some(n) => if desk.has_ours(handle(n)) {
            Ok(handle(n))
        } else {
            Err(failure(ErrorCode::InvalidArguments, foreign_window(handle(n))))
        },
        None => if desk.main == 0 { Err(no_window()) } else { Ok(desk.main) },
    }
}

/// The window that a tool acts on: the one that is named, where it is ours, else the main window.
pub fn target_hwnd(args: &Json, desk: &Desk) -> (r: Result<isize, ToolError>)
    ensures
        match r {
            Ok(h) => target(*args, *desk) == Ok::<isize, Failure>(h),
            Err(e) => target(*args, *desk) == Err::<isize, Failure>(e@),
        },
{
    match wanted_hwnd(args) {
        Some(hwnd) => {
            if !belongs_to_us(desk, hwnd) {
                return Err(invalid(foreign_message(hwnd).as_str()));
            }
            Ok(hwnd)
        },
        None => main_hwnd(desk.main),
    }
}

// ------------------------------------------------------------------------------ dialogs

/// A key that is pressed in a window.
pub struct Press {
    pub hwnd: isize,
    pub key: u16,
    pub name: String,
}

/// The key of a name: the default button, cancel, the focused button, the way to it.
pub open spec fn key_of(name: Seq<char>) -> Option<u16> {
    if name == "enter"@ {
        Some(0x0Du16)
    } else if name == "escape"@ {
        Some(0x1Bu16)
    } else if name == "space"@ {
        Some(0x20u16)
    } else if name == "tab"@ {
        Some(0x09u16)
    } else {
        None
    }
}

/// The window whose dialog is answered.
pub open spec fn dialog_window(args: Json, desk: Desk) -> isize {
    match named_window(args) {
        Some(n) => handle(n),
        None => desk.foreground,
    }
}

/// The name of the key that is pressed.
pub open spec fn pressed(args: Json) -> Seq<char> {
    match text_of_arg(args, "press"@) {
        Some(name) => name,
        None => "enter"@,
    }
}

/// Why no key is pressed.
pub open spec fn dialog_failure(args: Json, desk: Desk) -> Option<Failure> {
    let hwnd = dialog_window(args, desk);
    let by = desk.owner_of(hwnd);
    let text = signed_decimal(hwnd as int);
    if desk.main == 0 {
        Some(no_window())
    } else if !desk.has_ours(hwnd) {
        Some(failure(ErrorCode::NoSuchTarget, foreign_window(hwnd)))
    } else if hwnd == desk.main {
        Some(failure(ErrorCode::InvalidArguments, "that is sta's main window; use test_real_keys"@))
    } else if !desk.has_ours(by) {
        Some(failure(ErrorCode::InvalidArguments, "window "@ + text + " is not owned by a window of sta's"@))
    } else if !desk.shows(hwnd) {
        Some(failure(ErrorCode::NoSuchTarget, "window "@ + text + " is not visible"@))
    } else if key_of(pressed(args)) is None {
        Some(
            failure(
                ErrorCode::InvalidArguments,
                "unknown press "@ + quoted(pressed(args)) + " (enter, escape, space or tab)"@,
            ),
        )
    } else if desk.foreground != hwnd {
        Some(failure(ErrorCode::WindowBusy, "window "@ + text + " is not the foreground window; nothing was sent"@))
    } else {
        None
    }
}

fn key_named(name: &str) -> (r: Option<u16>)
    ensures
        r == key_of(name@),
{
    if same_text(name, "enter") {
        Some(0x0D)
    } else if same_text(name, "escape") {
        Some(0x1B)
    } else if same_text(name, "space") {
        Some(0x20)
    } else if same_text(name, "tab") {
        Some(0x09)
    } else {
        None
    }
}

/// The key that is pressed in one of our own dialogs: a visible window of this process that another one
/// of it owns. Never the main window, never one of another process, never one without an owner, and
/// never one that is not in the foreground.
pub fn dialog(args: &Json, desk: &Desk) -> (r: Result<Press, ToolError>)
    ensures
        match r {
            Ok(p) => dialog_failure(*args, *desk) is None && p.hwnd == dialog_window(*args, *desk) && p.name@ == pressed(*args) && key_of(
                pressed(*args),
            ) == Some(p.key),
            Err(e) => dialog_failure(*args, *desk) == Some(e@),
        },
{
    match main_hwnd(desk.main) {
        Ok(_) => {},
        Err(e) => {
            return Err(e);
        },
    }
    let hwnd: isize = match wanted_hwnd(args) {
        Some(h) => h,
        None => desk.foreground,
    };
    if !belongs_to_us(desk, hwnd) {
        return Err(err(ErrorCode::NoSuchTarget, foreign_message(hwnd).as_str()));
    }
    if hwnd == desk.main {
        return Err(invalid("that is sta's main window; use test_real_keys"));
    }
    let by: isize = owner(desk, hwnd);
    let text = signed_text(hwnd as i64);
    if !belongs_to_us(desk, by) {
        return Err(invalid(join3("window ", text.as_str(), " is not owned by a window of sta's").as_str()));
    }
    if !visible(desk, hwnd) {
        return Err(err(ErrorCode::NoSuchTarget, join3("window ", text.as_str(), " is not visible").as_str()));
    }
    let name = match opt_str(args, "press") {
        Some(p) => p,
        None => copy_text("enter"),
    };
    let key: u16 = match key_named(name.as_str()) {
        Some(k) => k,
        None => {
            let shown = quote(name.as_str());
            return Err(invalid(join3("unknown press ", shown.as_str(), " (enter, escape, space or tab)").as_str()));
        },
    };
    if desk.foreground != hwnd {
        return Err(err(ErrorCode::WindowBusy, join3("window ", text.as_str(), " is not the foreground window; nothing was sent").as_str()));
    }
    Ok(Press { hwnd, key, name })
}

/// The key was sent, down and up, or the foreground changed meanwhile. `window`: the window it went to.
pub fn dialog_sent(press: &Press, sent: bool, window: &WindowInfo) -> (r: Result<Output, ToolError>)
    ensures
        match r {
            Ok(o) => sent && o@ == told(
                "pressed "@ + press.name@ + " in window "@ + signed_decimal(press.hwnd as int),
                "{\"hwnd\":"@ + signed_decimal(press.hwnd as int) + ",\"press\":"@ + json_quoted(press.name@) + ",\"sent\":true,\"window\":"@
                    + info_spelled(*window, None) + "}"@,
            ),
            Err(e) => !sent && e@ == failure(
                ErrorCode::WindowBusy,
                "the foreground changed while sending "@ + press.name@ + " to "@ + signed_decimal(press.hwnd as int),
            ),
        },
{
    let text = signed_text(press.hwnd as i64);
    if !sent {
        let mut message = join3("the foreground changed while sending ", press.name.as_str(), " to ");
        message.append(text.as_str());
        return Err(ToolError { code: ErrorCode::WindowBusy, message });
    }
    let mut line = join3("pressed ", press.name.as_str(), " in window ");
    line.append(text.as_str());
    let mut data = join3("{\"hwnd\":", text.as_str(), ",\"press\":");
    data.append(json_string(press.name.as_str()).as_str());
    data.append(",\"sent\":true,\"window\":");
    data.append(info_text(window, None).as_str());
    data.append("}");
    Ok(out(line, data))
}

/// A key only ever goes to a dialog of ours: never to the main window, never to a window of another
/// process, never to one that is not in the foreground.
pub proof fn keys_stay_in_our_dialogs(args: Json, desk: Desk)
    requires
        dialog_failure(args, desk) is None,
    ensures
        ({
            let hwnd = dialog_window(args, desk);
            hwnd != desk.main && desk.has_ours(hwnd) && desk.has_ours(desk.owner_of(hwnd)) && desk.shows(hwnd) && desk.foreground == hwnd
        }),
{
}

// ------------------------------------------------------------------------------ messages

/// A message to a window.
#[derive(Debug, Clone, Copy)]
pub struct Message {
    pub message: u32,
    pub wparam: usize,
    pub name: &'static str,
}

/// The message of a name: its number, its parameter and what it is called.
pub open spec fn message_of(name: Seq<char>) -> Option<(u32, usize, Seq<char>)> {
    if name == "close"@ {
        Some((0x10u32, 0usize, "WM_CLOSE"@))
    } else if name == "restore"@ {
        Some((0x112u32, 0xF120usize, "SC_RESTORE"@))
    } else if name == "minimize"@ {
        Some((0x112u32, 0xF020usize, "SC_MINIMIZE"@))
    } else {
        None
    }
}

/// The message of a name.
pub fn post(name: &str) -> (r: Option<Message>)
    ensures
        match r {
            Some(m) => message_of(name@) == Some((m.message, m.wparam, m.name@)),
            None => message_of(name@) is None,
        },
{
    if same_text(name, "close") {
        Some(Message { message: 0x10, wparam: 0, name: "WM_CLOSE" })
    } else if same_text(name, "restore") {
        Some(Message { message: 0x112, wparam: 0xF120, name: "SC_RESTORE" })
    } else if same_text(name, "minimize") {
        Some(Message { message: 0x112, wparam: 0xF020, name: "SC_MINIMIZE" })
    } else {
        None
    }
}

/// Why no message is posted.
pub open spec fn message_failure(args: Json, desk: Desk) -> Option<Failure> {
    match target(args, desk) {
        Err(e) => Some(e),
        Ok(_) => match text_of_arg(args, "message"@) {
            None => Some(failure(ErrorCode::InvalidArguments, "message (a string) is required"@)),
            Some(name) => if message_of(name) is None {
                Some(failure(ErrorCode::InvalidArguments, "unknown message "@ + quoted(name) + " (close, restore or minimize)"@))
            } else {
                None
            },
        },
    }
}

/// The message that is posted, and the window that it is posted to.
pub fn window_message(args: &Json, desk: &Desk) -> (r: Result<(isize, Message), ToolError>)
    ensures
        match r {
            Ok((hwnd, m)) => message_failure(*args, *desk) is None && target(*args, *desk) == Ok::<isize, Failure>(hwnd) && message_of(
                text_of_arg(*args, "message"@)->0,
            ) == Some((m.message, m.wparam, m.name@)),
            Err(e) => message_failure(*args, *desk) == Some(e@),
        },
{
    let hwnd: isize = match target_hwnd(args, desk) {
        Ok(h) => h,
        Err(e) => {
            return Err(e);
        },
    };
    let name = match str_arg(args, "message") {
        Ok(s) => s,
        Err(e) => {
            proof {
                reveal_strlit("message");
                reveal_strlit(" (a string) is required");
                reveal_strlit("message (a string) is required");
                assert("message"@ + " (a string) is required"@ =~= "message (a string) is required"@);
            }
            return Err(e);
        },
    };
    match post(name.as_str()) {
        Some(m) => Ok((hwnd, m)),
        None => Err(invalid(join3("unknown message ", quote(name.as_str()).as_str(), " (close, restore or minimize)").as_str())),
    }
}

/// The answer of a message that was posted.
pub fn message_answer(hwnd: isize, m: &Message) -> (r: Output)
    ensures
        r@ == told(
            "posted "@ + m.name@,
            "{\"hwnd\":"@ + signed_decimal(hwnd as int) + ",\"posted\":"@ + json_quoted(m.name@) + "}"@,
        ),
{
    let mut data = join3("{\"hwnd\":", signed_text(hwnd as i64).as_str(), ",\"posted\":");
    data.append(json_string(m.name).as_str());
    data.append("}");
    out(join2("posted ", m.name), data)
}

/// Why no points of the main window are tested.
pub open spec fn hit_test_failure(args: Json, main: isize) -> Option<Failure> {
    if main == 0 {
        Some(no_window())
    } else {
        match points_failure(args, "points"@) {
            Some(why) => Some(failure(ErrorCode::InvalidArguments, why)),
            None => None,
        }
    }
}

/// Which window is tested, at how many points, and whether they are counted in DIP.
pub fn hit_tests(args: &Json, main: isize) -> (r: Result<(isize, usize, bool), ToolError>)
    ensures
        match r {
            Ok((hwnd, points, dip)) => hit_test_failure(*args, main) is None && hwnd == main && points == list_length(*args, "points"@) && dip == (
            text_of_arg(*args, "space"@) == Some("dip"@)),
            Err(e) => hit_test_failure(*args, main) == Some(e@),
        },
{
    let hwnd: isize = match main_hwnd(main) {
        Ok(h) => h,
        Err(e) => {
            return Err(e);
        },
    };
    match points_arg(args, "points") {
        Ok(points) => Ok((hwnd, points, named_space(args, "dip"))),
        Err(e) => Err(e),
    }
}

fn named_space(args: &Json, name: &str) -> (r: bool)
    ensures
        r == (text_of_arg(*args, "space"@) == Some(name@)),
{
    match opt_str(args, "space") {
        Some(s) => same_text(s.as_str(), name),
        None => false,
    }
}

/// Numbers as JSON.
pub open spec fn number_texts(numbers: Seq<i32>) -> Seq<Seq<char>> {
    Seq::new(numbers.len(), |i: int| signed_decimal(numbers[i] as int))
}

/// The answer about points: what the window says of each.
pub fn hit_test_answer(codes: &Vec<i32>) -> (r: Output)
    ensures
        r@ == told(decimal(codes@.len()) + " hit test(s)"@, "{\"codes\":"@ + list_of(number_texts(codes@)) + "}"@),
{
    let mut texts: Vec<String> = Vec::new();
    while texts.len() < codes.len()
        invariant
            texts@.len() <= codes@.len(),
            forall|i: int| 0 <= i < texts@.len() ==> (#[trigger] texts@[i])@ == signed_decimal(codes@[i] as int),
        decreases codes@.len() - texts@.len(),
    {
        let i: usize = texts.len();
        texts.push(signed_text(codes[i] as i64));
    }
    proof {
        assert(text_views(texts@) =~= number_texts(codes@));
    }
    out(join2(decimal_text(codes.len() as u64).as_str(), " hit test(s)"), join3("{\"codes\":", write_list(&texts).as_str(), "}"))
}

/// Where a point of a window lies on the screen, as the hit test takes it. `left` and `top`: the corner
/// of the window.
pub fn hit_test(left: i32, top: i32, x: i32, y: i32) -> (r: u32)
    requires
        i32::MIN <= left + x <= i32::MAX,
        i32::MIN <= top + y <= i32::MAX,
    ensures
        r == crate::platform::win::packed(left + x, top + y),
{
    mouse_lparam(left + x, top + y)
}

// ------------------------------------------------------------------------------ base64

/// The character for six bits.
pub open spec fn base64_char(n: int) -> char {
    if n < 26 {
        (65 + n) as char
    } else if n < 52 {
        (97 + n - 26) as char
    } else if n < 62 {
        (48 + n - 52) as char
    } else if n == 62 {
        '+'
    } else {
        '/'
    }
}

/// Three bytes in four characters, the first ones of them first; `=` where there is no byte.
pub open spec fn base64_from(bytes: Seq<u8>, i: int) -> Seq<char>
    decreases larger(bytes.len() - i, 0),
{
    if i < 0 || i >= bytes.len() {
        Seq::empty()
    } else {
        let a = bytes[i] as int;
        let b = if i + 1 < bytes.len() { bytes[i + 1] as int } else { 0 };
        let c = if i + 2 < bytes.len() { bytes[i + 2] as int } else { 0 };
        seq![
            base64_char(a / 4),
            base64_char(a % 4 * 16 + b / 16),
            if i + 1 < bytes.len() { base64_char(b % 16 * 4 + c / 64) } else { '=' },
            if i + 2 < bytes.len() { base64_char(c % 64) } else { '=' },
        ] + base64_from(bytes, i + 3)
    }
}

fn sixbit(n: u8) -> (r: char)
    requires
        n < 64,
    ensures
        r == base64_char(n as int),
{
    if n < 26 {
        (65u8 + n) as char
    } else if n < 52 {
        (71u8 + n) as char
    } else if n < 62 {
        (n - 4u8) as char
    } else if n == 62 {
        '+'
    } else {
        '/'
    }
}

/// Bytes in the standard alphabet, with padding.
pub fn base64(bytes: &[u8]) -> (r: String)
    ensures
        r@ == base64_from(bytes@, 0),
{
    let total: usize = bytes.len();
    let mut out = String::new();
    let mut i: usize = 0;
    let ghost whole = base64_from(bytes@, 0);
    proof {
        assert(out@ + whole =~= whole);
    }
    while i < total
        invariant
            i <= total,
            total == bytes@.len(),
            whole == out@ + base64_from(bytes@, i as int),
        decreases total - i,
    {
        let left: usize = total - i;
        let a: u8 = bytes[i];
        let b: u8 = if left > 1 { bytes[i + 1] } else { 0 };
        let c: u8 = if left > 2 { bytes[i + 2] } else { 0 };
        let ghost before = out@;
        out.push(sixbit(a / 4));
        out.push(sixbit(a % 4 * 16 + b / 16));
        out.push(if left > 1 { sixbit(b % 16 * 4 + c / 64) } else { '=' });
        out.push(if left > 2 { sixbit(c % 64) } else { '=' });
        let next: usize = if left > 3 { i + 3 } else { total };
        proof {
            let four = seq![
                base64_char(a as int / 4),
                base64_char(a as int % 4 * 16 + b as int / 16),
                if left > 1 { base64_char(b as int % 16 * 4 + c as int / 64) } else { '=' },
                if left > 2 { base64_char(c as int % 64) } else { '=' },
            ];
            assert(out@ =~= before + four);
            let rest = base64_from(bytes@, i + 3);
            if left <= 3 {
                assert(rest =~= Seq::<char>::empty());
                assert(base64_from(bytes@, next as int) =~= Seq::<char>::empty());
            }
            assert(before + (four + rest) =~= out@ + rest);
        }
        i = next;
    }
    proof {
        assert(out@ + Seq::<char>::empty() =~= out@);
    }
    out
}

// ------------------------------------------------------------------------------ captures

/// Where a capture goes.
pub enum Place {
    /// Into the answer.
    Inline,
    /// Into this file.
    File(String),
    /// Into a file among the logs.
    Logs,
}

/// The window that is captured, whether only its inside is, and where the picture goes.
pub struct Capture {
    pub hwnd: isize,
    pub client_only: bool,
    pub place: Place,
}

/// Where a capture goes.
pub open spec fn placed(args: Json, place: Place) -> bool {
    if truth_of_arg(args, "inline"@, false) {
        place is Inline
    } else {
        match text_of_arg(args, "out"@) {
            Some(path) => match place {
                Place::File(p) => p@ == path,
                _ => false,
            },
            None => place is Logs,
        }
    }
}

/// Which window is captured, and where to.
pub fn capture_window(args: &Json, desk: &Desk) -> (r: Result<Capture, ToolError>)
    ensures
        match r {
            Ok(c) => target(*args, *desk) == Ok::<isize, Failure>(c.hwnd) && c.client_only == (text_of_arg(*args, "region"@) == Some("client"@)) && placed(
                *args,
                c.place,
            ),
            Err(e) => target(*args, *desk) == Err::<isize, Failure>(e@),
        },
{
    let hwnd: isize = match target_hwnd(args, desk) {
        Ok(h) => h,
        Err(e) => {
            return Err(e);
        },
    };
    let client_only = match opt_str(args, "region") {
        Some(s) => same_text(s.as_str(), "client"),
        None => false,
    };
    let place = if crate::test_hooks::bool_arg(args, "inline", false) {
        Place::Inline
    } else {
        match opt_str(args, "out") {
            Some(p) => Place::File(p),
            None => Place::Logs,
        }
    };
    Ok(Capture { hwnd, client_only, place })
}

/// A picture for the answer itself, `most` characters at most.
pub fn inline_capture(png: &[u8], most: usize) -> (r: Result<String, ToolError>)
    ensures
        ({
            let data = base64_from(png@, 0);
            match r {
                Ok(s) => s@ == data && data.len() <= most,
                Err(e) => data.len() > most && e@ == failure(
                    ErrorCode::TooLarge,
                    "the capture is "@ + decimal(data.len()) + " base64 characters; write it to a file instead"@,
                ),
            }
        }),
{
    let data = base64(png);
    let length: usize = chars_of(data.as_str()).len();
    if length > most {
        let message = join3("the capture is ", decimal_text(length as u64).as_str(), " base64 characters; write it to a file instead");
        return Err(ToolError { code: ErrorCode::TooLarge, message });
    }
    Ok(data)
}

/// A window could not be drawn, or its picture not be written.
pub fn capture_failed(why: &str) -> (r: ToolError)
    ensures
        r@ == failure(ErrorCode::Internal, why@),
{
    err(ErrorCode::Internal, why)
}

/// The size of a picture in words.
pub open spec fn size_text(width: u32, height: u32) -> Seq<char> {
    decimal(width as nat) + "x"@ + decimal(height as nat)
}

fn size_of(width: u32, height: u32) -> (r: String)
    ensures
        r@ == size_text(width, height),
{
    join3(decimal_text(width as u64).as_str(), "x", decimal_text(height as u64).as_str())
}

/// The answer of a capture that goes into the answer itself, `most` characters at most. `scale`: the device
/// pixels per DIP, as JSON.
pub fn inline_answer(width: u32, height: u32, png: &[u8], scale: &str, most: usize) -> (r: Result<Output, ToolError>)
    ensures
        ({
            let data = base64_from(png@, 0);
            match r {
                Ok(o) => data.len() <= most && o@ == told(
                    size_text(width, height) + " inline capture"@,
                    "{\"data\":"@ + json_quoted(data) + ",\"height\":"@ + decimal(height as nat) + ",\"scale\":"@ + scale@ + ",\"width\":"@
                        + decimal(width as nat) + "}"@,
                ),
                Err(e) => data.len() > most && e@ == failure(
                    ErrorCode::TooLarge,
                    "the capture is "@ + decimal(data.len()) + " base64 characters; write it to a file instead"@,
                ),
            }
        }),
{
    match inline_capture(png, most) {
        Err(e) => Err(e),
        Ok(picture) => {
            let mut data = join3("{\"data\":", json_string(picture.as_str()).as_str(), ",\"height\":");
            data.append(decimal_text(height as u64).as_str());
            data.append(",\"scale\":");
            data.append(scale);
            data.append(",\"width\":");
            data.append(decimal_text(width as u64).as_str());
            data.append("}");
            Ok(out(join2(size_of(width, height).as_str(), " inline capture"), data))
        },
    }
}

/// The directory of the logs, for a capture that names no file.
pub fn capture_directory(logs: Option<&str>) -> (r: Result<String, ToolError>)
    ensures
        match r {
            Ok(dir) => opt_view(logs) == Some(dir@),
            Err(e) => logs is None && e@ == failure(ErrorCode::Internal, "no data directory yet"@),
        },
{
    match logs {
        Some(dir) => Ok(copy_text(dir)),
        None => Err(err(ErrorCode::Internal, "no data directory yet")),
    }
}

/// The answer of a capture that was written to a file, or could not be. `bytes`: the length of the file;
/// `scale`: the device pixels per DIP, as JSON; `written`: the error, where there was one.
pub fn saved_answer(path: &str, width: u32, height: u32, bytes: usize, scale: &str, written: Result<(), &str>) -> (r: Result<Output, ToolError>)
    ensures
        match r {
            Ok(o) => written is Ok && o@ == told(
                "saved "@ + path@ + " ("@ + size_text(width, height) + ")"@,
                "{\"bytes\":"@ + decimal(bytes as nat) + ",\"height\":"@ + decimal(height as nat) + ",\"path\":"@ + json_quoted(path@)
                    + ",\"scale\":"@ + scale@ + ",\"width\":"@ + decimal(width as nat) + "}"@,
            ),
            Err(e) => written is Err && e@ == failure(ErrorCode::Internal, "cannot write "@ + path@ + ": "@ + written->Err_0@),
        },
{
    match written {
        Err(why) => {
            let mut message = join3("cannot write ", path, ": ");
            message.append(why);
            return Err(ToolError { code: ErrorCode::Internal, message });
        },
        Ok(_) => {},
    }
    let mut line = join3("saved ", path, " (");
    line.append(size_of(width, height).as_str());
    line.append(")");
    let mut data = join3("{\"bytes\":", decimal_text(bytes as u64).as_str(), ",\"height\":");
    data.append(decimal_text(height as u64).as_str());
    data.append(",\"path\":");
    data.append(json_string(path).as_str());
    data.append(",\"scale\":");
    data.append(scale);
    data.append(",\"width\":");
    data.append(decimal_text(width as u64).as_str());
    data.append("}");
    Ok(out(line, data))
}

/// The name of a capture among the logs.
pub fn default_capture_name(stamp_ms: u64) -> (r: String)
    ensures
        r@ == "capture-"@ + decimal(stamp_ms as nat) + ".png"@,
{
    join3("capture-", decimal_text(stamp_ms).as_str(), ".png")
}

// ------------------------------------------------------------------------------ pixels

/// A coordinate moved into `0..size`.
pub open spec fn held_in(v: int, size: int) -> int {
    if v < 0 {
        0
    } else if v >= size {
        size - 1
    } else {
        v
    }
}

/// A color as `#rrggbb`.
pub open spec fn color_text(p: Seq<u8>) -> Seq<char> {
    "#"@ + hex(p[0] as nat, 2) + hex(p[1] as nat, 2) + hex(p[2] as nat, 2)
}

fn hold(v: i64, size: u32) -> (r: u32)
    requires
        size > 0,
    ensures
        r == held_in(v as int, size as int),
{
    if v < 0 {
        0
    } else if v >= size as i64 {
        size - 1
    } else {
        v as u32
    }
}

/// The color of a picture at a point, in pixels of it; a point outside counts as the nearest one inside.
pub fn color_at(image: &Image, x: i64, y: i64) -> (r: String)
    requires
        image@.covers(),
        image.width > 0,
        image.height > 0,
    ensures
        r@ == color_text(image@.at(held_in(x as int, image.width as int), held_in(y as int, image.height as int))),
{
    let px: u32 = hold(x, image.width);
    let py: u32 = hold(y, image.height);
    let p: [u8; 4] = match image.pixel(px, py) {
        Some(p) => p,
        None => [0, 0, 0, 0],
    };
    let mut out = copy_text("#");
    out.append(hex_text(p[0] as u64, 2).as_str());
    out.append(hex_text(p[1] as u64, 2).as_str());
    out.append(hex_text(p[2] as u64, 2).as_str());
    out
}

/// Why no colors of a picture are read.
pub open spec fn pixels_failure(args: Json) -> Option<Failure> {
    match text_of_arg(args, "path"@) {
        None => Some(failure(ErrorCode::InvalidArguments, "path"@ + " (a string) is required"@)),
        Some(_) => match points_failure(args, "points"@) {
            Some(why) => Some(failure(ErrorCode::InvalidArguments, why)),
            None => None,
        },
    }
}

/// Which picture is read, at how many points, and whether they are counted in its pixels (else in DIP).
pub fn pixels_wanted(args: &Json) -> (r: Result<(String, usize, bool), ToolError>)
    ensures
        match r {
            Ok((path, points, device)) => pixels_failure(*args) is None && text_of_arg(*args, "path"@) == Some(path@) && points == list_length(
                *args,
                "points"@,
            ) && device == (text_of_arg(*args, "space"@) == Some("device"@)),
            Err(e) => pixels_failure(*args) == Some(e@),
        },
{
    let path = match str_arg(args, "path") {
        Ok(p) => p,
        Err(e) => {
            return Err(e);
        },
    };
    match points_arg(args, "points") {
        Ok(points) => Ok((path, points, named_space(args, "device"))),
        Err(e) => Err(e),
    }
}

/// The colors of a picture at some points.
pub open spec fn colors_at(p: Picture, points: Seq<(i64, i64)>) -> Seq<Seq<char>> {
    Seq::new(
        points.len(),
        |i: int| color_text(p.at(held_in(points[i].0 as int, p.width as int), held_in(points[i].1 as int, p.height as int))),
    )
}

/// JSON strings of some texts.
pub open spec fn quoted_texts(texts: Seq<Seq<char>>) -> Seq<Seq<char>> {
    Seq::new(texts.len(), |i: int| json_quoted(texts[i]))
}

/// The answer about the colors of a picture, or what is wrong with its file. `file`: its bytes, or why it
/// cannot be read; the points are counted in the picture's pixels; `scale` is JSON.
pub open spec fn pixels_told(
    path: Seq<char>,
    file: Result<Seq<u8>, Seq<char>>,
    points: Seq<(i64, i64)>,
    scale: Seq<char>,
) -> Result<Told, Failure> {
    match file {
        Err(why) => Err(failure(ErrorCode::NoSuchTarget, "cannot read "@ + path + ": "@ + why)),
        Ok(bytes) => match decoded(bytes) {
            Err(why) => Err(failure(ErrorCode::InvalidArguments, path + ": "@ + why)),
            Ok(p) => Ok(
                told(
                    decimal(points.len()) + " pixel(s)"@,
                    "{\"colors\":"@ + list_of(quoted_texts(colors_at(p, points))) + ",\"height\":"@ + decimal(p.height) + ",\"scale\":"@ + scale
                        + ",\"width\":"@ + decimal(p.width) + "}"@,
                ),
            ),
        },
    }
}

/// A file as it was read, or why it was not.
pub open spec fn file_seen(file: Result<&[u8], &str>) -> Result<Seq<u8>, Seq<char>> {
    match file {
        Ok(bytes) => Ok(bytes@),
        Err(why) => Err(why@),
    }
}

/// The colors of a picture at some points, in pixels of it. `file`: its bytes, or why it cannot be read;
/// `scale`: the pixels per unit that the points were multiplied by, as JSON.
pub fn pixels(path: &str, file: Result<&[u8], &str>, points: &Vec<(i64, i64)>, scale: &str) -> (r: Result<Output, ToolError>)
    ensures
        match r {
            Ok(o) => pixels_told(path@, file_seen(file), points@, scale@) == Ok::<Told, Failure>(o@),
            Err(e) => pixels_told(path@, file_seen(file), points@, scale@) == Err::<Told, Failure>(e@),
        },
{
    let bytes = match file {
        Ok(b) => b,
        Err(why) => {
            let mut message = join3("cannot read ", path, ": ");
            message.append(why);
            return Err(ToolError { code: ErrorCode::NoSuchTarget, message });
        },
    };
    let image = match read_png(bytes) {
        Ok(i) => i,
        Err(why) => {
            return Err(invalid(join3(path, ": ", why.as_str()).as_str()));
        },
    };
    proof {
        a_read_image_is_whole(bytes@);
    }
    let mut colors: Vec<String> = Vec::new();
    while colors.len() < points.len()
        invariant
            image@.covers(),
            image.width > 0,
            image.height > 0,
            colors@.len() <= points@.len(),
            forall|i: int| 0 <= i < colors@.len() ==> (#[trigger] colors@[i])@ == json_quoted(colors_at(image@, points@)[i]),
        decreases points@.len() - colors@.len(),
    {
        let i: usize = colors.len();
        let point: (i64, i64) = points[i];
        colors.push(json_string(color_at(&image, point.0, point.1).as_str()));
    }
    proof {
        assert(text_views(colors@) =~= quoted_texts(colors_at(image@, points@)));
    }
    let mut data = join3("{\"colors\":", write_list(&colors).as_str(), ",\"height\":");
    data.append(decimal_text(image.height as u64).as_str());
    data.append(",\"scale\":");
    data.append(scale);
    data.append(",\"width\":");
    data.append(decimal_text(image.width as u64).as_str());
    data.append("}");
    Ok(out(join2(decimal_text(points.len() as u64).as_str(), " pixel(s)"), data))
}

// ------------------------------------------------------------------------------ the rest

/// The line of text for the clipboard.
pub fn clipboard_summary(text: Option<&str>) -> (r: String)
    ensures
        r@ == (match text {
            Some(t) => decimal(t@.len()) + " clipboard characters"@,
            None => "the clipboard holds no text"@,
        }),
{
    match text {
        Some(t) => {
            let count: usize = chars_of(t).len();
            join2(decimal_text(count as u64).as_str(), " clipboard characters")
        },
        None => copy_text("the clipboard holds no text"),
    }
}

/// The answer about the clipboard.
pub fn clipboard_get(text: Option<&str>) -> (r: Output)
    ensures
        r@ == told(
            match text {
                Some(t) => decimal(t@.len()) + " clipboard characters"@,
                None => "the clipboard holds no text"@,
            },
            "{\"text\":"@ + optional_spelled(opt_view(text)) + "}"@,
        ),
{
    out(clipboard_summary(text), join3("{\"text\":", optional_text(text).as_str(), "}"))
}

/// The text that is put on the clipboard, and what it means that it could not be.
pub fn clipboard_set(args: &Json) -> (r: Result<String, ToolError>)
    ensures
        match r {
            Ok(s) => text_of_arg(*args, "text"@) == Some(s@),
            Err(e) => text_of_arg(*args, "text"@) is None && e@ == failure(
                ErrorCode::InvalidArguments,
                "text"@ + " (a string) is required"@,
            ),
        },
{
    str_arg(args, "text")
}

/// What became of setting the clipboard to a text.
pub fn clipboard_was_set(text: &str, ok: bool) -> (r: Result<Output, ToolError>)
    ensures
        match r {
            Ok(o) => ok && o@ == told("clipboard set"@, "{\"text\":"@ + json_quoted(text@) + "}"@),
            Err(e) => !ok && e@ == failure(ErrorCode::Internal, "the clipboard could not be opened"@),
        },
{
    if !ok {
        return Err(err(ErrorCode::Internal, "the clipboard could not be opened"));
    }
    Ok(out(copy_text("clipboard set"), join3("{\"text\":", json_string(text).as_str(), "}")))
}

/// The mark that a downloaded file carries: where it is read from.
pub fn zone_stream(path: &str) -> (r: String)
    ensures
        r@ == path@ + ":Zone.Identifier"@,
{
    join2(path, ":Zone.Identifier")
}

/// The answer about the mark of a file; a file that does not exist has none.
pub fn zone_identifier(path: &str, exists: bool, zone: Option<&str>) -> (r: Result<Output, ToolError>)
    ensures
        match r {
            Ok(o) => exists && o@ == told(
                if zone is Some { "the file carries a Zone.Identifier"@ } else { "no Zone.Identifier"@ },
                "{\"zone\":"@ + optional_spelled(opt_view(zone)) + "}"@,
            ),
            Err(e) => !exists && e@ == failure(ErrorCode::NoSuchTarget, path@ + " does not exist"@),
        },
{
    if !exists {
        return Err(err(ErrorCode::NoSuchTarget, join2(path, " does not exist").as_str()));
    }
    let line = if zone.is_some() {
        copy_text("the file carries a Zone.Identifier")
    } else {
        copy_text("no Zone.Identifier")
    };
    Ok(out(line, join3("{\"zone\":", optional_text(zone).as_str(), "}")))
}

/// The process of a number.
pub open spec fn process(n: u64) -> u32 {
    n as u32
}

/// The processes that a list names from position `i` on; what is no number is passed over.
pub open spec fn named_processes(list: Seq<Json>, i: int) -> Seq<u32>
    decreases list.len() - i,
{
    if i < 0 || i >= list.len() {
        Seq::empty()
    } else {
        match list[i].unsigned_number() {
            Some(n) => seq![process(n)] + named_processes(list, i + 1),
            None => named_processes(list, i + 1),
        }
    }
}

/// The processes that console windows are looked for: our own, always, and those that are named.
pub fn console_roots(args: &Json, our_pid: u32) -> (r: Vec<u32>)
    ensures
        r@ == seq![our_pid] + (match args.member("roots"@) {
            Some(Json::List(list)) => named_processes(list@, 0),
            _ => Seq::empty(),
        }),
{
    let mut roots: Vec<u32> = Vec::new();
    roots.push(our_pid);
    match args.get("roots") {
        Some(Json::List(list)) => {
            let total: usize = list.len();
            let mut i: usize = 0;
            let ghost whole = seq![our_pid] + named_processes(list@, 0);
            proof {
                assert(roots@ =~= seq![our_pid]);
            }
            while i < total
                invariant
                    i <= total,
                    total == list@.len(),
                    whole == roots@ + named_processes(list@, i as int),
                decreases total - i,
            {
                match list[i].as_u64() {
                    Some(n) => {
                        let pid: u32 = #[verifier::truncate]
                        (n as u32);
                        let ghost before = roots@;
                        roots.push(pid);
                        proof {
                            assert(before + (seq![pid] + named_processes(list@, i + 1)) =~= roots@ + named_processes(list@, i + 1));
                        }
                    },
                    None => {},
                }
                i = i + 1;
            }
            proof {
                assert(roots@ + Seq::<u32>::empty() =~= roots@);
            }
        },
        _ => {
            proof {
                assert(roots@ =~= seq![our_pid] + Seq::<u32>::empty());
            }
        },
    }
    roots
}

/// The line of text for console windows.
pub fn console_summary(current: usize, seen: usize, visible: usize, ours: usize) -> (r: String)
    ensures
        r@ == decimal(current as nat) + " console window(s) now, "@ + decimal(seen as nat) + " seen ("@ + decimal(visible as nat) + " user-visible), "@
            + decimal(ours as nat) + " ours"@,
{
    let mut line = join3(decimal_text(current as u64).as_str(), " console window(s) now, ", decimal_text(seen as u64).as_str());
    line.append(" seen (");
    line.append(decimal_text(visible as u64).as_str());
    line.append(" user-visible), ");
    line.append(decimal_text(ours as u64).as_str());
    line.append(" ours");
    line
}

/// What was seen before a report is taken: nothing, where the arguments say so.
pub open spec fn seen_for(args: Json, seen: Seq<console_watch::SeenModel>) -> Seq<console_watch::SeenModel> {
    if truth_of_arg(args, "reset"@, false) { Seq::empty() } else { seen }
}

/// The processes that are looked for.
pub open spec fn roots_of(args: Json, our_pid: u32) -> Seq<u32> {
    seq![our_pid] + (match args.member("roots"@) {
        Some(Json::List(list)) => named_processes(list@, 0),
        _ => Seq::empty(),
    })
}

/// The answer about console windows: those on the desktop now (`windows`), and those that were seen, which
/// are forgotten first where the arguments say so. `exe`: our own program, in lower case; `at`: the
/// milliseconds since the process started.
pub fn console_windows(args: &Json, watch: &mut Watch, our_pid: u32, exe: &str, windows: &Vec<Window>, at: u64) -> (r: Output)
    ensures
        ({
            let seen = seen_for(*args, console_watch::seen_views(old(watch).seen@));
            let all = console_watch::told_all(seen, roots_of(*args, our_pid), exe@);
            let ours = console_watch::ours_from(all, 0);
            let now = console_watch::console_positions(windows@, 0);
            &&& console_watch::seen_views(final(watch).seen@) == seen
            &&& final(watch).hook == old(watch).hook
            &&& r@ == told(
                decimal(now.len()) + " console window(s) now, "@ + decimal(all.len()) + " seen ("@ + decimal(
                    console_watch::visible_entries(all),
                ) + " user-visible), "@ + decimal(ours.len()) + " ours"@,
                console_watch::report_spelled(console_watch::window_texts(windows@, now), all, ours, old(watch).hook != 0, at),
            )
        }),
{
    if bool_arg(args, "reset", false) {
        console_watch::reset(watch);
    }
    let roots = console_roots(args, our_pid);
    let taken = console_watch::snapshot(watch, roots.as_slice(), exe, at);
    let now = console_watch::current_texts(windows);
    let visible: usize = console_watch::count_visible(&taken.seen);
    let line = console_summary(now.len(), taken.seen.len(), visible, taken.ours.len());
    out(line, console_watch::report_text(&now, &taken))
}

// ------------------------------------------------------------------------------ the list of windows

/// A window with a thick frame can be resized.
pub const WS_THICKFRAME: u32 = 0x0004_0000;

/// A window as the system describes it.
pub struct RawInfo {
    pub hwnd: isize,
    pub pid: u32,
    pub edges: Option<Edges>,
    pub dpi: u32,
    pub zoomed: bool,
    pub iconic: bool,
    pub style: u32,
    pub ex_style: u32,
    pub owner: isize,
    pub visible: bool,
    pub enabled: bool,
    pub class_name: String,
    pub title: String,
}

/// Where a window is: left, top, width and height, all 0 where that is not known.
pub open spec fn place_sides(edges: Option<Edges>) -> Seq<i32> {
    match edges {
        Some(e) => sided(e),
        None => seq![0i32, 0, 0, 0],
    }
}

fn place_of(edges: Option<Edges>) -> (r: [i32; 4])
    requires
        edges is Some ==> edges->0.fits(),
    ensures
        r@ == place_sides(edges),
{
    match edges {
        Some(e) => sides(e),
        None => {
            let nowhere: [i32; 4] = [0, 0, 0, 0];
            proof {
                assert(nowhere@ =~= place_sides(edges));
            }
            nowhere
        },
    }
}

/// What is said of the main window.
pub struct WindowInfo {
    pub hwnd: isize,
    pub place: [i32; 4],
    pub dpi: u32,
    pub zoomed: bool,
    pub iconic: bool,
    pub thick_frame: bool,
    pub enabled: bool,
    pub foreground: bool,
    pub class_name: String,
    pub title: String,
}

/// What is said of the main window.
pub fn info(raw: RawInfo, foreground: isize) -> (r: WindowInfo)
    requires
        raw.edges is Some ==> raw.edges->0.fits(),
    ensures
        r.hwnd == raw.hwnd,
        r.place@ == place_sides(raw.edges),
        r.dpi == (if raw.hwnd == 0 || raw.dpi == 0 { 96 } else { raw.dpi }),
        r.zoomed == raw.zoomed && r.iconic == raw.iconic && r.enabled == raw.enabled,
        r.thick_frame == (raw.style & WS_THICKFRAME != 0),
        r.foreground == (foreground == raw.hwnd),
        r.class_name == raw.class_name && r.title == raw.title,
{
    WindowInfo {
        hwnd: raw.hwnd,
        place: place_of(raw.edges),
        dpi: dpi_of(raw.hwnd, raw.dpi),
        zoomed: raw.zoomed,
        iconic: raw.iconic,
        thick_frame: raw.style & WS_THICKFRAME != 0,
        enabled: raw.enabled,
        foreground: foreground == raw.hwnd,
        class_name: raw.class_name,
        title: raw.title,
    }
}

/// The modifier keys that are down (control, shift, alt), by the state that the system reports of each:
/// its highest bit says so.
pub fn modifiers(control: u16, shift: u16, alt: u16) -> (r: (bool, bool, bool))
    ensures
        r == (control & 0x8000 != 0, shift & 0x8000 != 0, alt & 0x8000 != 0),
{
    (control & 0x8000 != 0, shift & 0x8000 != 0, alt & 0x8000 != 0)
}

/// What is said of a top-level window.
pub struct TopLevel {
    pub hwnd: isize,
    pub class_name: String,
    pub title: String,
    pub owner: isize,
    pub visible: bool,
    pub hidden: bool,
    pub style: u32,
    pub ex_style: u32,
    pub enabled: bool,
    pub place: [i32; 4],
}

/// It is what is said of the window.
pub open spec fn describes(t: TopLevel, raw: RawInfo, hidden: Seq<isize>) -> bool {
    &&& t.hwnd == raw.hwnd && t.owner == raw.owner && t.visible == raw.visible && t.enabled == raw.enabled
    &&& t.style == raw.style && t.ex_style == raw.ex_style
    &&& t.class_name@ == raw.class_name@ && t.title@ == raw.title@
    &&& t.hidden == hidden.contains(raw.hwnd)
    &&& t.place@ == place_sides(raw.edges)
}

/// The positions of the windows of a process, from position `i` on.
pub open spec fn windows_of(all: Seq<RawInfo>, pid: u32, i: int) -> Seq<int>
    decreases all.len() - i,
{
    if i < 0 || i >= all.len() {
        Seq::empty()
    } else if all[i].pid == pid {
        seq![i] + windows_of(all, pid, i + 1)
    } else {
        windows_of(all, pid, i + 1)
    }
}

fn is_among(list: &Vec<isize>, hwnd: isize) -> (r: bool)
    ensures
        r == list@.contains(hwnd),
{
    let mut i: usize = 0;
    while i < list.len()
        invariant
            i <= list@.len(),
            forall|k: int| 0 <= k < i ==> list@[k] != hwnd,
        decreases list@.len() - i,
    {
        if list[i] == hwnd {
            proof {
                assert(list@[i as int] == hwnd);
            }
            return true;
        }
        i = i + 1;
    }
    false
}

/// The top-level windows of process `pid`, in the order of the desktop; `hidden` are those that nobody
/// sees.
pub fn top_level_windows(all: &Vec<RawInfo>, pid: u32, hidden: &Vec<isize>) -> (r: Vec<TopLevel>)
    requires
        forall|i: int| 0 <= i < all@.len() && (#[trigger] all@[i]).edges is Some ==> all@[i].edges->0.fits(),
    ensures
        r@.len() == windows_of(all@, pid, 0).len(),
        forall|k: int| 0 <= k < r@.len() ==> describes(#[trigger] r@[k], all@[windows_of(all@, pid, 0)[k]], hidden@),
{
    let mut out: Vec<TopLevel> = Vec::new();
    let mut i: usize = 0;
    let ghost whole = windows_of(all@, pid, 0);
    let ghost mut done: Seq<int> = Seq::empty();
    proof {
        assert(whole =~= done + windows_of(all@, pid, 0));
    }
    while i < all.len()
        invariant
            i <= all@.len(),
            whole == done + windows_of(all@, pid, i as int),
            done.len() == out@.len(),
            forall|k: int| 0 <= k < done.len() ==> 0 <= #[trigger] done[k] < all@.len(),
            forall|k: int| 0 <= k < out@.len() ==> describes(#[trigger] out@[k], all@[done[k]], hidden@),
            forall|i: int| 0 <= i < all@.len() && (#[trigger] all@[i]).edges is Some ==> all@[i].edges->0.fits(),
        decreases all@.len() - i,
    {
        if all[i].pid == pid {
            let raw = &all[i];
            out.push(
                TopLevel {
                    hwnd: raw.hwnd,
                    class_name: copy_text(raw.class_name.as_str()),
                    title: copy_text(raw.title.as_str()),
                    owner: raw.owner,
                    visible: raw.visible,
                    hidden: is_among(hidden, raw.hwnd),
                    style: raw.style,
                    ex_style: raw.ex_style,
                    enabled: raw.enabled,
                    place: place_of(raw.edges),
                },
            );
            proof {
                done = done.push(i as int);
                assert(whole =~= done + windows_of(all@, pid, i + 1));
            }
        }
        i = i + 1;
    }
    proof {
        assert(whole =~= done);
    }
    out
}

/// The keys that are held, as JSON: control, shift and alt.
pub open spec fn modifiers_spelled(held: (bool, bool, bool)) -> Seq<char> {
    "{\"alt\":"@ + truth_spelled(held.2) + ",\"ctrl\":"@ + truth_spelled(held.0) + ",\"shift\":"@ + truth_spelled(held.1) + "}"@
}

fn modifiers_text(held: (bool, bool, bool)) -> (r: String)
    ensures
        r@ == modifiers_spelled(held),
{
    let mut r = join3("{\"alt\":", truth_text(held.2), ",\"ctrl\":");
    r.append(truth_text(held.0));
    r.append(",\"shift\":");
    r.append(truth_text(held.1));
    r.append("}");
    r
}

/// What is said of a window, as JSON, with the keys that are held where they are asked for.
pub open spec fn info_spelled(i: WindowInfo, held: Option<(bool, bool, bool)>) -> Seq<char> {
    "{\"className\":"@ + json_quoted(i.class_name@) + ",\"dpi\":"@ + decimal(i.dpi as nat) + ",\"enabled\":"@ + truth_spelled(i.enabled)
        + ",\"foreground\":"@ + truth_spelled(i.foreground) + ",\"height\":"@ + signed_decimal(i.place@[3] as int) + ",\"hwnd\":"@ + signed_decimal(
        i.hwnd as int,
    ) + ",\"iconic\":"@ + truth_spelled(i.iconic) + ",\"left\":"@ + signed_decimal(i.place@[0] as int) + (match held {
        Some(keys) => ",\"modifiers\":"@ + modifiers_spelled(keys),
        None => ""@,
    }) + ",\"thickFrame\":"@ + truth_spelled(i.thick_frame) + ",\"title\":"@ + json_quoted(i.title@) + ",\"top\":"@ + signed_decimal(
        i.place@[1] as int,
    ) + ",\"width\":"@ + signed_decimal(i.place@[2] as int) + ",\"zoomed\":"@ + truth_spelled(i.zoomed) + "}"@
}

fn info_text(i: &WindowInfo, held: Option<(bool, bool, bool)>) -> (r: String)
    ensures
        r@ == info_spelled(*i, held),
{
    let mut r = join3("{\"className\":", json_string(i.class_name.as_str()).as_str(), ",\"dpi\":");
    r.append(decimal_text(i.dpi as u64).as_str());
    r.append(",\"enabled\":");
    r.append(truth_text(i.enabled));
    r.append(",\"foreground\":");
    r.append(truth_text(i.foreground));
    r.append(",\"height\":");
    r.append(signed_text(i.place[3] as i64).as_str());
    r.append(",\"hwnd\":");
    r.append(signed_text(i.hwnd as i64).as_str());
    r.append(",\"iconic\":");
    r.append(truth_text(i.iconic));
    r.append(",\"left\":");
    r.append(signed_text(i.place[0] as i64).as_str());
    let keys = match held {
        Some(keys) => join2(",\"modifiers\":", modifiers_text(keys).as_str()),
        None => copy_text(""),
    };
    r.append(keys.as_str());
    r.append(",\"thickFrame\":");
    r.append(truth_text(i.thick_frame));
    r.append(",\"title\":");
    r.append(json_string(i.title.as_str()).as_str());
    r.append(",\"top\":");
    r.append(signed_text(i.place[1] as i64).as_str());
    r.append(",\"width\":");
    r.append(signed_text(i.place[2] as i64).as_str());
    r.append(",\"zoomed\":");
    r.append(truth_text(i.zoomed));
    r.append("}");
    r
}

/// What is said of a top-level window, as JSON.
pub open spec fn top_level_spelled(t: TopLevel) -> Seq<char> {
    "{\"className\":"@ + json_quoted(t.class_name@) + ",\"enabled\":"@ + truth_spelled(t.enabled) + ",\"exStyle\":"@ + decimal(t.ex_style as nat)
        + ",\"height\":"@ + signed_decimal(t.place@[3] as int) + ",\"hidden\":"@ + truth_spelled(t.hidden) + ",\"hwnd\":"@ + signed_decimal(
        t.hwnd as int,
    ) + ",\"left\":"@ + signed_decimal(t.place@[0] as int) + ",\"owner\":"@ + signed_decimal(t.owner as int) + ",\"style\":"@ + decimal(
        t.style as nat,
    ) + ",\"title\":"@ + json_quoted(t.title@) + ",\"top\":"@ + signed_decimal(t.place@[1] as int) + ",\"visible\":"@ + truth_spelled(t.visible)
        + ",\"width\":"@ + signed_decimal(t.place@[2] as int) + "}"@
}

fn top_level_text(t: &TopLevel) -> (r: String)
    ensures
        r@ == top_level_spelled(*t),
{
    let mut r = join3("{\"className\":", json_string(t.class_name.as_str()).as_str(), ",\"enabled\":");
    r.append(truth_text(t.enabled));
    r.append(",\"exStyle\":");
    r.append(decimal_text(t.ex_style as u64).as_str());
    r.append(",\"height\":");
    r.append(signed_text(t.place[3] as i64).as_str());
    r.append(",\"hidden\":");
    r.append(truth_text(t.hidden));
    r.append(",\"hwnd\":");
    r.append(signed_text(t.hwnd as i64).as_str());
    r.append(",\"left\":");
    r.append(signed_text(t.place[0] as i64).as_str());
    r.append(",\"owner\":");
    r.append(signed_text(t.owner as i64).as_str());
    r.append(",\"style\":");
    r.append(decimal_text(t.style as u64).as_str());
    r.append(",\"title\":");
    r.append(json_string(t.title.as_str()).as_str());
    r.append(",\"top\":");
    r.append(signed_text(t.place[1] as i64).as_str());
    r.append(",\"visible\":");
    r.append(truth_text(t.visible));
    r.append(",\"width\":");
    r.append(signed_text(t.place[2] as i64).as_str());
    r.append("}");
    r
}

/// Windows as JSON.
pub open spec fn top_level_texts(list: Seq<TopLevel>) -> Seq<Seq<char>> {
    Seq::new(list.len(), |i: int| top_level_spelled(list[i]))
}

/// The answer about the main window, with the keys that are held, and about all top-level windows where they
/// are asked for.
pub fn window(main: &WindowInfo, held: (bool, bool, bool), all: Option<&Vec<TopLevel>>) -> (r: Output)
    ensures
        r@ == (match all {
            None => told("window info"@, info_spelled(*main, Some(held))),
            Some(list) => told(
                decimal(list@.len()) + " top-level window(s)"@,
                "{\"main\":"@ + info_spelled(*main, Some(held)) + ",\"windows\":"@ + list_of(top_level_texts(list@)) + "}"@,
            ),
        }),
{
    let about = info_text(main, Some(held));
    match all {
        None => out(copy_text("window info"), about),
        Some(list) => {
            let mut texts: Vec<String> = Vec::new();
            while texts.len() < list.len()
                invariant
                    texts@.len() <= list@.len(),
                    forall|i: int| 0 <= i < texts@.len() ==> (#[trigger] texts@[i])@ == top_level_spelled(list@[i]),
                decreases list@.len() - texts@.len(),
            {
                let i: usize = texts.len();
                texts.push(top_level_text(&list[i]));
            }
            proof {
                assert(text_views(texts@) =~= top_level_texts(list@));
            }
            let mut data = join3("{\"main\":", about.as_str(), ",\"windows\":");
            data.append(write_list(&texts).as_str());
            data.append("}");
            out(join2(decimal_text(list.len() as u64).as_str(), " top-level window(s)"), data)
        },
    }
}

/// Whether every top-level window is wanted, or the main one only.
pub fn wants_all_windows(args: &Json) -> (r: bool)
    ensures
        r == truth_of_arg(*args, "all"@, false),
{
    bool_arg(args, "all", false)
}

// ------------------------------------------------------------------------------ what holds

/// A tool acts on the window that is named where that belongs to this process, on the main window where none is
/// named, and on no other.
pub proof fn tools_act_on_our_windows(args: Json, desk: Desk)
    ensures
        ({
            let v = args.member("hwnd"@);
            let named = v is Some && v->0 is Number && v->0->signed is Some;
            let n = v->0->signed->0;
            &&& !named && desk.main != 0 ==> target(args, desk) == Ok::<isize, Failure>(desk.main)
            &&& !named && desk.main == 0 ==> target(args, desk) is Err && target(args, desk)->Err_0.code is NoSuchTarget
                && target(args, desk)->Err_0.message == "sta has no window (starting up or shutting down)"@
            &&& named && target(args, desk) is Ok ==> target(args, desk)->Ok_0 == n as isize && desk.own_pid != 0
            &&& named && target(args, desk) is Err ==> target(args, desk)->Err_0.code is InvalidArguments && target(args, desk)->Err_0.message
                == "window "@ + signed_decimal(n as isize as int) + " does not belong to this process"@
            &&& named && desk.windows@.len() == 0 ==> target(args, desk) is Err
        }),
{
}

/// A window belongs to this process where the first entry of it says so; an unknown one has no owner, is not
/// visible and belongs to nobody.
pub proof fn a_window_is_what_its_entry_says(desk: Desk, hwnd: isize, k: int)
    requires
        0 <= k < desk.windows@.len(),
        desk.windows@[k].hwnd == hwnd,
        forall|j: int| 0 <= j < k ==> (#[trigger] desk.windows@[j]).hwnd != hwnd,
    ensures
        desk.has_ours(hwnd) <==> hwnd != 0 && desk.own_pid != 0 && desk.windows@[k].pid == desk.own_pid,
        desk.owner_of(hwnd) == desk.windows@[k].owner,
        desk.shows(hwnd) <==> hwnd != 0 && desk.windows@[k].visible,
{
    the_first_entry_counts(desk.windows@, hwnd, 0, k);
}

proof fn the_first_entry_counts(windows: Seq<WindowState>, hwnd: isize, i: int, k: int)
    requires
        0 <= i <= k < windows.len(),
        windows[k].hwnd == hwnd,
        forall|j: int| i <= j < k ==> (#[trigger] windows[j]).hwnd != hwnd,
    ensures
        state_of(windows, hwnd, i) == Some(windows[k]),
    decreases k - i,
{
    if i < k {
        assert(windows[i].hwnd != hwnd);
        the_first_entry_counts(windows, hwnd, i + 1, k);
    }
}

/// Nothing is known of a window without an entry.
pub proof fn an_unknown_window_is_nobodys(desk: Desk, hwnd: isize)
    requires
        forall|j: int| 0 <= j < desk.windows@.len() ==> (#[trigger] desk.windows@[j]).hwnd != hwnd,
    ensures
        !desk.has_ours(hwnd),
        desk.owner_of(hwnd) == 0,
        !desk.shows(hwnd),
{
    no_entry_is_found(desk.windows@, hwnd, 0);
}

proof fn no_entry_is_found(windows: Seq<WindowState>, hwnd: isize, i: int)
    requires
        0 <= i,
        forall|j: int| i <= j < windows.len() ==> (#[trigger] windows[j]).hwnd != hwnd,
    ensures
        state_of(windows, hwnd, i) is None,
    decreases windows.len() - i,
{
    if i < windows.len() {
        no_entry_is_found(windows, hwnd, i + 1);
    }
}

/// The four keys that can be pressed in a dialog, by the numbers of the system.
pub proof fn the_keys_of_a_dialog(name: Seq<char>)
    ensures
        key_of("enter"@) == Some(13u16),
        key_of("escape"@) == Some(27u16),
        key_of("space"@) == Some(32u16),
        key_of("tab"@) == Some(9u16),
        key_of(name) is Some ==> seq!["enter"@, "escape"@, "space"@, "tab"@].contains(name),
{
    reveal_strlit("enter");
    reveal_strlit("escape");
    reveal_strlit("space");
    reveal_strlit("tab");
    let list = seq!["enter"@, "escape"@, "space"@, "tab"@];
    assert(list[0] == "enter"@ && list[1] == "escape"@ && list[2] == "space"@ && list[3] == "tab"@);
    assert("enter"@[0] == 'e' && "space"@[0] == 's');
    assert("enter"@.len() == 5 && "escape"@.len() == 6 && "space"@.len() == 5 && "tab"@.len() == 3);
}

/// Enter is pressed where no key is named, in the window that is named or else in the foreground.
pub proof fn enter_is_pressed_in_the_foreground(args: Json, desk: Desk)
    ensures
        args.member("press"@) is None ==> pressed(args) == "enter"@,
        args.member("press"@) is Some && args.member("press"@)->0 is Text ==> pressed(args) == args.member("press"@)->0->Text_0@,
        args.member("hwnd"@) is None ==> dialog_window(args, desk) == desk.foreground,
        args.member("hwnd"@) is Some && args.member("hwnd"@)->0 is Number && args.member("hwnd"@)->0->signed is Some ==> dialog_window(args, desk)
            == args.member("hwnd"@)->0->signed->0 as isize,
{
}

/// A key is pressed in a visible dialog of ours in the foreground, where it is one of the four.
pub proof fn a_dialog_of_ours_gets_its_key(args: Json, desk: Desk)
    ensures
        ({
            let hwnd = dialog_window(args, desk);
            dialog_failure(args, desk) is None <==> desk.main != 0 && desk.has_ours(hwnd) && hwnd != desk.main && desk.has_ours(desk.owner_of(hwnd))
                && desk.shows(hwnd) && key_of(pressed(args)) is Some && desk.foreground == hwnd
        }),
        desk.main != 0 && desk.has_ours(dialog_window(args, desk)) && dialog_window(args, desk) == desk.main ==> dialog_failure(args, desk) == Some(
            failure(ErrorCode::InvalidArguments, "that is sta's main window; use test_real_keys"@),
        ),
        desk.main == 0 ==> dialog_failure(args, desk) is Some && dialog_failure(args, desk)->0.code is NoSuchTarget,
{
}

/// The three messages that can be posted to a window, by the numbers of the system.
pub proof fn the_messages_of_a_window(name: Seq<char>)
    ensures
        message_of("close"@) == Some((0x10u32, 0usize, "WM_CLOSE"@)),
        message_of("restore"@) == Some((0x112u32, 0xF120usize, "SC_RESTORE"@)),
        message_of("minimize"@) == Some((0x112u32, 0xF020usize, "SC_MINIMIZE"@)),
        name != "close"@ && name != "restore"@ && name != "minimize"@ ==> message_of(name) is None,
{
    reveal_strlit("close");
    reveal_strlit("restore");
    reveal_strlit("minimize");
    assert("close"@.len() == 5 && "restore"@.len() == 7 && "minimize"@.len() == 8);
}

/// A message is posted where there is a window for it and it is one of the three.
pub proof fn a_message_needs_a_window_and_a_name(args: Json, desk: Desk)
    ensures
        message_failure(args, desk) is None <==> target(args, desk) is Ok && text_of_arg(args, "message"@) is Some && message_of(
            text_of_arg(args, "message"@)->0,
        ) is Some,
        target(args, desk) is Err ==> message_failure(args, desk) == Some(target(args, desk)->Err_0),
        target(args, desk) is Ok && text_of_arg(args, "message"@) is None ==> message_failure(args, desk)->0.message == "message (a string) is required"@,
{
}

/// A hit test needs the main window and points.
pub proof fn a_hit_test_needs_a_window_and_points(args: Json, main: isize)
    ensures
        hit_test_failure(args, main) is None <==> main != 0 && points_failure(args, "points"@) is None,
        main == 0 ==> hit_test_failure(args, main)->0.code is NoSuchTarget,
        main != 0 && points_failure(args, "points"@) is Some ==> hit_test_failure(args, main) == Some(
            failure(ErrorCode::InvalidArguments, points_failure(args, "points"@)->0),
        ),
        pixels_failure(args) is None <==> text_of_arg(args, "path"@) is Some && points_failure(args, "points"@) is None,
{
}

/// Base64 is written in its usual characters: capitals, small letters, digits, `+` and `/`.
pub proof fn base64_has_its_usual_characters(n: int)
    requires
        0 <= n < 64,
    ensures
        base64_char(n) == "ABCDEFGHIJKLMNOPQRSTUVWXYZabcdefghijklmnopqrstuvwxyz0123456789+/"@[n],
{
    reveal_strlit("ABCDEFGHIJKLMNOPQRSTUVWXYZabcdefghijklmnopqrstuvwxyz0123456789+/");
}

/// Base64 holds every bit of the bytes, in order: three bytes are the number that four characters are; two bytes
/// at the end are three characters and one `=`, one byte is two characters and two.
pub proof fn base64_holds_every_bit(bytes: Seq<u8>, i: int)
    requires
        0 <= i <= bytes.len(),
    ensures
        i == bytes.len() ==> base64_from(bytes, i).len() == 0,
        i + 3 <= bytes.len() ==> exists|w: int, x: int, y: int, z: int|
            {
                &&& 0 <= w < 64 && 0 <= x < 64 && 0 <= y < 64 && 0 <= z < 64
                &&& w * 262144 + x * 4096 + y * 64 + z == bytes[i] * 65536 + bytes[i + 1] * 256 + bytes[i + 2]
                &&& base64_from(bytes, i) == seq![#[trigger] base64_char(w), #[trigger] base64_char(x), #[trigger] base64_char(y), #[trigger] base64_char(
                    z,
                )] + base64_from(bytes, i + 3)
            },
        i + 2 == bytes.len() ==> exists|w: int, x: int, y: int|
            {
                &&& 0 <= w < 64 && 0 <= x < 64 && 0 <= y < 64
                &&& w * 4096 + x * 64 + y == (bytes[i] * 256 + bytes[i + 1]) * 4
                &&& base64_from(bytes, i) == seq![#[trigger] base64_char(w), #[trigger] base64_char(x), #[trigger] base64_char(y), '=']
            },
        i + 1 == bytes.len() ==> exists|w: int, x: int|
            {
                &&& 0 <= w < 64 && 0 <= x < 64
                &&& w * 64 + x == bytes[i] * 16
                &&& base64_from(bytes, i) == seq![#[trigger] base64_char(w), #[trigger] base64_char(x), '=', '=']
            },
{
    if i < bytes.len() {
        let a = bytes[i] as int;
        let b = if i + 1 < bytes.len() { bytes[i + 1] as int } else { 0 };
        let c = if i + 2 < bytes.len() { bytes[i + 2] as int } else { 0 };
        let (w, x, y, z) = (a / 4, a % 4 * 16 + b / 16, b % 16 * 4 + c / 64, c % 64);
        assert(0 <= w < 64 && 0 <= x < 64 && 0 <= y < 64 && 0 <= z < 64);
        assert(w * 262144 + x * 4096 + y * 64 + z == a * 65536 + b * 256 + c);
        let all = base64_from(bytes, i);
        if i + 3 <= bytes.len() {
            assert(all == seq![base64_char(w), base64_char(x), base64_char(y), base64_char(z)] + base64_from(bytes, i + 3));
        } else {
            assert(base64_from(bytes, i + 3) =~= Seq::empty());
            if i + 2 == bytes.len() {
                assert(w * 4096 + x * 64 + y == (a * 256 + b) * 4);
                assert(all =~= seq![base64_char(w), base64_char(x), base64_char(y), '=']);
            } else {
                assert(w * 64 + x == a * 16);
                assert(all =~= seq![base64_char(w), base64_char(x), '=', '=']);
            }
        }
    }
}

/// A capture goes into the answer where that is asked for, else into the file that is named, else into the logs.
pub proof fn a_capture_goes_where_it_is_asked_for(args: Json, place: Place)
    requires
        placed(args, place),
    ensures
        args.member("inline"@) == Some(Json::Bool(true)) ==> place is Inline,
        args.member("inline"@) is None && args.member("out"@) is None ==> place is Logs,
        args.member("inline"@) is None && args.member("out"@) is Some && args.member("out"@)->0 is Text ==> place is File && place->File_0@
            == args.member("out"@)->0->Text_0@,
{
}

/// A point outside a picture counts as the nearest one inside.
pub proof fn a_point_is_held_inside(v: int, size: int)
    requires
        size > 0,
    ensures
        0 <= held_in(v, size) < size,
        0 <= v < size ==> held_in(v, size) == v,
        v < 0 ==> held_in(v, size) == 0,
        v >= size ==> held_in(v, size) == size - 1,
{
}

/// A color is told as `#` and two digits each for red, green and blue.
pub proof fn a_color_is_told_in_hexadecimal(p: Seq<u8>)
    requires
        p.len() >= 3,
    ensures
        color_text(p).len() == 7,
        color_text(p)[0] == '#',
        hex_number(color_text(p).subrange(1, 3)) == p[0],
        hex_number(color_text(p).subrange(3, 5)) == p[1],
        hex_number(color_text(p).subrange(5, 7)) == p[2],
{
    reveal_strlit("#");
    reveal(vstd::arithmetic::power::pow);
    assert(vstd::arithmetic::power::pow(16, 2) == 256) by {
        reveal_with_fuel(vstd::arithmetic::power::pow, 3);
    }
    hex_reads_back(p[0] as nat, 2);
    hex_reads_back(p[1] as nat, 2);
    hex_reads_back(p[2] as nat, 2);
    let t = color_text(p);
    assert(t.subrange(1, 3) =~= hex(p[0] as nat, 2));
    assert(t.subrange(3, 5) =~= hex(p[1] as nat, 2));
    assert(t.subrange(5, 7) =~= hex(p[2] as nat, 2));
}

/// The colors of a picture are told one for each point, in order, each from its own place.
pub proof fn colors_are_told_for_each_point(p: Picture, points: Seq<(i64, i64)>, k: int)
    requires
        0 <= k < points.len(),
        0 <= points[k].0 < p.width,
        0 <= points[k].1 < p.height,
    ensures
        colors_at(p, points).len() == points.len(),
        colors_at(p, points)[k] == color_text(p.at(points[k].0 as int, points[k].1 as int)),
{
}

/// A size is told as its width and its height, with an `x` between.
pub proof fn a_size_is_told_as_two_numbers(width: u32, height: u32)
    ensures
        size_text(width, height) == decimal(width as nat) + seq!['x'] + decimal(height as nat),
{
    reveal_strlit("x");
    assert(size_text(width, height) =~= decimal(width as nat) + seq!['x'] + decimal(height as nat));
}

/// The processes that are looked for are our own, first, and every number that is named, in order.
pub proof fn our_process_is_always_looked_for(args: Json, our_pid: u32, list: Seq<Json>, i: int)
    requires
        0 <= i <= list.len(),
    ensures
        roots_of(args, our_pid).len() > 0 && roots_of(args, our_pid)[0] == our_pid,
        args.member("roots"@) is None ==> roots_of(args, our_pid) == seq![our_pid],
        i < list.len() && list[i] is Number && list[i]->unsigned is Some && list[i]->unsigned->0 <= u32::MAX ==> {
            &&& named_processes(list, i).len() > 0
            &&& named_processes(list, i)[0] == list[i]->unsigned->0
            &&& named_processes(list, i).skip(1) == named_processes(list, i + 1)
        },
        i < list.len() && !(list[i] is Number) ==> named_processes(list, i) == named_processes(list, i + 1),
        i == list.len() ==> named_processes(list, i).len() == 0,
{
    if args.member("roots"@) is None {
        assert(roots_of(args, our_pid) =~= seq![our_pid]);
    }
    if i < list.len() && list[i].unsigned_number() is Some {
        let n = list[i].unsigned_number()->0;
        assert(named_processes(list, i).skip(1) =~= named_processes(list, i + 1));
    }
}

/// What was seen is forgotten where that is asked for, and only there.
pub proof fn what_was_seen_is_forgotten_on_request(args: Json, seen: Seq<console_watch::SeenModel>)
    ensures
        args.member("reset"@) == Some(Json::Bool(true)) ==> seen_for(args, seen).len() == 0,
        args.member("reset"@) is None || args.member("reset"@) == Some(Json::Bool(false)) ==> seen_for(args, seen) == seen,
{
}

/// The windows of a process are found, in order, and no other is.
pub proof fn the_windows_of_a_process_are_found(all: Seq<RawInfo>, pid: u32, i: int, k: int)
    requires
        0 <= i <= all.len(),
    ensures
        windows_of(all, pid, i).contains(k) <==> i <= k < all.len() && all[k].pid == pid,
    decreases all.len() - i,
{
    if i < all.len() {
        the_windows_of_a_process_are_found(all, pid, i + 1, k);
        let rest = windows_of(all, pid, i + 1);
        let here = windows_of(all, pid, i);
        if all[i].pid == pid {
            assert(here =~= seq![i] + rest);
            assert(here[0] == i);
            if rest.contains(k) {
                let at = choose|at: int| 0 <= at < rest.len() && rest[at] == k;
                assert(here[at + 1] == k);
            }
            if here.contains(k) {
                let at = choose|at: int| 0 <= at < here.len() && here[at] == k;
                if at > 0 {
                    assert(rest[at - 1] == k);
                }
            }
        }
    }
}

/// A top-level window is described as the system has it, and is marked where it is a hidden one.
pub proof fn a_top_level_window_is_described_as_it_is(t: TopLevel, raw: RawInfo, hidden: Seq<isize>)
    requires
        describes(t, raw, hidden),
        raw.edges is Some ==> raw.edges->0.fits(),
    ensures
        t.hwnd == raw.hwnd && t.owner == raw.owner && t.visible == raw.visible && t.enabled == raw.enabled && t.style == raw.style && t.ex_style == raw.ex_style,
        t.class_name@ == raw.class_name@ && t.title@ == raw.title@,
        t.hidden <==> hidden.contains(raw.hwnd),
        raw.edges is Some ==> t.place@[0] == raw.edges->0.left && t.place@[1] == raw.edges->0.top && t.place@[0] + t.place@[2] == raw.edges->0.right
            && t.place@[1] + t.place@[3] == raw.edges->0.bottom,
        raw.edges is None ==> t.place@ == seq![0i32, 0i32, 0i32, 0i32],
{
}

#[verifier::spinoff_prover]
#[verifier::rlimit(40)]
proof fn held_keys_have_their_members_in_order(v0: Seq<char>, v1: Seq<char>, v2: Seq<char>)
    ensures
        "{\"alt\":"@ + v0 + ",\"ctrl\":"@ + v1 + ",\"shift\":"@ + v2 + "}"@ == "{"@ + joined_by(
            seq![
                "\"alt\":"@ + v0,
                "\"ctrl\":"@ + v1,
                "\"shift\":"@ + v2,
            ],
            ',',
        ) + "}"@,
{
    let p0 = seq!["\"alt\":"@ + v0];
    let h0 = "{\"alt\":"@ + v0;
    assert(h0 =~= "{"@ + joined_by(p0, ',')) by {
        reveal_strlit("{");
        reveal_strlit("{\"alt\":");
        reveal_strlit("\"alt\":");
    }
    let p1 = p0.push("\"ctrl\":"@ + v1);
    let h1 = h0 + ",\"ctrl\":"@ + v1;
    assert(",\"ctrl\":"@ =~= seq![','] + "\"ctrl\":"@) by {
        reveal_strlit(",\"ctrl\":");
        reveal_strlit("\"ctrl\":");
    }
    one_more_member_follows(h0, p0, ",\"ctrl\":"@, "\"ctrl\":"@, v1);
    let p2 = p1.push("\"shift\":"@ + v2);
    let h2 = h1 + ",\"shift\":"@ + v2;
    assert(",\"shift\":"@ =~= seq![','] + "\"shift\":"@) by {
        reveal_strlit(",\"shift\":");
        reveal_strlit("\"shift\":");
    }
    one_more_member_follows(h1, p1, ",\"shift\":"@, "\"shift\":"@, v2);
    assert(seq!["\"alt\":"@ + v0, "\"ctrl\":"@ + v1, "\"shift\":"@ + v2] =~= p2);
}

/// The keys that are held are told under their names.
pub proof fn held_keys_have_their_members(held: (bool, bool, bool))
    ensures
        modifiers_spelled(held) == "{"@ + joined_by(
            seq![
                "\"alt\":"@ + truth_spelled(held.2),
                "\"ctrl\":"@ + truth_spelled(held.0),
                "\"shift\":"@ + truth_spelled(held.1),
            ],
            ',',
        ) + "}"@,
{
    held_keys_have_their_members_in_order(
        truth_spelled(held.2),
        truth_spelled(held.0),
        truth_spelled(held.1),
    );
}

#[verifier::spinoff_prover]
#[verifier::rlimit(40)]
proof fn a_top_level_window_has_its_members_in_order(v0: Seq<char>, v1: Seq<char>, v2: Seq<char>, v3: Seq<char>, v4: Seq<char>, v5: Seq<char>, v6: Seq<char>, v7: Seq<char>, v8: Seq<char>, v9: Seq<char>, v10: Seq<char>, v11: Seq<char>, v12: Seq<char>)
    ensures
        "{\"className\":"@ + v0 + ",\"enabled\":"@ + v1 + ",\"exStyle\":"@ + v2 + ",\"height\":"@ + v3 + ",\"hidden\":"@ + v4 + ",\"hwnd\":"@ + v5 + ",\"left\":"@ + v6 + ",\"owner\":"@ + v7 + ",\"style\":"@ + v8 + ",\"title\":"@ + v9 + ",\"top\":"@ + v10 + ",\"visible\":"@ + v11 + ",\"width\":"@ + v12 + "}"@ == "{"@ + joined_by(
            seq![
                "\"className\":"@ + v0,
                "\"enabled\":"@ + v1,
                "\"exStyle\":"@ + v2,
                "\"height\":"@ + v3,
                "\"hidden\":"@ + v4,
                "\"hwnd\":"@ + v5,
                "\"left\":"@ + v6,
                "\"owner\":"@ + v7,
                "\"style\":"@ + v8,
                "\"title\":"@ + v9,
                "\"top\":"@ + v10,
                "\"visible\":"@ + v11,
                "\"width\":"@ + v12,
            ],
            ',',
        ) + "}"@,
{
    let p0 = seq!["\"className\":"@ + v0];
    let h0 = "{\"className\":"@ + v0;
    assert(h0 =~= "{"@ + joined_by(p0, ',')) by {
        reveal_strlit("{");
        reveal_strlit("{\"className\":");
        reveal_strlit("\"className\":");
    }
    let p1 = p0.push("\"enabled\":"@ + v1);
    let h1 = h0 + ",\"enabled\":"@ + v1;
    assert(",\"enabled\":"@ =~= seq![','] + "\"enabled\":"@) by {
        reveal_strlit(",\"enabled\":");
        reveal_strlit("\"enabled\":");
    }
    one_more_member_follows(h0, p0, ",\"enabled\":"@, "\"enabled\":"@, v1);
    let p2 = p1.push("\"exStyle\":"@ + v2);
    let h2 = h1 + ",\"exStyle\":"@ + v2;
    assert(",\"exStyle\":"@ =~= seq![','] + "\"exStyle\":"@) by {
        reveal_strlit(",\"exStyle\":");
        reveal_strlit("\"exStyle\":");
    }
    one_more_member_follows(h1, p1, ",\"exStyle\":"@, "\"exStyle\":"@, v2);
    let p3 = p2.push("\"height\":"@ + v3);
    let h3 = h2 + ",\"height\":"@ + v3;
    assert(",\"height\":"@ =~= seq![','] + "\"height\":"@) by {
        reveal_strlit(",\"height\":");
        reveal_strlit("\"height\":");
    }
    one_more_member_follows(h2, p2, ",\"height\":"@, "\"height\":"@, v3);
    let p4 = p3.push("\"hidden\":"@ + v4);
    let h4 = h3 + ",\"hidden\":"@ + v4;
    assert(",\"hidden\":"@ =~= seq![','] + "\"hidden\":"@) by {
        reveal_strlit(",\"hidden\":");
        reveal_strlit("\"hidden\":");
    }
    one_more_member_follows(h3, p3, ",\"hidden\":"@, "\"hidden\":"@, v4);
    let p5 = p4.push("\"hwnd\":"@ + v5);
    let h5 = h4 + ",\"hwnd\":"@ + v5;
    assert(",\"hwnd\":"@ =~= seq![','] + "\"hwnd\":"@) by {
        reveal_strlit(",\"hwnd\":");
        reveal_strlit("\"hwnd\":");
    }
    one_more_member_follows(h4, p4, ",\"hwnd\":"@, "\"hwnd\":"@, v5);
    let p6 = p5.push("\"left\":"@ + v6);
    let h6 = h5 + ",\"left\":"@ + v6;
    assert(",\"left\":"@ =~= seq![','] + "\"left\":"@) by {
        reveal_strlit(",\"left\":");
        reveal_strlit("\"left\":");
    }
    one_more_member_follows(h5, p5, ",\"left\":"@, "\"left\":"@, v6);
    let p7 = p6.push("\"owner\":"@ + v7);
    let h7 = h6 + ",\"owner\":"@ + v7;
    assert(",\"owner\":"@ =~= seq![','] + "\"owner\":"@) by {
        reveal_strlit(",\"owner\":");
        reveal_strlit("\"owner\":");
    }
    one_more_member_follows(h6, p6, ",\"owner\":"@, "\"owner\":"@, v7);
    let p8 = p7.push("\"style\":"@ + v8);
    let h8 = h7 + ",\"style\":"@ + v8;
    assert(",\"style\":"@ =~= seq![','] + "\"style\":"@) by {
        reveal_strlit(",\"style\":");
        reveal_strlit("\"style\":");
    }
    one_more_member_follows(h7, p7, ",\"style\":"@, "\"style\":"@, v8);
    let p9 = p8.push("\"title\":"@ + v9);
    let h9 = h8 + ",\"title\":"@ + v9;
    assert(",\"title\":"@ =~= seq![','] + "\"title\":"@) by {
        reveal_strlit(",\"title\":");
        reveal_strlit("\"title\":");
    }
    one_more_member_follows(h8, p8, ",\"title\":"@, "\"title\":"@, v9);
    let p10 = p9.push("\"top\":"@ + v10);
    let h10 = h9 + ",\"top\":"@ + v10;
    assert(",\"top\":"@ =~= seq![','] + "\"top\":"@) by {
        reveal_strlit(",\"top\":");
        reveal_strlit("\"top\":");
    }
    one_more_member_follows(h9, p9, ",\"top\":"@, "\"top\":"@, v10);
    let p11 = p10.push("\"visible\":"@ + v11);
    let h11 = h10 + ",\"visible\":"@ + v11;
    assert(",\"visible\":"@ =~= seq![','] + "\"visible\":"@) by {
        reveal_strlit(",\"visible\":");
        reveal_strlit("\"visible\":");
    }
    one_more_member_follows(h10, p10, ",\"visible\":"@, "\"visible\":"@, v11);
    let p12 = p11.push("\"width\":"@ + v12);
    let h12 = h11 + ",\"width\":"@ + v12;
    assert(",\"width\":"@ =~= seq![','] + "\"width\":"@) by {
        reveal_strlit(",\"width\":");
        reveal_strlit("\"width\":");
    }
    one_more_member_follows(h11, p11, ",\"width\":"@, "\"width\":"@, v12);
    assert(seq!["\"className\":"@ + v0, "\"enabled\":"@ + v1, "\"exStyle\":"@ + v2, "\"height\":"@ + v3, "\"hidden\":"@ + v4, "\"hwnd\":"@ + v5, "\"left\":"@ + v6, "\"owner\":"@ + v7, "\"style\":"@ + v8, "\"title\":"@ + v9, "\"top\":"@ + v10, "\"visible\":"@ + v11, "\"width\":"@ + v12] =~= p12);
}

/// A top-level window is an object: each member stands under its name.
pub proof fn a_top_level_window_has_its_members(t: TopLevel)
    ensures
        top_level_spelled(t) == "{"@ + joined_by(
            seq![
                "\"className\":"@ + json_quoted(t.class_name@),
                "\"enabled\":"@ + truth_spelled(t.enabled),
                "\"exStyle\":"@ + decimal(t.ex_style as nat),
                "\"height\":"@ + signed_decimal(t.place@[3] as int),
                "\"hidden\":"@ + truth_spelled(t.hidden),
                "\"hwnd\":"@ + signed_decimal(t.hwnd as int),
                "\"left\":"@ + signed_decimal(t.place@[0] as int),
                "\"owner\":"@ + signed_decimal(t.owner as int),
                "\"style\":"@ + decimal(t.style as nat),
                "\"title\":"@ + json_quoted(t.title@),
                "\"top\":"@ + signed_decimal(t.place@[1] as int),
                "\"visible\":"@ + truth_spelled(t.visible),
                "\"width\":"@ + signed_decimal(t.place@[2] as int),
            ],
            ',',
        ) + "}"@,
{
    a_top_level_window_has_its_members_in_order(
        json_quoted(t.class_name@),
        truth_spelled(t.enabled),
        decimal(t.ex_style as nat),
        signed_decimal(t.place@[3] as int),
        truth_spelled(t.hidden),
        signed_decimal(t.hwnd as int),
        signed_decimal(t.place@[0] as int),
        signed_decimal(t.owner as int),
        decimal(t.style as nat),
        json_quoted(t.title@),
        signed_decimal(t.place@[1] as int),
        truth_spelled(t.visible),
        signed_decimal(t.place@[2] as int),
    );
}

#[verifier::spinoff_prover]
#[verifier::rlimit(40)]
proof fn the_main_window_has_its_members_in_order(v0: Seq<char>, v1: Seq<char>, v2: Seq<char>, v3: Seq<char>, v4: Seq<char>, v5: Seq<char>, v6: Seq<char>, v7: Seq<char>, v8: Seq<char>, v9: Seq<char>, v10: Seq<char>, v11: Seq<char>, v12: Seq<char>)
    ensures
        "{\"className\":"@ + v0 + ",\"dpi\":"@ + v1 + ",\"enabled\":"@ + v2 + ",\"foreground\":"@ + v3 + ",\"height\":"@ + v4 + ",\"hwnd\":"@ + v5 + ",\"iconic\":"@ + v6 + ",\"left\":"@ + v7 + ",\"thickFrame\":"@ + v8 + ",\"title\":"@ + v9 + ",\"top\":"@ + v10 + ",\"width\":"@ + v11 + ",\"zoomed\":"@ + v12 + "}"@ == "{"@ + joined_by(
            seq![
                "\"className\":"@ + v0,
                "\"dpi\":"@ + v1,
                "\"enabled\":"@ + v2,
                "\"foreground\":"@ + v3,
                "\"height\":"@ + v4,
                "\"hwnd\":"@ + v5,
                "\"iconic\":"@ + v6,
                "\"left\":"@ + v7,
                "\"thickFrame\":"@ + v8,
                "\"title\":"@ + v9,
                "\"top\":"@ + v10,
                "\"width\":"@ + v11,
                "\"zoomed\":"@ + v12,
            ],
            ',',
        ) + "}"@,
{
    let p0 = seq!["\"className\":"@ + v0];
    let h0 = "{\"className\":"@ + v0;
    assert(h0 =~= "{"@ + joined_by(p0, ',')) by {
        reveal_strlit("{");
        reveal_strlit("{\"className\":");
        reveal_strlit("\"className\":");
    }
    let p1 = p0.push("\"dpi\":"@ + v1);
    let h1 = h0 + ",\"dpi\":"@ + v1;
    assert(",\"dpi\":"@ =~= seq![','] + "\"dpi\":"@) by {
        reveal_strlit(",\"dpi\":");
        reveal_strlit("\"dpi\":");
    }
    one_more_member_follows(h0, p0, ",\"dpi\":"@, "\"dpi\":"@, v1);
    let p2 = p1.push("\"enabled\":"@ + v2);
    let h2 = h1 + ",\"enabled\":"@ + v2;
    assert(",\"enabled\":"@ =~= seq![','] + "\"enabled\":"@) by {
        reveal_strlit(",\"enabled\":");
        reveal_strlit("\"enabled\":");
    }
    one_more_member_follows(h1, p1, ",\"enabled\":"@, "\"enabled\":"@, v2);
    let p3 = p2.push("\"foreground\":"@ + v3);
    let h3 = h2 + ",\"foreground\":"@ + v3;
    assert(",\"foreground\":"@ =~= seq![','] + "\"foreground\":"@) by {
        reveal_strlit(",\"foreground\":");
        reveal_strlit("\"foreground\":");
    }
    one_more_member_follows(h2, p2, ",\"foreground\":"@, "\"foreground\":"@, v3);
    let p4 = p3.push("\"height\":"@ + v4);
    let h4 = h3 + ",\"height\":"@ + v4;
    assert(",\"height\":"@ =~= seq![','] + "\"height\":"@) by {
        reveal_strlit(",\"height\":");
        reveal_strlit("\"height\":");
    }
    one_more_member_follows(h3, p3, ",\"height\":"@, "\"height\":"@, v4);
    let p5 = p4.push("\"hwnd\":"@ + v5);
    let h5 = h4 + ",\"hwnd\":"@ + v5;
    assert(",\"hwnd\":"@ =~= seq![','] + "\"hwnd\":"@) by {
        reveal_strlit(",\"hwnd\":");
        reveal_strlit("\"hwnd\":");
    }
    one_more_member_follows(h4, p4, ",\"hwnd\":"@, "\"hwnd\":"@, v5);
    let p6 = p5.push("\"iconic\":"@ + v6);
    let h6 = h5 + ",\"iconic\":"@ + v6;
    assert(",\"iconic\":"@ =~= seq![','] + "\"iconic\":"@) by {
        reveal_strlit(",\"iconic\":");
        reveal_strlit("\"iconic\":");
    }
    one_more_member_follows(h5, p5, ",\"iconic\":"@, "\"iconic\":"@, v6);
    let p7 = p6.push("\"left\":"@ + v7);
    let h7 = h6 + ",\"left\":"@ + v7;
    assert(",\"left\":"@ =~= seq![','] + "\"left\":"@) by {
        reveal_strlit(",\"left\":");
        reveal_strlit("\"left\":");
    }
    one_more_member_follows(h6, p6, ",\"left\":"@, "\"left\":"@, v7);
    let p8 = p7.push("\"thickFrame\":"@ + v8);
    let h8 = h7 + ",\"thickFrame\":"@ + v8;
    assert(",\"thickFrame\":"@ =~= seq![','] + "\"thickFrame\":"@) by {
        reveal_strlit(",\"thickFrame\":");
        reveal_strlit("\"thickFrame\":");
    }
    one_more_member_follows(h7, p7, ",\"thickFrame\":"@, "\"thickFrame\":"@, v8);
    let p9 = p8.push("\"title\":"@ + v9);
    let h9 = h8 + ",\"title\":"@ + v9;
    assert(",\"title\":"@ =~= seq![','] + "\"title\":"@) by {
        reveal_strlit(",\"title\":");
        reveal_strlit("\"title\":");
    }
    one_more_member_follows(h8, p8, ",\"title\":"@, "\"title\":"@, v9);
    let p10 = p9.push("\"top\":"@ + v10);
    let h10 = h9 + ",\"top\":"@ + v10;
    assert(",\"top\":"@ =~= seq![','] + "\"top\":"@) by {
        reveal_strlit(",\"top\":");
        reveal_strlit("\"top\":");
    }
    one_more_member_follows(h9, p9, ",\"top\":"@, "\"top\":"@, v10);
    let p11 = p10.push("\"width\":"@ + v11);
    let h11 = h10 + ",\"width\":"@ + v11;
    assert(",\"width\":"@ =~= seq![','] + "\"width\":"@) by {
        reveal_strlit(",\"width\":");
        reveal_strlit("\"width\":");
    }
    one_more_member_follows(h10, p10, ",\"width\":"@, "\"width\":"@, v11);
    let p12 = p11.push("\"zoomed\":"@ + v12);
    let h12 = h11 + ",\"zoomed\":"@ + v12;
    assert(",\"zoomed\":"@ =~= seq![','] + "\"zoomed\":"@) by {
        reveal_strlit(",\"zoomed\":");
        reveal_strlit("\"zoomed\":");
    }
    one_more_member_follows(h11, p11, ",\"zoomed\":"@, "\"zoomed\":"@, v12);
    assert(seq!["\"className\":"@ + v0, "\"dpi\":"@ + v1, "\"enabled\":"@ + v2, "\"foreground\":"@ + v3, "\"height\":"@ + v4, "\"hwnd\":"@ + v5, "\"iconic\":"@ + v6, "\"left\":"@ + v7, "\"thickFrame\":"@ + v8, "\"title\":"@ + v9, "\"top\":"@ + v10, "\"width\":"@ + v11, "\"zoomed\":"@ + v12] =~= p12);
}

/// What is said of the main window is an object: each member stands under its name.
pub proof fn the_main_window_has_its_members(i: WindowInfo)
    ensures
        info_spelled(i, None) == "{"@ + joined_by(
            seq![
                "\"className\":"@ + json_quoted(i.class_name@),
                "\"dpi\":"@ + decimal(i.dpi as nat),
                "\"enabled\":"@ + truth_spelled(i.enabled),
                "\"foreground\":"@ + truth_spelled(i.foreground),
                "\"height\":"@ + signed_decimal(i.place@[3] as int),
                "\"hwnd\":"@ + signed_decimal(i.hwnd as int),
                "\"iconic\":"@ + truth_spelled(i.iconic),
                "\"left\":"@ + signed_decimal(i.place@[0] as int),
                "\"thickFrame\":"@ + truth_spelled(i.thick_frame),
                "\"title\":"@ + json_quoted(i.title@),
                "\"top\":"@ + signed_decimal(i.place@[1] as int),
                "\"width\":"@ + signed_decimal(i.place@[2] as int),
                "\"zoomed\":"@ + truth_spelled(i.zoomed),
            ],
            ',',
        ) + "}"@,
{
    let head = "{\"className\":"@ + json_quoted(i.class_name@) + ",\"dpi\":"@ + decimal(i.dpi as nat) + ",\"enabled\":"@ + truth_spelled(i.enabled) + ",\"foreground\":"@ + truth_spelled(i.foreground) + ",\"height\":"@ + signed_decimal(i.place@[3] as int) + ",\"hwnd\":"@ + signed_decimal(i.hwnd as int) + ",\"iconic\":"@ + truth_spelled(i.iconic) + ",\"left\":"@ + signed_decimal(i.place@[0] as int);
    reveal_strlit("");
    assert(head + ""@ =~= head);
    the_main_window_has_its_members_in_order(
        json_quoted(i.class_name@),
        decimal(i.dpi as nat),
        truth_spelled(i.enabled),
        truth_spelled(i.foreground),
        signed_decimal(i.place@[3] as int),
        signed_decimal(i.hwnd as int),
        truth_spelled(i.iconic),
        signed_decimal(i.place@[0] as int),
        truth_spelled(i.thick_frame),
        json_quoted(i.title@),
        signed_decimal(i.place@[1] as int),
        signed_decimal(i.place@[2] as int),
        truth_spelled(i.zoomed),
    );
}

#[verifier::spinoff_prover]
#[verifier::rlimit(40)]
proof fn the_main_window_tells_the_held_keys_in_order(v0: Seq<char>, v1: Seq<char>, v2: Seq<char>, v3: Seq<char>, v4: Seq<char>, v5: Seq<char>, v6: Seq<char>, v7: Seq<char>, v8: Seq<char>, v9: Seq<char>, v10: Seq<char>, v11: Seq<char>, v12: Seq<char>, v13: Seq<char>)
    ensures
        "{\"className\":"@ + v0 + ",\"dpi\":"@ + v1 + ",\"enabled\":"@ + v2 + ",\"foreground\":"@ + v3 + ",\"height\":"@ + v4 + ",\"hwnd\":"@ + v5 + ",\"iconic\":"@ + v6 + ",\"left\":"@ + v7 + ",\"modifiers\":"@ + v8 + ",\"thickFrame\":"@ + v9 + ",\"title\":"@ + v10 + ",\"top\":"@ + v11 + ",\"width\":"@ + v12 + ",\"zoomed\":"@ + v13 + "}"@ == "{"@ + joined_by(
            seq![
                "\"className\":"@ + v0,
                "\"dpi\":"@ + v1,
                "\"enabled\":"@ + v2,
                "\"foreground\":"@ + v3,
                "\"height\":"@ + v4,
                "\"hwnd\":"@ + v5,
                "\"iconic\":"@ + v6,
                "\"left\":"@ + v7,
                "\"modifiers\":"@ + v8,
                "\"thickFrame\":"@ + v9,
                "\"title\":"@ + v10,
                "\"top\":"@ + v11,
                "\"width\":"@ + v12,
                "\"zoomed\":"@ + v13,
            ],
            ',',
        ) + "}"@,
{
    let p0 = seq!["\"className\":"@ + v0];
    let h0 = "{\"className\":"@ + v0;
    assert(h0 =~= "{"@ + joined_by(p0, ',')) by {
        reveal_strlit("{");
        reveal_strlit("{\"className\":");
        reveal_strlit("\"className\":");
    }
    let p1 = p0.push("\"dpi\":"@ + v1);
    let h1 = h0 + ",\"dpi\":"@ + v1;
    assert(",\"dpi\":"@ =~= seq![','] + "\"dpi\":"@) by {
        reveal_strlit(",\"dpi\":");
        reveal_strlit("\"dpi\":");
    }
    one_more_member_follows(h0, p0, ",\"dpi\":"@, "\"dpi\":"@, v1);
    let p2 = p1.push("\"enabled\":"@ + v2);
    let h2 = h1 + ",\"enabled\":"@ + v2;
    assert(",\"enabled\":"@ =~= seq![','] + "\"enabled\":"@) by {
        reveal_strlit(",\"enabled\":");
        reveal_strlit("\"enabled\":");
    }
    one_more_member_follows(h1, p1, ",\"enabled\":"@, "\"enabled\":"@, v2);
    let p3 = p2.push("\"foreground\":"@ + v3);
    let h3 = h2 + ",\"foreground\":"@ + v3;
    assert(",\"foreground\":"@ =~= seq![','] + "\"foreground\":"@) by {
        reveal_strlit(",\"foreground\":");
        reveal_strlit("\"foreground\":");
    }
    one_more_member_follows(h2, p2, ",\"foreground\":"@, "\"foreground\":"@, v3);
    let p4 = p3.push("\"height\":"@ + v4);
    let h4 = h3 + ",\"height\":"@ + v4;
    assert(",\"height\":"@ =~= seq![','] + "\"height\":"@) by {
        reveal_strlit(",\"height\":");
        reveal_strlit("\"height\":");
    }
    one_more_member_follows(h3, p3, ",\"height\":"@, "\"height\":"@, v4);
    let p5 = p4.push("\"hwnd\":"@ + v5);
    let h5 = h4 + ",\"hwnd\":"@ + v5;
    assert(",\"hwnd\":"@ =~= seq![','] + "\"hwnd\":"@) by {
        reveal_strlit(",\"hwnd\":");
        reveal_strlit("\"hwnd\":");
    }
    one_more_member_follows(h4, p4, ",\"hwnd\":"@, "\"hwnd\":"@, v5);
    let p6 = p5.push("\"iconic\":"@ + v6);
    let h6 = h5 + ",\"iconic\":"@ + v6;
    assert(",\"iconic\":"@ =~= seq![','] + "\"iconic\":"@) by {
        reveal_strlit(",\"iconic\":");
        reveal_strlit("\"iconic\":");
    }
    one_more_member_follows(h5, p5, ",\"iconic\":"@, "\"iconic\":"@, v6);
    let p7 = p6.push("\"left\":"@ + v7);
    let h7 = h6 + ",\"left\":"@ + v7;
    assert(",\"left\":"@ =~= seq![','] + "\"left\":"@) by {
        reveal_strlit(",\"left\":");
        reveal_strlit("\"left\":");
    }
    one_more_member_follows(h6, p6, ",\"left\":"@, "\"left\":"@, v7);
    let p8 = p7.push("\"modifiers\":"@ + v8);
    let h8 = h7 + ",\"modifiers\":"@ + v8;
    assert(",\"modifiers\":"@ =~= seq![','] + "\"modifiers\":"@) by {
        reveal_strlit(",\"modifiers\":");
        reveal_strlit("\"modifiers\":");
    }
    one_more_member_follows(h7, p7, ",\"modifiers\":"@, "\"modifiers\":"@, v8);
    let p9 = p8.push("\"thickFrame\":"@ + v9);
    let h9 = h8 + ",\"thickFrame\":"@ + v9;
    assert(",\"thickFrame\":"@ =~= seq![','] + "\"thickFrame\":"@) by {
        reveal_strlit(",\"thickFrame\":");
        reveal_strlit("\"thickFrame\":");
    }
    one_more_member_follows(h8, p8, ",\"thickFrame\":"@, "\"thickFrame\":"@, v9);
    let p10 = p9.push("\"title\":"@ + v10);
    let h10 = h9 + ",\"title\":"@ + v10;
    assert(",\"title\":"@ =~= seq![','] + "\"title\":"@) by {
        reveal_strlit(",\"title\":");
        reveal_strlit("\"title\":");
    }
    one_more_member_follows(h9, p9, ",\"title\":"@, "\"title\":"@, v10);
    let p11 = p10.push("\"top\":"@ + v11);
    let h11 = h10 + ",\"top\":"@ + v11;
    assert(",\"top\":"@ =~= seq![','] + "\"top\":"@) by {
        reveal_strlit(",\"top\":");
        reveal_strlit("\"top\":");
    }
    one_more_member_follows(h10, p10, ",\"top\":"@, "\"top\":"@, v11);
    let p12 = p11.push("\"width\":"@ + v12);
    let h12 = h11 + ",\"width\":"@ + v12;
    assert(",\"width\":"@ =~= seq![','] + "\"width\":"@) by {
        reveal_strlit(",\"width\":");
        reveal_strlit("\"width\":");
    }
    one_more_member_follows(h11, p11, ",\"width\":"@, "\"width\":"@, v12);
    let p13 = p12.push("\"zoomed\":"@ + v13);
    let h13 = h12 + ",\"zoomed\":"@ + v13;
    assert(",\"zoomed\":"@ =~= seq![','] + "\"zoomed\":"@) by {
        reveal_strlit(",\"zoomed\":");
        reveal_strlit("\"zoomed\":");
    }
    one_more_member_follows(h12, p12, ",\"zoomed\":"@, "\"zoomed\":"@, v13);
    assert(seq!["\"className\":"@ + v0, "\"dpi\":"@ + v1, "\"enabled\":"@ + v2, "\"foreground\":"@ + v3, "\"height\":"@ + v4, "\"hwnd\":"@ + v5, "\"iconic\":"@ + v6, "\"left\":"@ + v7, "\"modifiers\":"@ + v8, "\"thickFrame\":"@ + v9, "\"title\":"@ + v10, "\"top\":"@ + v11, "\"width\":"@ + v12, "\"zoomed\":"@ + v13] =~= p13);
}

/// With the keys that are held these stand among the other members.
pub proof fn the_main_window_tells_the_held_keys(i: WindowInfo, keys: (bool, bool, bool))
    ensures
        info_spelled(i, Some(keys)) == "{"@ + joined_by(
            seq![
                "\"className\":"@ + json_quoted(i.class_name@),
                "\"dpi\":"@ + decimal(i.dpi as nat),
                "\"enabled\":"@ + truth_spelled(i.enabled),
                "\"foreground\":"@ + truth_spelled(i.foreground),
                "\"height\":"@ + signed_decimal(i.place@[3] as int),
                "\"hwnd\":"@ + signed_decimal(i.hwnd as int),
                "\"iconic\":"@ + truth_spelled(i.iconic),
                "\"left\":"@ + signed_decimal(i.place@[0] as int),
                "\"modifiers\":"@ + modifiers_spelled(keys),
                "\"thickFrame\":"@ + truth_spelled(i.thick_frame),
                "\"title\":"@ + json_quoted(i.title@),
                "\"top\":"@ + signed_decimal(i.place@[1] as int),
                "\"width\":"@ + signed_decimal(i.place@[2] as int),
                "\"zoomed\":"@ + truth_spelled(i.zoomed),
            ],
            ',',
        ) + "}"@,
{
    let head = "{\"className\":"@ + json_quoted(i.class_name@) + ",\"dpi\":"@ + decimal(i.dpi as nat) + ",\"enabled\":"@ + truth_spelled(i.enabled) + ",\"foreground\":"@ + truth_spelled(i.foreground) + ",\"height\":"@ + signed_decimal(i.place@[3] as int) + ",\"hwnd\":"@ + signed_decimal(i.hwnd as int) + ",\"iconic\":"@ + truth_spelled(i.iconic) + ",\"left\":"@ + signed_decimal(i.place@[0] as int);
    let keyed = ",\"modifiers\":"@;
    assert(head + (keyed + modifiers_spelled(keys)) =~= head + keyed + modifiers_spelled(keys));
    the_main_window_tells_the_held_keys_in_order(
        json_quoted(i.class_name@),
        decimal(i.dpi as nat),
        truth_spelled(i.enabled),
        truth_spelled(i.foreground),
        signed_decimal(i.place@[3] as int),
        signed_decimal(i.hwnd as int),
        truth_spelled(i.iconic),
        signed_decimal(i.place@[0] as int),
        modifiers_spelled(keys),
        truth_spelled(i.thick_frame),
        json_quoted(i.title@),
        signed_decimal(i.place@[1] as int),
        signed_decimal(i.place@[2] as int),
        truth_spelled(i.zoomed),
    );
}

/// The style of a window that can be resized.
pub proof fn the_style_of_a_frame()
    ensures
        WS_THICKFRAME == 0x40000,
{
}

/// A picture that cannot be read, or is none, is a failure that says why; of one that can be read there is a color
/// for each point, and its size.
pub proof fn a_picture_is_told_or_refused(path: Seq<char>, bytes: Seq<u8>, why: Seq<char>, points: Seq<(i64, i64)>, scale: Seq<char>)
    ensures
        pixels_told(path, Err(why), points, scale) is Err && pixels_told(path, Err(why), points, scale)->Err_0.code is NoSuchTarget,
        pixels_told(path, Err(why), points, scale)->Err_0.message == "cannot read "@ + path + ": "@ + why,
        decoded(bytes) is Err ==> pixels_told(path, Ok(bytes), points, scale) is Err && pixels_told(path, Ok(bytes), points, scale)->Err_0.code is InvalidArguments
            && pixels_told(path, Ok(bytes), points, scale)->Err_0.message == path + ": "@ + decoded(bytes)->Err_0,
        decoded(bytes) is Ok ==> pixels_told(path, Ok(bytes), points, scale) is Ok && pixels_told(path, Ok(bytes), points, scale)->Ok_0.text == decimal(points.len())
            + " pixel(s)"@,
        decoded(bytes) is Ok ==> quoted_texts(colors_at(decoded(bytes)->Ok_0, points)).len() == points.len(),
{
}

#[verifier::spinoff_prover]
#[verifier::rlimit(40)]
proof fn a_picture_has_its_members_in_order(v0: Seq<char>, v1: Seq<char>, v2: Seq<char>, v3: Seq<char>)
    ensures
        "{\"colors\":"@ + v0 + ",\"height\":"@ + v1 + ",\"scale\":"@ + v2 + ",\"width\":"@ + v3 + "}"@ == "{"@ + joined_by(
            seq![
                "\"colors\":"@ + v0,
                "\"height\":"@ + v1,
                "\"scale\":"@ + v2,
                "\"width\":"@ + v3,
            ],
            ',',
        ) + "}"@,
{
    let p0 = seq!["\"colors\":"@ + v0];
    let h0 = "{\"colors\":"@ + v0;
    assert(h0 =~= "{"@ + joined_by(p0, ',')) by {
        reveal_strlit("{");
        reveal_strlit("{\"colors\":");
        reveal_strlit("\"colors\":");
    }
    let p1 = p0.push("\"height\":"@ + v1);
    let h1 = h0 + ",\"height\":"@ + v1;
    assert(",\"height\":"@ =~= seq![','] + "\"height\":"@) by {
        reveal_strlit(",\"height\":");
        reveal_strlit("\"height\":");
    }
    one_more_member_follows(h0, p0, ",\"height\":"@, "\"height\":"@, v1);
    let p2 = p1.push("\"scale\":"@ + v2);
    let h2 = h1 + ",\"scale\":"@ + v2;
    assert(",\"scale\":"@ =~= seq![','] + "\"scale\":"@) by {
        reveal_strlit(",\"scale\":");
        reveal_strlit("\"scale\":");
    }
    one_more_member_follows(h1, p1, ",\"scale\":"@, "\"scale\":"@, v2);
    let p3 = p2.push("\"width\":"@ + v3);
    let h3 = h2 + ",\"width\":"@ + v3;
    assert(",\"width\":"@ =~= seq![','] + "\"width\":"@) by {
        reveal_strlit(",\"width\":");
        reveal_strlit("\"width\":");
    }
    one_more_member_follows(h2, p2, ",\"width\":"@, "\"width\":"@, v3);
    assert(seq!["\"colors\":"@ + v0, "\"height\":"@ + v1, "\"scale\":"@ + v2, "\"width\":"@ + v3] =~= p3);
}

/// What is told of a picture is an object: each member stands under its name.
pub proof fn a_picture_has_its_members(path: Seq<char>, bytes: Seq<u8>, p: Picture, points: Seq<(i64, i64)>, scale: Seq<char>)
    requires
        decoded(bytes) == Result::<Picture, Seq<char>>::Ok(p),
    ensures
        pixels_told(path, Ok(bytes), points, scale)->Ok_0.structured == "{"@ + joined_by(
            seq![
                "\"colors\":"@ + list_of(quoted_texts(colors_at(p, points))),
                "\"height\":"@ + decimal(p.height),
                "\"scale\":"@ + scale,
                "\"width\":"@ + decimal(p.width),
            ],
            ',',
        ) + "}"@,
{
    a_picture_has_its_members_in_order(
        list_of(quoted_texts(colors_at(p, points))),
        decimal(p.height),
        scale,
        decimal(p.width),
    );
}

} // verus!
