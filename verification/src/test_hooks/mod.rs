//! The test surface that a debug build can be armed with: `test_*` tools that drive a running browser.
//!
//! It is closed unless the command line and the environment both ask for it, and unless the data
//! directory is one that no real profile lives in. While it is closed, a test tool answers as a name
//! that does not exist.
use crate::counter::{bump, next_number};
use crate::json::{
    inner_spelled, inner_text, is_null, json_layer, json_quoted, json_string, list_of, member_or, member_text_or, member_texts, members_of, object_of,
    pair_views, put_member, value_spelled, value_text, with_member, write_list, write_object, Json, Layer,
};
use crate::text::{
    chars_of, copy_text, decimal, decimal_text, has_prefix, join2, join3, joined_by, one_more_member_follows, opt_view, quote, quoted, replace_text, replaced_from, same_text, signed_decimal,
    signed_text, strip_text, text_of, text_views,
};
use std::collections::HashSet;
use vstd::prelude::*;

pub mod capture;
pub mod console_watch;
pub mod fallback;
pub mod js;
pub mod native;

verus! {

broadcast use vstd::std_specs::hash::group_hash_axioms;

// ------------------------------------------------------------------------------ errors

/// What went wrong with a tool.
#[derive(Debug, Clone, Copy, PartialEq, Eq, Structural)]
pub enum ErrorCode {
    InvalidArguments,
    NoSuchTarget,
    WindowBusy,
    BrowserNotRunning,
    Internal,
    Timeout,
    TestHooksOff,
    UnknownTool,
    TooLarge,
    ScriptError,
}

/// The failure of a tool.
#[derive(Debug, Clone)]
pub struct ToolError {
    pub code: ErrorCode,
    pub message: String,
}

/// The failure of a tool, as mathematics.
#[verifier::ext_equal]
pub struct Failure {
    pub code: ErrorCode,
    pub message: Seq<char>,
}

impl View for ToolError {
    type V = Failure;

    open spec fn view(&self) -> Failure {
        Failure { code: self.code, message: self.message@ }
    }
}

/// A failure.
pub open spec fn failure(code: ErrorCode, message: Seq<char>) -> Failure {
    Failure { code, message }
}

pub fn err(code: ErrorCode, message: &str) -> (r: ToolError)
    ensures
        r@ == failure(code, message@),
{
    ToolError { code, message: copy_text(message) }
}

pub fn invalid(message: &str) -> (r: ToolError)
    ensures
        r@ == failure(ErrorCode::InvalidArguments, message@),
{
    err(ErrorCode::InvalidArguments, message)
}

/// A tool that does not exist.
pub open spec fn no_tool(name: Seq<char>) -> Failure {
    failure(ErrorCode::UnknownTool, "sta has no tool "@ + quoted(name))
}

pub fn unknown_tool(name: &str) -> (r: ToolError)
    ensures
        r@ == no_tool(name@),
{
    err(ErrorCode::UnknownTool, join2("sta has no tool ", quote(name).as_str()).as_str())
}

// ------------------------------------------------------------------------------ answers

/// The answer of a tool: a line of text, and the data as JSON.
#[derive(Debug)]
pub struct Output {
    pub text: String,
    pub structured: String,
}

/// The answer of a tool, as mathematics.
#[verifier::ext_equal]
pub struct Told {
    pub text: Seq<char>,
    pub structured: Seq<char>,
}

impl View for Output {
    type V = Told;

    open spec fn view(&self) -> Told {
        Told { text: self.text@, structured: self.structured@ }
    }
}

/// An answer.
pub open spec fn told(text: Seq<char>, structured: Seq<char>) -> Told {
    Told { text, structured }
}

pub fn out(text: String, structured: String) -> (r: Output)
    ensures
        r@ == told(text@, structured@),
{
    Output { text, structured }
}

/// The answer of a tool that has no data.
pub fn ok_null(text: &str) -> (r: Output)
    ensures
        r@ == told(text@, "null"@),
{
    out(copy_text(text), copy_text("null"))
}

// ------------------------------------------------------------------------------ arming

/// Arms the surface (with the environment).
pub const SWITCH: &'static str = "--sta-test-hooks";

/// Same, but connections still ask.
pub const SWITCH_NO_APPROVE: &'static str = "--sta-test-hooks-no-approve";

/// The variable that must be `1` as well.
pub const ENV: &'static str = "STA_E2E";

/// Names the data directory on the command line.
pub const DATA_DIR_SWITCH: &'static str = "--sta-data-dir=";

/// Names the data directory in the environment.
pub const DATA_DIR_ENV: &'static str = "STA_DATA_DIR";

#[derive(Debug, Clone, Copy, PartialEq, Eq, Structural)]
pub struct Arm {
    pub on: bool,
    /// Connections are approved by themselves, with full access, for this run.
    pub approve: bool,
}

/// A directory: as it was named, and as an absolute path.
pub struct Directory {
    pub given: String,
    pub absolute: String,
}

/// A text is one of the arguments.
pub open spec fn has_argument(args: Seq<String>, text: Seq<char>) -> bool {
    exists|i: int| 0 <= i < args.len() && (#[trigger] args[i])@ == text
}

fn find_argument(args: &Vec<String>, text: &str) -> (r: bool)
    ensures
        r == has_argument(args@, text@),
{
    let mut i: usize = 0;
    while i < args.len()
        invariant
            i <= args@.len(),
            forall|k: int| 0 <= k < i ==> (#[trigger] args@[k])@ != text@,
        decreases args@.len() - i,
    {
        if same_text(args[i].as_str(), text) {
            return true;
        }
        i = i + 1;
    }
    false
}

/// The command line and the environment ask for the surface.
pub open spec fn wanted(args: Seq<String>, env: Option<Seq<char>>) -> bool {
    (has_argument(args, SWITCH@) || has_argument(args, SWITCH_NO_APPROVE@)) && env == Some("1"@)
}

/// What the command line and the environment ask for: whether connections are approved, or nothing.
pub fn arm_wanted(args: &Vec<String>, env: Option<&str>) -> (r: Option<bool>)
    ensures
        r is Some <==> wanted(args@, opt_view(env)),
        r is Some ==> r->0 == !has_argument(args@, SWITCH_NO_APPROVE@),
{
    let switch = find_argument(args, SWITCH);
    let no_approve = find_argument(args, SWITCH_NO_APPROVE);
    let on = match env {
        Some(v) => same_text(v, "1"),
        None => false,
    };
    if !(switch || no_approve) || !on {
        return None;
    }
    Some(!no_approve)
}

/// The first directory from argument `i` on that the switch names; one that it names with no text is
/// passed over.
pub open spec fn named_directory(args: Seq<String>, i: int) -> Option<Seq<char>>
    decreases args.len() - i,
{
    if i < 0 || i >= args.len() {
        None
    } else {
        let rest = args[i]@.skip(DATA_DIR_SWITCH@.len() as int);
        if DATA_DIR_SWITCH@.is_prefix_of(args[i]@) && rest.len() > 0 {
            Some(rest)
        } else {
            named_directory(args, i + 1)
        }
    }
}

/// The data directory: by the switch, else by the environment.
pub open spec fn chosen_directory(args: Seq<String>, env: Option<Seq<char>>) -> Option<Seq<char>> {
    match named_directory(args, 0) {
        Some(dir) => Some(dir),
        None => match env {
            Some(v) if v.len() > 0 => Some(v),
            _ => None,
        },
    }
}

fn is_empty(s: &str) -> (r: bool)
    ensures
        r == (s@.len() == 0),
{
    chars_of(s).len() == 0
}

/// The data directory that was named: by the switch, else by the environment.
pub fn data_dir_argument(args: &Vec<String>, env: Option<&str>) -> (r: Option<String>)
    ensures
        match r {
            Some(dir) => chosen_directory(args@, opt_view(env)) == Some(dir@),
            None => chosen_directory(args@, opt_view(env)) is None,
        },
{
    let mut i: usize = 0;
    while i < args.len()
        invariant
            i <= args@.len(),
            named_directory(args@, i as int) == named_directory(args@, 0),
        decreases args@.len() - i,
    {
        match strip_text(args[i].as_str(), DATA_DIR_SWITCH) {
            Some(dir) => {
                if !is_empty(dir.as_str()) {
                    return Some(dir);
                }
            },
            None => {},
        }
        i = i + 1;
    }
    match env {
        Some(v) => if is_empty(v) { None } else { Some(copy_text(v)) },
        None => None,
    }
}

/// The lower case of a text.
pub uninterp spec fn lowercase(s: Seq<char>) -> Seq<char>;

/// Calls `str::to_lowercase`. The result is the name [`lowercase`].
#[verifier::external_body]
fn to_lower(s: &str) -> (r: String)
    ensures
        r@ == lowercase(s@),
{
    s.to_lowercase()
}

/// A text without the backslashes at its end.
pub open spec fn trim_slashes(s: Seq<char>) -> Seq<char>
    decreases s.len(),
{
    if s.len() > 0 && s.last() == '\\' { trim_slashes(s.drop_last()) } else { s }
}

/// A path as paths are compared: one kind of slash, none at the end, lower case.
pub open spec fn normalized(path: Seq<char>) -> Seq<char> {
    lowercase(trim_slashes(replaced_from(path, "/"@, "\\"@, 0)))
}

fn without_slashes(s: &str) -> (r: String)
    ensures
        r@ == trim_slashes(s@),
{
    let cs = chars_of(s);
    let mut to: usize = cs.len();
    proof {
        assert(cs@.take(cs@.len() as int) =~= cs@);
    }
    while to > 0 && cs[to - 1] == '\\'
        invariant
            to <= cs@.len(),
            trim_slashes(cs@.take(to as int)) == trim_slashes(cs@),
        decreases to,
    {
        proof {
            assert(cs@.take(to as int).drop_last() =~= cs@.take(to - 1));
        }
        to = to - 1;
    }
    proof {
        assert(cs@.subrange(0, to as int) =~= cs@.take(to as int));
    }
    text_of(cs.as_slice(), 0, to)
}

fn normalize(path: &str) -> (r: String)
    ensures
        r@ == normalized(path@),
{
    proof {
        reveal_strlit("/");
    }
    let slashes = replace_text(path, "/", "\\");
    let cut = without_slashes(slashes.as_str());
    to_lower(cut.as_str())
}

/// A directory below another.
pub open spec fn below(dir: Seq<char>, name: Seq<char>) -> Seq<char> {
    if dir.len() == 0 || dir.last() == '\\' || dir.last() == '/' { dir + name } else { dir + "\\"@ + name }
}

fn join_dir(dir: &str, name: &str) -> (r: String)
    ensures
        r@ == below(dir@, name@),
{
    let cs = chars_of(dir);
    let total: usize = cs.len();
    if total == 0 || cs[total - 1] == '\\' || cs[total - 1] == '/' {
        join2(dir, name)
    } else {
        join3(dir, "\\", name)
    }
}

/// One path is the other, or lies in it.
pub open spec fn inside(path: Seq<char>, profile: Seq<char>) -> bool {
    path == profile || (profile + "\\"@).is_prefix_of(path)
}

/// The path is that of a profile, or lies in it.
pub open spec fn in_profile(absolute: Seq<char>, local: Seq<char>, name: Seq<char>) -> bool {
    inside(normalized(absolute), normalized(below(local, name)))
}

/// The profile that a path lies in, of those that the local application data may hold.
pub open spec fn real_profile(absolute: Seq<char>, local: Seq<char>) -> Option<Seq<char>> {
    if in_profile(absolute, local, "sta"@) {
        Some("sta"@)
    } else if in_profile(absolute, local, "sta Dev"@) {
        Some("sta Dev"@)
    } else if in_profile(absolute, local, "Astatine"@) {
        Some("Astatine"@)
    } else if in_profile(absolute, local, "Astatine Dev"@) {
        Some("Astatine Dev"@)
    } else {
        None
    }
}

/// Why a directory is refused; `None` where it is not.
pub open spec fn refusal(dir: Option<&Directory>, local: Option<&Directory>) -> Option<Seq<char>> {
    match dir {
        None => Some("pass "@ + DATA_DIR_SWITCH@ + "<path> (or "@ + DATA_DIR_ENV@ + ")"@),
        Some(d) => match local {
            None => None,
            Some(l) => match real_profile(d.absolute@, l.absolute@) {
                Some(name) => Some(d.given@ + " is the real "@ + name + " profile"@),
                None => None,
            },
        },
    }
}

fn lies_in(absolute: &str, local: &str, name: &str) -> (r: bool)
    ensures
        r == in_profile(absolute@, local@, name@),
{
    let path = normalize(absolute);
    let profile = normalize(join_dir(local, name).as_str());
    same_text(path.as_str(), profile.as_str()) || has_prefix(path.as_str(), join2(profile.as_str(), "\\").as_str())
}

/// A test data directory: one that was named, and that neither is nor lies in a real profile. (Both
/// directories are compared as the system makes them absolute.)
pub fn data_dir_ok(dir: Option<&Directory>, local_app_data: Option<&Directory>) -> (r: Result<(), String>)
    ensures
        match r {
            Ok(_) => refusal(dir, local_app_data) is None,
            Err(why) => refusal(dir, local_app_data) == Some(why@),
        },
{
    let d: &Directory = match dir {
        Some(d) => d,
        None => {
            let mut why = join3("pass ", DATA_DIR_SWITCH, "<path> (or ");
            why.append(DATA_DIR_ENV);
            why.append(")");
            return Err(why);
        },
    };
    let local: &str = match local_app_data {
        Some(l) => l.absolute.as_str(),
        None => {
            return Ok(());
        },
    };
    let absolute: &str = d.absolute.as_str();
    let name: &'static str = if lies_in(absolute, local, "sta") {
        "sta"
    } else if lies_in(absolute, local, "sta Dev") {
        "sta Dev"
    } else if lies_in(absolute, local, "Astatine") {
        "Astatine"
    } else if lies_in(absolute, local, "Astatine Dev") {
        "Astatine Dev"
    } else {
        return Ok(());
    };
    let mut why = join3(d.given.as_str(), " is the real ", name);
    why.append(" profile");
    Err(why)
}

/// How the start goes on.
pub enum Arming {
    Closed,
    Armed { approve: bool },
    /// The process ends, with this message.
    Refused { message: String },
}

/// What is decided once, at the start: the surface stays closed where it was not asked for, and the
/// process ends where it was but the data directory will not do.
pub fn arm_from_process(args: &Vec<String>, env: Option<&str>, dir: Option<&Directory>, local_app_data: Option<&Directory>) -> (r: Arming)
    ensures
        ({
            let asked = wanted(args@, opt_view(env));
            let why = refusal(dir, local_app_data);
            match r {
                Arming::Closed => !asked,
                Arming::Armed { approve } => asked && why is None && approve == !has_argument(args@, SWITCH_NO_APPROVE@),
                Arming::Refused { message } => asked && why is Some && message@ == "[sta] "@ + SWITCH@
                    + " needs an explicit test data directory: "@ + why->0,
            }
        }),
{
    match arm_wanted(args, env) {
        None => Arming::Closed,
        Some(approve) => match data_dir_ok(dir, local_app_data) {
            Ok(_) => Arming::Armed { approve },
            Err(why) => {
                let mut message = join3("[sta] ", SWITCH, " needs an explicit test data directory: ");
                message.append(why.as_str());
                Arming::Refused { message }
            },
        },
    }
}

/// The surface of a start that goes on.
pub open spec fn armed_as(arming: Arming) -> Option<Arm> {
    match arming {
        Arming::Closed => Some(Arm { on: false, approve: false }),
        Arming::Armed { approve } => Some(Arm { on: true, approve }),
        Arming::Refused { .. } => None,
    }
}

/// The surface of a start that goes on; `None` where the process ends.
pub fn arm_of(arming: &Arming) -> (r: Option<Arm>)
    ensures
        r == armed_as(*arming),
{
    match arming {
        Arming::Closed => Some(Arm { on: false, approve: false }),
        Arming::Armed { approve } => Some(Arm { on: true, approve: *approve }),
        Arming::Refused { message: _ } => None,
    }
}

/// A real profile is never a test data directory.
pub proof fn a_real_profile_is_refused(dir: &Directory, local: &Directory, name: Seq<char>)
    requires
        name == "sta"@ || name == "sta Dev"@ || name == "Astatine"@ || name == "Astatine Dev"@,
        in_profile(dir.absolute@, local.absolute@, name),
    ensures
        refusal(Some(dir), Some(local)) is Some,
{
}

// ------------------------------------------------------------------------------ state

/// The surface.
pub struct Hooks {
    pub arm: Arm,
    /// The browser is shutting down.
    pub revoked: bool,
    pub next_reply: u64,
    /// Requests whose answers are waited for.
    pub replies: HashSet<u64>,
}

impl Hooks {
    pub fn new(arm: Arm) -> (r: Hooks)
        ensures
            r.arm == arm,
            !r.revoked,
            r.next_reply == 1,
            r.replies@ == Set::<u64>::empty(),
    {
        Hooks { arm, revoked: false, next_reply: 1, replies: HashSet::new() }
    }
}

/// The surface is armed for this run.
pub fn armed(state: &Hooks) -> (r: bool)
    ensures
        r == (state.arm.on && !state.revoked),
{
    state.arm.on && !state.revoked
}

/// Connections are approved by themselves.
pub fn auto_approve(state: &Hooks) -> (r: bool)
    ensures
        r == (state.arm.on && state.arm.approve && !state.revoked),
{
    state.arm.on && state.arm.approve && !state.revoked
}

/// The name belongs to the surface.
pub fn is_test_tool(name: &str) -> (r: bool)
    ensures
        r == "test_"@.is_prefix_of(name@),
{
    has_prefix(name, "test_")
}

/// What the start of the browser does for the surface.
#[derive(Debug, Clone, Copy, PartialEq, Eq, Structural)]
pub struct Startup {
    pub watch_consoles: bool,
    /// Opening the endpoint is a change of access, so only the approving mode does it.
    pub open_endpoint: bool,
}

pub fn on_startup(state: &Hooks) -> (r: Startup)
    ensures
        r.watch_consoles == (state.arm.on && !state.revoked),
        r.open_endpoint == (state.arm.on && state.arm.approve && !state.revoked),
{
    Startup { watch_consoles: armed(state), open_endpoint: auto_approve(state) }
}

/// The browser shuts down: later calls fail, and no answer is waited for.
pub fn clear(state: &mut Hooks)
    ensures
        final(state).revoked,
        final(state).replies@ == Set::<u64>::empty(),
        final(state).arm == old(state).arm,
        final(state).next_reply == old(state).next_reply,
{
    state.revoked = true;
    state.replies.clear();
}

// ------------------------------------------------------------------------------ arguments

/// A text argument.
pub open spec fn text_of_arg(args: Json, key: Seq<char>) -> Option<Seq<char>> {
    match args.member(key) {
        Some(v) => v.text(),
        None => None,
    }
}

/// A text argument that may be left out.
pub fn opt_str(args: &Json, key: &str) -> (r: Option<String>)
    ensures
        match r {
            Some(s) => text_of_arg(*args, key@) == Some(s@),
            None => text_of_arg(*args, key@) is None,
        },
{
    match args.get(key) {
        Some(v) => match v.as_text() {
            Some(s) => Some(copy_text(s)),
            None => None,
        },
        None => None,
    }
}

/// A text argument that must be there.
pub fn str_arg(args: &Json, key: &str) -> (r: Result<String, ToolError>)
    ensures
        match r {
            Ok(s) => text_of_arg(*args, key@) == Some(s@),
            Err(e) => text_of_arg(*args, key@) is None && e@ == failure(
                ErrorCode::InvalidArguments,
                key@ + " (a string) is required"@,
            ),
        },
{
    match opt_str(args, key) {
        Some(s) => Ok(s),
        None => Err(invalid(join2(key, " (a string) is required").as_str())),
    }
}

/// A yes or no, with what it is where it is left out.
pub open spec fn truth_of_arg(args: Json, key: Seq<char>, default: bool) -> bool {
    match args.member(key) {
        Some(v) => match v.truth() {
            Some(b) => b,
            None => default,
        },
        None => default,
    }
}

pub fn bool_arg(args: &Json, key: &str, default: bool) -> (r: bool)
    ensures
        r == truth_of_arg(*args, key@, default),
{
    match args.get(key) {
        Some(v) => match v.as_bool() {
            Some(b) => b,
            None => default,
        },
        None => default,
    }
}

/// How long is waited: ten seconds unless something else is said, a millisecond at least and two minutes
/// at most.
pub open spec fn timeout(args: Json) -> int {
    let wanted: int = match args.member("timeoutMs"@) {
        Some(v) => match v.signed_number() {
            Some(n) => n as int,
            None => 10_000,
        },
        None => 10_000,
    };
    if wanted < 1 {
        1
    } else if wanted > 120_000 {
        120_000
    } else {
        wanted
    }
}

/// How many milliseconds are waited for an answer.
pub fn timeout_arg(args: &Json) -> (r: i64)
    ensures
        r == timeout(*args),
{
    let wanted: i64 = match args.get("timeoutMs") {
        Some(v) => match v.as_i64() {
            Some(n) => n,
            None => 10_000,
        },
        None => 10_000,
    };
    if wanted < 1 {
        1
    } else if wanted > 120_000 {
        120_000
    } else {
        wanted
    }
}

/// The wrong entry of a list of points from position `i` on: one that is no pair, or one that is a pair
/// of something else than numbers.
pub open spec fn wrong_point(list: Seq<Json>, i: int) -> Option<bool>
    decreases list.len() - i,
{
    if i < 0 || i >= list.len() {
        None
    } else {
        match list[i] {
            Json::List(pair) => if pair@.len() != 2 {
                Some(false)
            } else if !(pair@[0] is Number && pair@[1] is Number) {
                Some(true)
            } else {
                wrong_point(list, i + 1)
            },
            _ => Some(false),
        }
    }
}

/// How many entries a list argument has.
pub open spec fn list_length(args: Json, key: Seq<char>) -> nat {
    match args.member(key) {
        Some(Json::List(list)) => list@.len(),
        _ => 0,
    }
}

/// Why an argument is no list of points.
pub open spec fn points_failure(args: Json, key: Seq<char>) -> Option<Seq<char>> {
    match args.member(key) {
        Some(Json::List(list)) => match wrong_point(list@, 0) {
            None => None,
            Some(false) => Some(key + ": every entry is a [x, y] pair"@),
            Some(true) => Some(key + ": every entry is a [x, y] pair of numbers"@),
        },
        _ => Some(key + " must be an array of [x, y] pairs"@),
    }
}

fn is_number(v: &Json) -> (r: bool)
    ensures
        r == (v is Number),
{
    match v {
        Json::Number { .. } => true,
        _ => false,
    }
}

/// Checks `[[x, y], …]`, and says how many points there are.
pub fn points_arg(args: &Json, key: &str) -> (r: Result<usize, ToolError>)
    ensures
        match r {
            Ok(n) => points_failure(*args, key@) is None && n == list_length(*args, key@),
            Err(e) => points_failure(*args, key@) is Some && e@ == failure(
                ErrorCode::InvalidArguments,
                points_failure(*args, key@)->0,
            ),
        },
{
    match args.get(key) {
        Some(Json::List(list)) => {
            let mut i: usize = 0;
            while i < list.len()
                invariant
                    i <= list@.len(),
                    args.member(key@) == Some(Json::List(*list)),
                    wrong_point(list@, i as int) == wrong_point(list@, 0),
                decreases list@.len() - i,
            {
                match &list[i] {
                    Json::List(pair) => {
                        if pair.len() != 2 {
                            return Err(invalid(join2(key, ": every entry is a [x, y] pair").as_str()));
                        }
                        if !(is_number(&pair[0]) && is_number(&pair[1])) {
                            return Err(invalid(join2(key, ": every entry is a [x, y] pair of numbers").as_str()));
                        }
                    },
                    _ => {
                        return Err(invalid(join2(key, ": every entry is a [x, y] pair").as_str()));
                    },
                }
                i = i + 1;
            }
            Ok(list.len())
        },
        _ => Err(invalid(join2(key, " must be an array of [x, y] pairs").as_str())),
    }
}

// ------------------------------------------------------------------------------ tools

/// A tool of the surface.
#[derive(Debug, Clone, Copy, PartialEq, Eq, Structural)]
pub enum Tool {
    Info,
    State,
    Dispatch,
    Execute,
    PushState,
    OpenTab,
    Focus,
    Accelerator,
    SendKey,
    ResetPermissions,
    Counts,
    Eval,
    Invoke,
    Targets,
    Cdp,
    CdpEvents,
    Attach,
    RealKeys,
    PostMouse,
    HoverInput,
    TabKey,
    Window,
    HitTest,
    WindowMessage,
    Dialog,
    Capture,
    Pixels,
    ClipboardGet,
    ClipboardSet,
    ZoneIdentifier,
    ConsoleWindows,
    Foreign,
    ForeignClose,
    ForeignTrigger,
    Batch,
}

impl Tool {
    /// The name of a tool.
    pub open spec fn label(self) -> Seq<char> {
        match self {
            Tool::Info => "test_info"@,
            Tool::State => "test_state"@,
            Tool::Dispatch => "test_dispatch"@,
            Tool::Execute => "test_execute"@,
            Tool::PushState => "test_push_state"@,
            Tool::OpenTab => "test_open_tab"@,
            Tool::Focus => "test_focus"@,
            Tool::Accelerator => "test_accelerator"@,
            Tool::SendKey => "test_send_key"@,
            Tool::ResetPermissions => "test_reset_permissions"@,
            Tool::Counts => "test_counts"@,
            Tool::Eval => "test_eval"@,
            Tool::Invoke => "test_invoke"@,
            Tool::Targets => "test_targets"@,
            Tool::Cdp => "test_cdp"@,
            Tool::CdpEvents => "test_cdp_events"@,
            Tool::Attach => "test_attach"@,
            Tool::RealKeys => "test_real_keys"@,
            Tool::PostMouse => "test_post_mouse"@,
            Tool::HoverInput => "test_hover_input"@,
            Tool::TabKey => "test_tab_key"@,
            Tool::Window => "test_window"@,
            Tool::HitTest => "test_hit_test"@,
            Tool::WindowMessage => "test_window_message"@,
            Tool::Dialog => "test_dialog"@,
            Tool::Capture => "test_capture"@,
            Tool::Pixels => "test_pixels"@,
            Tool::ClipboardGet => "test_clipboard_get"@,
            Tool::ClipboardSet => "test_clipboard_set"@,
            Tool::ZoneIdentifier => "test_zone_identifier"@,
            Tool::ConsoleWindows => "test_console_windows"@,
            Tool::Foreign => "test_foreign"@,
            Tool::ForeignClose => "test_foreign_close"@,
            Tool::ForeignTrigger => "test_foreign_trigger"@,
            Tool::Batch => "test_batch"@,
        }
    }

    /// The name of a tool.
    pub fn name(self) -> (r: &'static str)
        ensures
            r@ == self.label(),
    {
        match self {
            Tool::Info => "test_info",
            Tool::State => "test_state",
            Tool::Dispatch => "test_dispatch",
            Tool::Execute => "test_execute",
            Tool::PushState => "test_push_state",
            Tool::OpenTab => "test_open_tab",
            Tool::Focus => "test_focus",
            Tool::Accelerator => "test_accelerator",
            Tool::SendKey => "test_send_key",
            Tool::ResetPermissions => "test_reset_permissions",
            Tool::Counts => "test_counts",
            Tool::Eval => "test_eval",
            Tool::Invoke => "test_invoke",
            Tool::Targets => "test_targets",
            Tool::Cdp => "test_cdp",
            Tool::CdpEvents => "test_cdp_events",
            Tool::Attach => "test_attach",
            Tool::RealKeys => "test_real_keys",
            Tool::PostMouse => "test_post_mouse",
            Tool::HoverInput => "test_hover_input",
            Tool::TabKey => "test_tab_key",
            Tool::Window => "test_window",
            Tool::HitTest => "test_hit_test",
            Tool::WindowMessage => "test_window_message",
            Tool::Dialog => "test_dialog",
            Tool::Capture => "test_capture",
            Tool::Pixels => "test_pixels",
            Tool::ClipboardGet => "test_clipboard_get",
            Tool::ClipboardSet => "test_clipboard_set",
            Tool::ZoneIdentifier => "test_zone_identifier",
            Tool::ConsoleWindows => "test_console_windows",
            Tool::Foreign => "test_foreign",
            Tool::ForeignClose => "test_foreign_close",
            Tool::ForeignTrigger => "test_foreign_trigger",
            Tool::Batch => "test_batch",
        }
    }
}

/// The tool of a name.
pub open spec fn tool_named(name: Seq<char>) -> Option<Tool> {
    if name == "test_info"@ {
        Some(Tool::Info)
    } else if name == "test_state"@ {
        Some(Tool::State)
    } else if name == "test_dispatch"@ {
        Some(Tool::Dispatch)
    } else if name == "test_execute"@ {
        Some(Tool::Execute)
    } else if name == "test_push_state"@ {
        Some(Tool::PushState)
    } else if name == "test_open_tab"@ {
        Some(Tool::OpenTab)
    } else if name == "test_focus"@ {
        Some(Tool::Focus)
    } else if name == "test_accelerator"@ {
        Some(Tool::Accelerator)
    } else if name == "test_send_key"@ {
        Some(Tool::SendKey)
    } else if name == "test_reset_permissions"@ {
        Some(Tool::ResetPermissions)
    } else if name == "test_counts"@ {
        Some(Tool::Counts)
    } else if name == "test_eval"@ {
        Some(Tool::Eval)
    } else if name == "test_invoke"@ {
        Some(Tool::Invoke)
    } else if name == "test_targets"@ {
        Some(Tool::Targets)
    } else if name == "test_cdp"@ {
        Some(Tool::Cdp)
    } else if name == "test_cdp_events"@ {
        Some(Tool::CdpEvents)
    } else if name == "test_attach"@ {
        Some(Tool::Attach)
    } else if name == "test_real_keys"@ {
        Some(Tool::RealKeys)
    } else if name == "test_post_mouse"@ {
        Some(Tool::PostMouse)
    } else if name == "test_hover_input"@ {
        Some(Tool::HoverInput)
    } else if name == "test_tab_key"@ {
        Some(Tool::TabKey)
    } else if name == "test_window"@ {
        Some(Tool::Window)
    } else if name == "test_hit_test"@ {
        Some(Tool::HitTest)
    } else if name == "test_window_message"@ {
        Some(Tool::WindowMessage)
    } else if name == "test_dialog"@ {
        Some(Tool::Dialog)
    } else if name == "test_capture"@ {
        Some(Tool::Capture)
    } else if name == "test_pixels"@ {
        Some(Tool::Pixels)
    } else if name == "test_clipboard_get"@ {
        Some(Tool::ClipboardGet)
    } else if name == "test_clipboard_set"@ {
        Some(Tool::ClipboardSet)
    } else if name == "test_zone_identifier"@ {
        Some(Tool::ZoneIdentifier)
    } else if name == "test_console_windows"@ {
        Some(Tool::ConsoleWindows)
    } else if name == "test_foreign"@ {
        Some(Tool::Foreign)
    } else if name == "test_foreign_close"@ {
        Some(Tool::ForeignClose)
    } else if name == "test_foreign_trigger"@ {
        Some(Tool::ForeignTrigger)
    } else if name == "test_batch"@ {
        Some(Tool::Batch)
    } else {
        None
    }
}

/// The tool of a name.
pub fn find(name: &str) -> (r: Option<Tool>)
    ensures
        r == tool_named(name@),
{
    if same_text(name, "test_info") {
        Some(Tool::Info)
    } else if same_text(name, "test_state") {
        Some(Tool::State)
    } else if same_text(name, "test_dispatch") {
        Some(Tool::Dispatch)
    } else if same_text(name, "test_execute") {
        Some(Tool::Execute)
    } else if same_text(name, "test_push_state") {
        Some(Tool::PushState)
    } else if same_text(name, "test_open_tab") {
        Some(Tool::OpenTab)
    } else if same_text(name, "test_focus") {
        Some(Tool::Focus)
    } else if same_text(name, "test_accelerator") {
        Some(Tool::Accelerator)
    } else if same_text(name, "test_send_key") {
        Some(Tool::SendKey)
    } else if same_text(name, "test_reset_permissions") {
        Some(Tool::ResetPermissions)
    } else if same_text(name, "test_counts") {
        Some(Tool::Counts)
    } else if same_text(name, "test_eval") {
        Some(Tool::Eval)
    } else if same_text(name, "test_invoke") {
        Some(Tool::Invoke)
    } else if same_text(name, "test_targets") {
        Some(Tool::Targets)
    } else if same_text(name, "test_cdp") {
        Some(Tool::Cdp)
    } else if same_text(name, "test_cdp_events") {
        Some(Tool::CdpEvents)
    } else if same_text(name, "test_attach") {
        Some(Tool::Attach)
    } else if same_text(name, "test_real_keys") {
        Some(Tool::RealKeys)
    } else if same_text(name, "test_post_mouse") {
        Some(Tool::PostMouse)
    } else if same_text(name, "test_hover_input") {
        Some(Tool::HoverInput)
    } else if same_text(name, "test_tab_key") {
        Some(Tool::TabKey)
    } else if same_text(name, "test_window") {
        Some(Tool::Window)
    } else if same_text(name, "test_hit_test") {
        Some(Tool::HitTest)
    } else if same_text(name, "test_window_message") {
        Some(Tool::WindowMessage)
    } else if same_text(name, "test_dialog") {
        Some(Tool::Dialog)
    } else if same_text(name, "test_capture") {
        Some(Tool::Capture)
    } else if same_text(name, "test_pixels") {
        Some(Tool::Pixels)
    } else if same_text(name, "test_clipboard_get") {
        Some(Tool::ClipboardGet)
    } else if same_text(name, "test_clipboard_set") {
        Some(Tool::ClipboardSet)
    } else if same_text(name, "test_zone_identifier") {
        Some(Tool::ZoneIdentifier)
    } else if same_text(name, "test_console_windows") {
        Some(Tool::ConsoleWindows)
    } else if same_text(name, "test_foreign") {
        Some(Tool::Foreign)
    } else if same_text(name, "test_foreign_close") {
        Some(Tool::ForeignClose)
    } else if same_text(name, "test_foreign_trigger") {
        Some(Tool::ForeignTrigger)
    } else if same_text(name, "test_batch") {
        Some(Tool::Batch)
    } else {
        None
    }
}

/// A number that no two names of tools share.
spec fn code(name: Seq<char>) -> int {
    9 * name.len() + name[7] as int + 3 * name[name.len() - 3] as int
}

/// Every tool is found by its name, and is one of the surface.
pub proof fn every_tool_is_found(tool: Tool)
    ensures
        tool_named(tool.label()) == Some(tool),
        "test_"@.is_prefix_of(tool.label()),
{
    reveal_strlit("test_");
    reveal_strlit("test_info");
    reveal_strlit("test_state");
    reveal_strlit("test_dispatch");
    reveal_strlit("test_execute");
    reveal_strlit("test_push_state");
    reveal_strlit("test_open_tab");
    reveal_strlit("test_focus");
    reveal_strlit("test_accelerator");
    reveal_strlit("test_send_key");
    reveal_strlit("test_reset_permissions");
    reveal_strlit("test_counts");
    reveal_strlit("test_eval");
    reveal_strlit("test_invoke");
    reveal_strlit("test_targets");
    reveal_strlit("test_cdp");
    reveal_strlit("test_cdp_events");
    reveal_strlit("test_attach");
    reveal_strlit("test_real_keys");
    reveal_strlit("test_post_mouse");
    reveal_strlit("test_hover_input");
    reveal_strlit("test_tab_key");
    reveal_strlit("test_window");
    reveal_strlit("test_hit_test");
    reveal_strlit("test_window_message");
    reveal_strlit("test_dialog");
    reveal_strlit("test_capture");
    reveal_strlit("test_pixels");
    reveal_strlit("test_clipboard_get");
    reveal_strlit("test_clipboard_set");
    reveal_strlit("test_zone_identifier");
    reveal_strlit("test_console_windows");
    reveal_strlit("test_foreign");
    reveal_strlit("test_foreign_close");
    reveal_strlit("test_foreign_trigger");
    reveal_strlit("test_batch");
    assert(code("test_info"@) == 513);
    assert(code("test_state"@) == 478);
    assert(code("test_dispatch"@) == 580);
    assert(code("test_execute"@) == 560);
    assert(code("test_push_state"@) == 541);
    assert(code("test_open_tab"@) == 566);
    assert(code("test_focus"@) == 486);
    assert(code("test_accelerator"@) == 591);
    assert(code("test_send_key"@) == 548);
    assert(code("test_reset_permissions"@) == 646);
    assert(code("test_counts"@) == 546);
    assert(code("test_eval"@) == 532);
    assert(code("test_invoke"@) == 550);
    assert(code("test_targets"@) == 525);
    assert(code("test_cdp"@) == 481);
    assert(code("test_cdp_events"@) == 577);
    assert(code("test_attach"@) == 506);
    assert(code("test_real_keys"@) == 526);
    assert(code("test_post_mouse"@) == 601);
    assert(code("test_hover_input"@) == 598);
    assert(code("test_tab_key"@) == 527);
    assert(code("test_window"@) == 509);
    assert(code("test_hit_test"@) == 536);
    assert(code("test_window_message"@) == 572);
    assert(code("test_dialog"@) == 520);
    assert(code("test_capture"@) == 571);
    assert(code("test_pixels"@) == 522);
    assert(code("test_clipboard_get"@) == 576);
    assert(code("test_clipboard_set"@) == 612);
    assert(code("test_zone_identifier"@) == 605);
    assert(code("test_console_windows"@) == 623);
    assert(code("test_foreign"@) == 537);
    assert(code("test_foreign_close"@) == 609);
    assert(code("test_foreign_trigger"@) == 603);
    assert(code("test_batch"@) == 554);
    assert(tool.label().take(5) =~= "test_"@);
}

/// The surface decides: a closed one knows no tool, one that shuts down says so.
pub open spec fn admitted(state: Hooks, name: Seq<char>) -> Result<Tool, Failure> {
    if state.revoked {
        Err(failure(ErrorCode::TestHooksOff, "sta is shutting down: the test surface is closed"@))
    } else if !state.arm.on {
        Err(no_tool(name))
    } else {
        match tool_named(name) {
            Some(tool) => Ok(tool),
            None => Err(no_tool(name)),
        }
    }
}

/// The arguments that a tool gets, as JSON: none at all count as an empty object.
pub open spec fn given(args: Seq<char>) -> Seq<char> {
    if json_layer(args) == Some(Layer::Null) { "{}"@ } else { args }
}

/// Which tool is run, and with which arguments. `args`: those of the call, as JSON.
pub fn run(state: &Hooks, name: &str, args: &str) -> (r: Result<(Tool, String), ToolError>)
    ensures
        match r {
            Ok((tool, own)) => admitted(*state, name@) == Ok::<Tool, Failure>(tool) && own@ == given(args@),
            Err(e) => admitted(*state, name@) == Err::<Tool, Failure>(e@),
        },
{
    if state.revoked {
        return Err(err(ErrorCode::TestHooksOff, "sta is shutting down: the test surface is closed"));
    }
    if !armed(state) {
        return Err(unknown_tool(name));
    }
    match find(name) {
        Some(tool) => Ok((tool, if is_null(args) { copy_text("{}") } else { copy_text(args) })),
        None => Err(unknown_tool(name)),
    }
}

/// A surface that was never opened answers every name as one that does not exist.
pub proof fn a_closed_surface_knows_no_tool(state: Hooks, name: Seq<char>)
    requires
        !state.arm.on,
        !state.revoked,
    ensures
        admitted(state, name) == Err::<Tool, Failure>(no_tool(name)),
{
}

// ------------------------------------------------------------------------------ routes

/// What a request carries.
#[derive(Debug, Clone, Copy, PartialEq, Eq, Structural)]
pub enum Payload {
    Null,
    /// The arguments of the tool.
    Args,
    /// The argument `command`.
    Command,
    /// The argument `effects`.
    Effects,
}

/// Where a tool is carried out.
#[derive(Debug, Clone, Copy)]
pub enum Route {
    /// A request to the shell, and how long its answer is waited for.
    Request { command: &'static str, payload: Payload, timeout_ms: i64 },
    /// The state of the interface.
    Store,
    /// JavaScript and DevTools.
    Script,
    /// Windows, captures, the clipboard, files.
    Native,
    /// Several tools in a row.
    Batch,
}

/// The request of the shell that a tool is.
pub open spec fn command_of(tool: Tool) -> Option<Seq<char>> {
    match tool {
        Tool::Info => Some("debug.info"@),
        Tool::Dispatch => Some("debug.dispatch"@),
        Tool::Execute => Some("debug.execute"@),
        Tool::PushState => Some("debug.pushState"@),
        Tool::OpenTab => Some("debug.openTab"@),
        Tool::Focus => Some("debug.focus"@),
        Tool::Accelerator => Some("debug.accelerator"@),
        Tool::SendKey => Some("debug.sendKey"@),
        Tool::ResetPermissions => Some("debug.resetPermissions"@),
        Tool::Counts => Some("debug.info"@),
        Tool::RealKeys => Some("debug.realKeys"@),
        Tool::PostMouse => Some("debug.postMouse"@),
        Tool::HoverInput => Some("debug.hoverInput"@),
        Tool::TabKey => Some("debug.tabKey"@),
        Tool::Foreign => Some("debug.foreign"@),
        Tool::ForeignClose => Some("debug.foreign.close"@),
        Tool::ForeignTrigger => Some("debug.foreign.trigger"@),
        _ => None,
    }
}

/// What the request of a tool carries.
pub open spec fn payload_of(tool: Tool) -> Payload {
    match tool {
        Tool::Dispatch => Payload::Command,
        Tool::Execute => Payload::Effects,
        Tool::Info | Tool::PushState | Tool::Counts | Tool::Foreign => Payload::Null,
        _ => Payload::Args,
    }
}

/// How long the answer to a tool is waited for.
pub open spec fn wait_of(tool: Tool, args: Json) -> int {
    match tool {
        Tool::RealKeys | Tool::PostMouse => 120_000,
        Tool::HoverInput => 30_000,
        _ => timeout(args),
    }
}

/// Where a tool that is no request is carried out.
pub open spec fn place_of(tool: Tool) -> Route {
    match tool {
        Tool::State => Route::Store,
        Tool::Eval | Tool::Invoke | Tool::Targets | Tool::Cdp | Tool::CdpEvents | Tool::Attach => Route::Script,
        Tool::Batch => Route::Batch,
        _ => Route::Native,
    }
}

/// What a tool misses.
pub open spec fn missing(tool: Tool, args: Json) -> Option<Seq<char>> {
    if tool is Dispatch && args.member("command"@) is None {
        Some("command is required"@)
    } else if tool is Execute && args.member("effects"@) is None {
        Some("effects is required"@)
    } else {
        None
    }
}

/// The route of a tool.
pub open spec fn routed(tool: Tool, args: Json, route: Route) -> bool {
    match command_of(tool) {
        Some(text) => match route {
            Route::Request { command, payload, timeout_ms } => command@ == text && payload == payload_of(tool) && timeout_ms == wait_of(tool, args),
            _ => false,
        },
        None => route == place_of(tool),
    }
}

fn request(command: &'static str, payload: Payload, timeout_ms: i64) -> (r: Route)
    ensures
        r matches Route::Request { command: c, payload: p, timeout_ms: t } && c@ == command@ && p == payload && t == timeout_ms,
{
    Route::Request { command, payload, timeout_ms }
}

/// Where a tool is carried out.
pub fn dispatch(tool: Tool, args: &Json) -> (r: Result<Route, ToolError>)
    ensures
        match r {
            Ok(route) => missing(tool, *args) is None && routed(tool, *args, route),
            Err(e) => missing(tool, *args) is Some && e@ == failure(ErrorCode::InvalidArguments, missing(tool, *args)->0),
        },
{
    let wait: i64 = timeout_arg(args);
    match tool {
        // The shell.
        Tool::Info => Ok(request("debug.info", Payload::Null, wait)),
        Tool::State => Ok(Route::Store),
        Tool::Dispatch => match args.get("command") {
            Some(_) => Ok(request("debug.dispatch", Payload::Command, wait)),
            None => Err(invalid("command is required")),
        },
        Tool::Execute => match args.get("effects") {
            Some(_) => Ok(request("debug.execute", Payload::Effects, wait)),
            None => Err(invalid("effects is required")),
        },
        Tool::PushState => Ok(request("debug.pushState", Payload::Null, wait)),
        Tool::OpenTab => Ok(request("debug.openTab", Payload::Args, wait)),
        Tool::Focus => Ok(request("debug.focus", Payload::Args, wait)),
        Tool::Accelerator => Ok(request("debug.accelerator", Payload::Args, wait)),
        Tool::SendKey => Ok(request("debug.sendKey", Payload::Args, wait)),
        Tool::ResetPermissions => Ok(request("debug.resetPermissions", Payload::Args, wait)),
        Tool::Counts => Ok(request("debug.info", Payload::Null, wait)),
        // JavaScript and DevTools.
        Tool::Eval | Tool::Invoke | Tool::Targets | Tool::Cdp | Tool::CdpEvents | Tool::Attach => Ok(Route::Script),
        // Input.
        Tool::RealKeys => Ok(request("debug.realKeys", Payload::Args, 120_000)),
        Tool::PostMouse => Ok(request("debug.postMouse", Payload::Args, 120_000)),
        Tool::HoverInput => Ok(request("debug.hoverInput", Payload::Args, 30_000)),
        Tool::TabKey => Ok(request("debug.tabKey", Payload::Args, wait)),
        // Windows that the engine made.
        Tool::Foreign => Ok(request("debug.foreign", Payload::Null, wait)),
        Tool::ForeignClose => Ok(request("debug.foreign.close", Payload::Args, wait)),
        Tool::ForeignTrigger => Ok(request("debug.foreign.trigger", Payload::Args, wait)),
        Tool::Batch => Ok(Route::Batch),
        // Windows, captures, the clipboard, files.
        _ => Ok(Route::Native),
    }
}

/// What a request carries, as JSON.
pub open spec fn carried(payload: Payload, args: Seq<char>) -> Seq<char> {
    match payload {
        Payload::Null => "null"@,
        Payload::Args => args,
        Payload::Command => member_or(args, "command"@, "null"@),
        Payload::Effects => member_or(args, "effects"@, "null"@),
    }
}

/// What a request carries, as JSON. `args`: the arguments of the tool, as JSON.
pub fn payload_text(payload: Payload, args: &str) -> (r: String)
    ensures
        r@ == carried(payload, args@),
{
    match payload {
        Payload::Null => copy_text("null"),
        Payload::Args => copy_text(args),
        Payload::Command => member_text_or(args, "command", "null"),
        Payload::Effects => member_text_or(args, "effects", "null"),
    }
}

/// What the answer of a tool holds besides its line of text.
#[derive(Debug, Clone, Copy, PartialEq, Eq, Structural)]
pub enum Structured {
    Null,
    /// The answer of the request.
    Value,
    /// `{"reset": …}` around it.
    Reset,
    /// `{"closed": …}` around it.
    Closed,
    /// The counters out of it: of commands and of accelerators.
    Counts,
    /// The sections of it that were asked for, with the time.
    Sections,
}

pub open spec fn structured_of(tool: Tool) -> Structured {
    match tool {
        Tool::Dispatch | Tool::Execute | Tool::PushState | Tool::Focus | Tool::SendKey => Structured::Null,
        Tool::ResetPermissions => Structured::Reset,
        Tool::ForeignClose => Structured::Closed,
        Tool::Counts => Structured::Counts,
        Tool::Info => Structured::Sections,
        _ => Structured::Value,
    }
}

/// What the answer of a tool that is a request, or the state, holds.
pub fn structured(tool: Tool) -> (r: Structured)
    ensures
        r == structured_of(tool),
{
    match tool {
        Tool::Dispatch | Tool::Execute | Tool::PushState | Tool::Focus | Tool::SendKey => Structured::Null,
        Tool::ResetPermissions => Structured::Reset,
        Tool::ForeignClose => Structured::Closed,
        Tool::Counts => Structured::Counts,
        Tool::Info => Structured::Sections,
        _ => Structured::Value,
    }
}

/// The member of an answer that its line of text names.
pub open spec fn told_member(tool: Tool) -> Option<Seq<char>> {
    match tool {
        Tool::OpenTab => Some("tab"@),
        Tool::Accelerator => Some("commandId"@),
        Tool::RealKeys => Some("sent"@),
        Tool::PostMouse => Some("posted"@),
        _ => None,
    }
}

/// The member of an answer that its line of text names.
pub fn named_member(tool: Tool) -> (r: Option<&'static str>)
    ensures
        opt_view(r) == told_member(tool),
{
    match tool {
        Tool::OpenTab => Some("tab"),
        Tool::Accelerator => Some("commandId"),
        Tool::RealKeys => Some("sent"),
        Tool::PostMouse => Some("posted"),
        _ => None,
    }
}

/// The line of text of an answer. `printed`: the answer, or the member that the line names.
pub open spec fn line_of(tool: Tool, printed: Seq<char>) -> Seq<char> {
    match tool {
        Tool::Info => "shell snapshot"@,
        Tool::State => "UiState"@,
        Tool::Dispatch => "dispatched"@,
        Tool::Execute => "effects run"@,
        Tool::PushState => "state pushed"@,
        Tool::OpenTab => "opened tab "@ + printed,
        Tool::Focus => "focused"@,
        Tool::Accelerator => "accelerator ran command "@ + printed,
        Tool::SendKey => "key sent to the window"@,
        Tool::ResetPermissions => printed + " content settings reset"@,
        Tool::Counts => "command counters"@,
        Tool::RealKeys => "sent "@ + printed + " key transitions"@,
        Tool::PostMouse => "posted "@ + printed + " mouse messages"@,
        Tool::HoverInput => "hover snapshot"@,
        Tool::TabKey => "key sent to the tab"@,
        Tool::Foreign => "foreign snapshot"@,
        Tool::ForeignClose => "closed: "@ + printed,
        Tool::ForeignTrigger => "Target.createTarget"@,
        _ => Seq::empty(),
    }
}

/// The line of text of an answer; empty for a tool that writes its own.
pub fn summary(tool: Tool, printed: &str) -> (r: String)
    ensures
        r@ == line_of(tool, printed@),
{
    match tool {
        Tool::Info => copy_text("shell snapshot"),
        Tool::State => copy_text("UiState"),
        Tool::Dispatch => copy_text("dispatched"),
        Tool::Execute => copy_text("effects run"),
        Tool::PushState => copy_text("state pushed"),
        Tool::OpenTab => join2("opened tab ", printed),
        Tool::Focus => copy_text("focused"),
        Tool::Accelerator => join2("accelerator ran command ", printed),
        Tool::SendKey => copy_text("key sent to the window"),
        Tool::ResetPermissions => join2(printed, " content settings reset"),
        Tool::Counts => copy_text("command counters"),
        Tool::RealKeys => join3("sent ", printed, " key transitions"),
        Tool::PostMouse => join3("posted ", printed, " mouse messages"),
        Tool::HoverInput => copy_text("hover snapshot"),
        Tool::TabKey => copy_text("key sent to the tab"),
        Tool::Foreign => copy_text("foreign snapshot"),
        Tool::ForeignClose => join2("closed: ", printed),
        Tool::ForeignTrigger => copy_text("Target.createTarget"),
        _ => String::new(),
    }
}

/// A text is one of the strings of a list.
pub open spec fn asked_for(wanted: Seq<Json>, key: Seq<char>) -> bool {
    exists|i: int| 0 <= i < wanted.len() && (#[trigger] wanted[i]).text() == Some(key)
}

/// A section of the snapshot is kept: all are where no list says which.
pub open spec fn section_kept(args: Json, key: Seq<char>) -> bool {
    match args.member("sections"@) {
        Some(Json::List(wanted)) => asked_for(wanted@, key),
        _ => true,
    }
}

/// A section of the snapshot is kept.
pub fn keeps_section(args: &Json, key: &str) -> (r: bool)
    ensures
        r == section_kept(*args, key@),
{
    match args.get("sections") {
        Some(Json::List(wanted)) => {
            let mut i: usize = 0;
            while i < wanted.len()
                invariant
                    i <= wanted@.len(),
                    args.member("sections"@) == Some(Json::List(*wanted)),
                    forall|k: int| 0 <= k < i ==> (#[trigger] wanted@[k]).text() != Some(key@),
                decreases wanted@.len() - i,
            {
                match wanted[i].as_text() {
                    Some(text) => {
                        if same_text(text, key) {
                            return true;
                        }
                    },
                    None => {},
                }
                i = i + 1;
            }
            false
        },
        _ => true,
    }
}

/// The sections of the snapshot from position `i` on that are kept.
pub open spec fn kept_sections(args: Json, members: Seq<(Seq<char>, Seq<char>)>, i: int) -> Seq<(Seq<char>, Seq<char>)>
    decreases members.len() - i,
{
    if i < 0 || i >= members.len() {
        Seq::empty()
    } else if section_kept(args, members[i].0) {
        seq![members[i]] + kept_sections(args, members, i + 1)
    } else {
        kept_sections(args, members, i + 1)
    }
}

/// The snapshot of the shell: the sections that were asked for, when it was taken, and that the surface is
/// there. (What is no object stays as it is.)
pub open spec fn snapshot_spelled(value: Seq<char>, args: Json, at: u64) -> Seq<char> {
    match members_of(value) {
        Some(members) => object_of(
            with_member(with_member(kept_sections(args, members, 0), "at"@, decimal(at as nat)), "testHooks"@, "true"@),
        ),
        None => value,
    }
}

/// The snapshot of the shell. `value`: what the shell said of itself, as JSON; `at`: the milliseconds since
/// the process started.
pub fn info(value: &str, args: &Json, at: u64) -> (r: String)
    ensures
        r@ == snapshot_spelled(value@, *args, at),
{
    match member_texts(value) {
        None => copy_text(value),
        Some(members) => {
            let ghost whole = kept_sections(*args, pair_views(members@), 0);
            let mut kept: Vec<(String, String)> = Vec::new();
            let mut i: usize = 0;
            proof {
                assert(pair_views(kept@) + whole =~= whole);
            }
            while i < members.len()
                invariant
                    i <= members@.len(),
                    whole == pair_views(kept@) + kept_sections(*args, pair_views(members@), i as int),
                decreases members@.len() - i,
            {
                let ghost rest = kept_sections(*args, pair_views(members@), i + 1);
                let ghost before = kept@;
                if keeps_section(args, members[i].0.as_str()) {
                    kept.push((copy_text(members[i].0.as_str()), copy_text(members[i].1.as_str())));
                    proof {
                        let this = pair_views(members@)[i as int];
                        assert(pair_views(kept@) =~= pair_views(before).push(this));
                        assert(pair_views(before) + (seq![this] + rest) =~= pair_views(kept@) + rest);
                    }
                }
                i = i + 1;
            }
            proof {
                assert(pair_views(kept@) + Seq::<(Seq<char>, Seq<char>)>::empty() =~= pair_views(kept@));
            }
            put_member(&mut kept, "at", decimal_text(at).as_str());
            put_member(&mut kept, "testHooks", "true");
            write_object(&kept)
        },
    }
}

/// The data of an answer. `value`: what the request was answered, as JSON.
pub open spec fn structured_spelled(tool: Tool, value: Seq<char>, args: Json, at: u64) -> Seq<char> {
    match structured_of(tool) {
        Structured::Null => "null"@,
        Structured::Value => value,
        Structured::Reset => "{\"reset\":"@ + value + "}"@,
        Structured::Closed => "{\"closed\":"@ + value + "}"@,
        Structured::Counts => counts_spelled(value),
        Structured::Sections => snapshot_spelled(value, args, at),
    }
}

/// The counters in what the shell says of itself.
pub open spec fn counts_spelled(value: Seq<char>) -> Seq<char> {
    "{\"accelerators\":"@ + (match inner_spelled(value, "keyboard"@, "accelerators"@) {
        Some(a) => a,
        None => "null"@,
    }) + ",\"commandCounts\":"@ + (match inner_spelled(value, "controller"@, "commandCounts"@) {
        Some(c) => c,
        None => "null"@,
    }) + "}"@
}

fn counts(value: &str) -> (r: String)
    ensures
        r@ == counts_spelled(value@),
{
    let accelerators = match inner_text(value, "keyboard", "accelerators") {
        Some(a) => a,
        None => copy_text("null"),
    };
    let commands = match inner_text(value, "controller", "commandCounts") {
        Some(c) => c,
        None => copy_text("null"),
    };
    let mut r = join3("{\"accelerators\":", accelerators.as_str(), ",\"commandCounts\":");
    r.append(commands.as_str());
    r.append("}");
    r
}

/// What the line of text of an answer names: a member of the answer, or all of it.
pub open spec fn named_in(tool: Tool, value: Seq<char>) -> Seq<char> {
    match told_member(tool) {
        Some(key) => member_or(value, key, "null"@),
        None => value,
    }
}

/// The answer of a tool that is a request, or the state.
pub open spec fn answered(tool: Tool, value: Seq<char>, args: Json, at: u64) -> Told {
    told(line_of(tool, named_in(tool, value)), structured_spelled(tool, value, args, at))
}

/// The answer of a tool that is a request, or the state. `value`: what the request was answered, as JSON;
/// `at`: the milliseconds since the process started.
pub fn answer(tool: Tool, value: &str, args: &Json, at: u64) -> (r: Output)
    ensures
        r@ == answered(tool, value@, *args, at),
{
    let text = match named_member(tool) {
        Some(key) => summary(tool, member_text_or(value, key, "null").as_str()),
        None => summary(tool, value),
    };
    let data = match structured(tool) {
        Structured::Null => copy_text("null"),
        Structured::Value => copy_text(value),
        Structured::Reset => join3("{\"reset\":", value, "}"),
        Structured::Closed => join3("{\"closed\":", value, "}"),
        Structured::Counts => counts(value),
        Structured::Sections => info(value, args, at),
    };
    out(text, data)
}

/// The state of the interface, as JSON: `None` before there is one, an error where it cannot be written.
pub fn state_answer(state: Option<Result<String, String>>) -> (r: Result<Output, ToolError>)
    ensures
        match state {
            None => r is Err && r->Err_0@ == failure(ErrorCode::BrowserNotRunning, "the store is not ready"@),
            Some(Err(why)) => r is Err && r->Err_0@ == failure(ErrorCode::Internal, why@),
            Some(Ok(value)) => r is Ok && r->Ok_0@ == told("UiState"@, value@),
        },
{
    match state {
        None => Err(err(ErrorCode::BrowserNotRunning, "the store is not ready")),
        Some(Err(why)) => Err(ToolError { code: ErrorCode::Internal, message: why }),
        Some(Ok(value)) => Ok(out(copy_text("UiState"), value)),
    }
}

// ------------------------------------------------------------------------------ requests

/// The code of a request that failed.
pub open spec fn code_of(code: i32) -> ErrorCode {
    if code == 400 {
        ErrorCode::InvalidArguments
    } else if code == 404 {
        ErrorCode::NoSuchTarget
    } else if code == 409 {
        ErrorCode::WindowBusy
    } else if code == 503 {
        ErrorCode::BrowserNotRunning
    } else {
        ErrorCode::Internal
    }
}

/// The failure of a request as that of a tool.
pub fn from_debug_code(code: i32, message: String) -> (r: ToolError)
    ensures
        r@ == failure(code_of(code), message@),
{
    let mapped = if code == 400 {
        ErrorCode::InvalidArguments
    } else if code == 404 {
        ErrorCode::NoSuchTarget
    } else if code == 409 {
        ErrorCode::WindowBusy
    } else if code == 503 {
        ErrorCode::BrowserNotRunning
    } else {
        ErrorCode::Internal
    };
    ToolError { code: mapped, message }
}

/// The browser that a request is sent by.
pub fn shell_browser(topbar: Option<i32>) -> (r: Result<i32, ToolError>)
    ensures
        match r {
            Ok(id) => topbar == Some(id),
            Err(e) => topbar is None && e@ == failure(
                ErrorCode::BrowserNotRunning,
                "the shell has no topbar browser (starting up or shutting down)"@,
            ),
        },
{
    match topbar {
        Some(id) => Ok(id),
        None => Err(err(ErrorCode::BrowserNotRunning, "the shell has no topbar browser (starting up or shutting down)")),
    }
}

/// A request is sent. Returns its number.
pub fn begin_request(state: &mut Hooks) -> (r: u64)
    ensures
        r == old(state).next_reply,
        final(state).next_reply == next_number(old(state).next_reply),
        final(state).replies@ == old(state).replies@.insert(r),
        final(state).arm == old(state).arm,
        final(state).revoked == old(state).revoked,
{
    let id: u64 = state.next_reply;
    state.next_reply = bump(id);
    state.replies.insert(id);
    id
}

/// The answer to a request came, or is not waited for any more. Returns whether it was waited for.
pub fn deliver(state: &mut Hooks, id: u64) -> (r: bool)
    ensures
        r == old(state).replies@.contains(id),
        final(state).replies@ == old(state).replies@.remove(id),
        final(state).next_reply == old(state).next_reply,
        final(state).arm == old(state).arm,
        final(state).revoked == old(state).revoked,
{
    state.replies.remove(&id)
}

/// A request is answered once: the second answer is not waited for.
pub proof fn a_request_is_answered_once(replies: Set<u64>, id: u64)
    ensures
        !replies.remove(id).contains(id),
        replies.insert(id).contains(id),
{
}

/// A request was answered with a text: the JSON value in it, or `null` where it holds none.
pub fn text_answer(response: &str) -> (r: String)
    ensures
        r@ == value_spelled(response@),
{
    value_text(response)
}

/// How many bytes a request was answered, as JSON.
pub fn bytes_answer(length: usize) -> (r: String)
    ensures
        r@ == "{\"bytes\":"@ + decimal(length as nat) + "}"@,
{
    join3("{\"bytes\":", decimal_text(length as u64).as_str(), "}")
}

/// What became of a request.
pub enum Answer<V> {
    Value(V),
    Failed { code: i32, message: String },
    /// Nobody will answer.
    Dropped,
    /// Nobody did in time.
    TimedOut,
}

/// What a request failed with.
pub open spec fn answer_failure<V>(answer: Answer<V>, command: Seq<char>, timeout_ms: int) -> Option<Failure> {
    match answer {
        Answer::Value(_) => None,
        Answer::Failed { code, message } => Some(failure(code_of(code), message@)),
        Answer::Dropped => Some(failure(ErrorCode::Internal, command + " was dropped without an answer"@)),
        Answer::TimedOut => Some(
            failure(ErrorCode::Timeout, command + " did not answer within "@ + signed_decimal(timeout_ms) + " ms"@),
        ),
    }
}

/// The result of a request.
pub fn debug_request<V>(answer: Answer<V>, command: &str, timeout_ms: i64) -> (r: Result<V, ToolError>)
    ensures
        match r {
            Ok(v) => answer == Answer::Value(v),
            Err(e) => answer_failure(answer, command@, timeout_ms as int) == Some(e@),
        },
{
    match answer {
        Answer::Value(v) => Ok(v),
        Answer::Failed { code, message } => Err(from_debug_code(code, message)),
        Answer::Dropped => Err(err(ErrorCode::Internal, join2(command, " was dropped without an answer").as_str())),
        Answer::TimedOut => {
            let mut message = join3(command, " did not answer within ", signed_text(timeout_ms).as_str());
            message.append(" ms");
            Err(ToolError { code: ErrorCode::Timeout, message })
        },
    }
}

// ------------------------------------------------------------------------------ batches

/// Why a batch is refused.
pub open spec fn batch_failure(args: Json, most: nat) -> Option<Seq<char>> {
    match args.member("calls"@) {
        Some(Json::List(calls)) => if calls@.len() == 0 || calls@.len() > most {
            Some("calls takes 1 to "@ + decimal(most) + " entries (got "@ + decimal(calls@.len()) + ")"@)
        } else {
            None
        },
        _ => Some("calls is required"@),
    }
}

/// Begins a batch of `most` calls at most. Returns how many there are, and whether the first failure
/// ends it.
pub fn batch(args: &Json, most: usize) -> (r: Result<(usize, bool), ToolError>)
    ensures
        match r {
            Ok((count, stop)) => batch_failure(*args, most as nat) is None && count == list_length(*args, "calls"@) && stop == truth_of_arg(
                *args,
                "stopOnError"@,
                true,
            ),
            Err(e) => batch_failure(*args, most as nat) is Some && e@ == failure(
                ErrorCode::InvalidArguments,
                batch_failure(*args, most as nat)->0,
            ),
        },
{
    match args.get("calls") {
        Some(Json::List(calls)) => {
            let count: usize = calls.len();
            if count == 0 || count > most {
                let mut message = join3("calls takes 1 to ", decimal_text(most as u64).as_str(), " entries (got ");
                message.append(decimal_text(count as u64).as_str());
                message.append(")");
                return Err(ToolError { code: ErrorCode::InvalidArguments, message });
            }
            Ok((count, bool_arg(args, "stopOnError", true)))
        },
        _ => Err(invalid("calls is required")),
    }
}

/// The tool of one call of a batch.
pub open spec fn batch_step(call: Json) -> Result<Tool, Failure> {
    match text_of_arg(call, "name"@) {
        None => Err(failure(ErrorCode::InvalidArguments, "every call needs a name"@)),
        Some(name) => if name == "test_batch"@ || name == "test_real_keys"@ {
            Err(failure(ErrorCode::InvalidArguments, name + " cannot run inside test_batch"@))
        } else {
            match tool_named(name) {
                Some(tool) => Ok(tool),
                None => Err(no_tool(name)),
            }
        },
    }
}

/// The tool of one call of a batch: a batch runs no batch, and no keys of the real keyboard.
pub fn batch_call(call: &Json) -> (r: Result<Tool, ToolError>)
    ensures
        match r {
            Ok(tool) => batch_step(*call) == Ok::<Tool, Failure>(tool),
            Err(e) => batch_step(*call) == Err::<Tool, Failure>(e@),
        },
{
    match opt_str(call, "name") {
        None => Err(invalid("every call needs a name")),
        Some(name) => {
            if same_text(name.as_str(), "test_batch") || same_text(name.as_str(), "test_real_keys") {
                return Err(invalid(join2(name.as_str(), " cannot run inside test_batch").as_str()));
            }
            match find(name.as_str()) {
                Some(tool) => Ok(tool),
                None => Err(unknown_tool(name.as_str())),
            }
        },
    }
}

/// A batch goes on after a call.
pub fn batch_goes_on(ok: bool, stop_on_error: bool) -> (r: bool)
    ensures
        r == (ok || !stop_on_error),
{
    ok || !stop_on_error
}

/// A batch never runs itself or the real keyboard.
pub proof fn a_batch_never_nests(call: Json)
    ensures
        match batch_step(call) {
            Ok(tool) => tool != Tool::Batch && tool != Tool::RealKeys,
            Err(_) => true,
        },
{
}

/// The arguments of one call of a batch, as JSON: an empty object where there are none. `call`: the call,
/// as JSON.
pub fn batch_arguments(call: &str) -> (r: String)
    ensures
        r@ == member_or(call@, "args"@, "{}"@),
{
    member_text_or(call, "args", "{}")
}

/// What a call of a batch came to, as JSON. `code`: the name of an error's code.
pub open spec fn batch_result_spelled(name: Seq<char>, result: Result<Seq<char>, (Seq<char>, Seq<char>)>) -> Seq<char> {
    match result {
        Ok(structured) => "{\"name\":"@ + json_quoted(name) + ",\"ok\":true,\"structured\":"@ + structured + "}"@,
        Err((code, message)) => "{\"error\":{\"code\":"@ + json_quoted(code) + ",\"message\":"@ + json_quoted(message) + "},\"name\":"@
            + json_quoted(name) + ",\"ok\":false}"@,
    }
}

/// What a call of a batch came to that worked, as JSON.
pub fn batch_result(name: &str, output: &Output) -> (r: String)
    ensures
        r@ == batch_result_spelled(name@, Ok(output.structured@)),
{
    let mut r = join3("{\"name\":", json_string(name).as_str(), ",\"ok\":true,\"structured\":");
    r.append(output.structured.as_str());
    r.append("}");
    r
}

/// What a call of a batch came to that failed, as JSON. `code`: the name of the error's code.
pub fn batch_failed(name: &str, code: &str, error: &ToolError) -> (r: String)
    ensures
        r@ == batch_result_spelled(name@, Err((code@, error.message@))),
{
    let mut r = join3("{\"error\":{\"code\":", json_string(code).as_str(), ",\"message\":");
    r.append(json_string(error.message.as_str()).as_str());
    r.append("},\"name\":");
    r.append(json_string(name).as_str());
    r.append(",\"ok\":false}");
    r
}

/// The answer of a batch. `results`: what its calls came to, as JSON.
pub fn batch_answer(results: &Vec<String>) -> (r: Output)
    ensures
        r@ == told(decimal(results@.len()) + " call(s)"@, "{\"results\":"@ + list_of(text_views(results@)) + "}"@),
{
    out(batch_summary(results.len()), join3("{\"results\":", write_list(results).as_str(), "}"))
}

/// The line of text of a batch.
pub fn batch_summary(results: usize) -> (r: String)
    ensures
        r@ == decimal(results as nat) + " call(s)"@,
{
    join2(decimal_text(results as u64).as_str(), " call(s)")
}

// ------------------------------------------------------------------------------ what holds

/// The surface is opened by a switch together with the environment, and by neither alone.
pub proof fn the_surface_needs_switch_and_environment(args: Seq<String>, env: Option<Seq<char>>)
    ensures
        wanted(args, env) ==> env == Some("1"@) && args.len() > 0,
        wanted(args, env) <==> env == Some("1"@) && exists|i: int|
            0 <= i < args.len() && ((#[trigger] args[i])@ == "--sta-test-hooks"@ || args[i]@ == "--sta-test-hooks-no-approve"@),
{
}

/// The data directory is the first that the switch names with some text, else the one of the environment.
pub proof fn the_switch_names_the_directory(args: Seq<String>, env: Option<Seq<char>>, k: int, dir: Seq<char>)
    requires
        0 <= k < args.len(),
        dir.len() > 0,
        args[k]@ == "--sta-data-dir="@ + dir,
        forall|j: int| 0 <= j < k ==> !"--sta-data-dir="@.is_prefix_of(#[trigger] args[j]@),
    ensures
        chosen_directory(args, env) == Some(dir),
{
    the_first_directory_counts(args, 0, k, dir);
}

proof fn the_first_directory_counts(args: Seq<String>, i: int, k: int, dir: Seq<char>)
    requires
        0 <= i <= k < args.len(),
        dir.len() > 0,
        args[k]@ == "--sta-data-dir="@ + dir,
        forall|j: int| i <= j < k ==> !"--sta-data-dir="@.is_prefix_of(#[trigger] args[j]@),
    ensures
        named_directory(args, i) == Some(dir),
    decreases k - i,
{
    if i < k {
        assert(!"--sta-data-dir="@.is_prefix_of(args[i]@));
        the_first_directory_counts(args, i + 1, k, dir);
    } else {
        let s = args[k]@;
        let head = "--sta-data-dir="@;
        assert(s.take(head.len() as int) =~= head);
        assert(head.is_prefix_of(s));
        assert(s.skip(head.len() as int) =~= dir);
    }
}

/// Without the switch the environment names the directory, where it holds some text.
pub proof fn the_environment_names_the_directory(args: Seq<String>, env: Seq<char>)
    requires
        forall|j: int| 0 <= j < args.len() ==> !"--sta-data-dir="@.is_prefix_of(#[trigger] args[j]@),
    ensures
        env.len() > 0 ==> chosen_directory(args, Some(env)) == Some(env),
        chosen_directory(args, Some(Seq::empty())) is None,
        chosen_directory(args, None) is None,
{
    no_directory_is_named(args, 0);
}

proof fn no_directory_is_named(args: Seq<String>, i: int)
    requires
        0 <= i,
        forall|j: int| i <= j < args.len() ==> !"--sta-data-dir="@.is_prefix_of(#[trigger] args[j]@),
    ensures
        named_directory(args, i) is None,
    decreases args.len() - i,
{
    if i < args.len() {
        assert(!"--sta-data-dir="@.is_prefix_of(args[i]@));
        no_directory_is_named(args, i + 1);
    }
}

/// A path is compared without the backslashes at its end.
pub proof fn slashes_at_the_end_do_not_count(s: Seq<char>)
    ensures
        trim_slashes(s.push('\\')) == trim_slashes(s),
        trim_slashes(s).len() > 0 ==> trim_slashes(s).last() != '\\',
        trim_slashes(s).is_prefix_of(s),
        s.len() > 0 && s.last() != '\\' ==> trim_slashes(s) == s,
    decreases s.len(),
{
    assert(s.push('\\').drop_last() =~= s);
    if s.len() > 0 && s.last() == '\\' {
        slashes_at_the_end_do_not_count(s.drop_last());
        let t = trim_slashes(s);
        assert(s.take(t.len() as int) =~= s.drop_last().take(t.len() as int));
    } else {
        assert(s.take(s.len() as int) =~= s);
    }
}

/// A directory is named below another with one backslash between.
pub proof fn a_directory_lies_below_another(dir: Seq<char>, name: Seq<char>)
    requires
        dir.len() > 0,
        dir.last() != '\\',
        dir.last() != '/',
    ensures
        below(dir, name) == dir.push('\\') + name,
        below(dir.push('\\'), name) == dir.push('\\') + name,
        below(dir.push('/'), name) == dir.push('/') + name,
{
    reveal_strlit("\\");
    assert(below(dir, name) =~= dir.push('\\') + name);
    assert(dir.push('\\').last() == '\\' && dir.push('/').last() == '/');
}

/// A path lies in a profile where it is the profile or goes on behind it with a backslash; a path that only
/// begins alike does not.
pub proof fn a_path_lies_in_what_it_goes_on_from(profile: Seq<char>, rest: Seq<char>, other: char)
    requires
        other != '\\',
    ensures
        inside(profile, profile),
        inside(profile.push('\\') + rest, profile),
        !inside(profile.push(other) + rest, profile),
{
    reveal_strlit("\\");
    let below = profile.push('\\') + rest;
    let head = profile + "\\"@;
    assert(head =~= profile.push('\\'));
    assert(below.take(head.len() as int) =~= head);
    assert(head.is_prefix_of(below));
    let beside = profile.push(other) + rest;
    assert(beside[profile.len() as int] == other);
    if head.is_prefix_of(beside) {
        assert(beside.subrange(0, head.len() as int)[profile.len() as int] == head[profile.len() as int]);
    }
}

/// A directory is refused where none is named, and where it lies in one of the four profiles; else it is not.
pub proof fn a_directory_is_refused_for_a_reason(dir: &Directory, local: &Directory)
    ensures
        refusal(None, Some(local)) == Some("pass --sta-data-dir=<path> (or STA_DATA_DIR)"@),
        refusal(Some(dir), None) is None,
        refusal(Some(dir), Some(local)) is Some <==> in_profile(dir.absolute@, local.absolute@, "sta"@) || in_profile(dir.absolute@, local.absolute@, "sta Dev"@)
            || in_profile(dir.absolute@, local.absolute@, "Astatine"@) || in_profile(dir.absolute@, local.absolute@, "Astatine Dev"@),
        in_profile(dir.absolute@, local.absolute@, "sta"@) ==> refusal(Some(dir), Some(local)) == Some(dir.given@ + " is the real "@ + "sta"@ + " profile"@),
{
    reveal_strlit("pass ");
    reveal_strlit("--sta-data-dir=");
    reveal_strlit("<path> (or ");
    reveal_strlit("STA_DATA_DIR");
    reveal_strlit(")");
    reveal_strlit("pass --sta-data-dir=<path> (or STA_DATA_DIR)");
    assert("pass "@ + DATA_DIR_SWITCH@ + "<path> (or "@ + DATA_DIR_ENV@ + ")"@ =~= "pass --sta-data-dir=<path> (or STA_DATA_DIR)"@);
}

/// What a start comes to: closed it is off, armed it is on, and refused there is no surface at all.
pub proof fn a_start_is_armed_as_it_was_decided(approve: bool, message: String)
    ensures
        armed_as(Arming::Closed) is Some && !armed_as(Arming::Closed)->0.on && !armed_as(Arming::Closed)->0.approve,
        armed_as(Arming::Armed { approve }) is Some && armed_as(Arming::Armed { approve })->0.on && armed_as(Arming::Armed { approve })->0.approve == approve,
        armed_as(Arming::Refused { message }) is None,
{
}

/// An argument is what stands under its name; one of another kind counts as missing.
pub proof fn an_argument_stands_under_its_name(args: Json, key: Seq<char>, default: bool)
    ensures
        args.member(key) is None ==> text_of_arg(args, key) is None && truth_of_arg(args, key, default) == default && list_length(args, key) == 0,
        args.member(key) is Some && args.member(key)->0 is Text ==> text_of_arg(args, key) == Some(args.member(key)->0->Text_0@),
        args.member(key) is Some && !(args.member(key)->0 is Text) ==> text_of_arg(args, key) is None,
        args.member(key) == Some(Json::Bool(true)) ==> truth_of_arg(args, key, default),
        args.member(key) == Some(Json::Bool(false)) ==> !truth_of_arg(args, key, default),
        args.member(key) is Some && !(args.member(key)->0 is Bool) ==> truth_of_arg(args, key, default) == default,
        args.member(key) is Some && args.member(key)->0 is List ==> list_length(args, key) == args.member(key)->0->List_0@.len(),
{
}

/// An answer is waited for as long as was asked for, within a millisecond and two minutes; ten seconds where
/// nothing was asked for.
pub proof fn a_wait_has_its_limits(args: Json)
    ensures
        1 <= timeout(args) <= 120_000,
        args.member("timeoutMs"@) is None ==> timeout(args) == 10_000,
        ({
            let v = args.member("timeoutMs"@);
            &&& v is Some && v->0 is Number && v->0->signed is Some && 1 <= v->0->signed->0 <= 120_000 ==> timeout(args) == v->0->signed->0
            &&& v is Some && v->0 is Number && v->0->signed is Some && v->0->signed->0 < 1 ==> timeout(args) == 1
            &&& v is Some && v->0 is Number && v->0->signed is Some && v->0->signed->0 > 120_000 ==> timeout(args) == 120_000
            &&& v is Some && !(v->0 is Number) ==> timeout(args) == 10_000
        }),
{
}

/// A list of points is a list of pairs of numbers.
pub proof fn points_are_pairs_of_numbers(list: Seq<Json>, i: int)
    requires
        0 <= i <= list.len(),
    ensures
        wrong_point(list, i) is None <==> forall|k: int|
            i <= k < list.len() ==> (#[trigger] list[k]) is List && list[k]->List_0@.len() == 2 && list[k]->List_0@[0] is Number && list[k]->List_0@[1] is Number,
        i < list.len() && !(list[i] is List) ==> wrong_point(list, i) == Some(false),
        i < list.len() && list[i] is List && list[i]->List_0@.len() != 2 ==> wrong_point(list, i) == Some(false),
        i < list.len() && list[i] is List && list[i]->List_0@.len() == 2 && !(list[i]->List_0@[0] is Number) ==> wrong_point(list, i) == Some(true),
    decreases list.len() - i,
{
    if i < list.len() {
        points_are_pairs_of_numbers(list, i + 1);
    }
}

/// What is wrong with an argument that should be a list of points.
pub proof fn a_wrong_list_of_points_is_named(args: Json, key: Seq<char>)
    ensures
        args.member(key) is None ==> points_failure(args, key) == Some(key + " must be an array of [x, y] pairs"@),
        args.member(key) is Some && !(args.member(key)->0 is List) ==> points_failure(args, key) == Some(key + " must be an array of [x, y] pairs"@),
        args.member(key) is Some && args.member(key)->0 is List ==> {
            let list = args.member(key)->0->List_0@;
            &&& points_failure(args, key) is None <==> wrong_point(list, 0) is None
            &&& wrong_point(list, 0) == Some(false) ==> points_failure(args, key) == Some(key + ": every entry is a [x, y] pair"@)
            &&& wrong_point(list, 0) == Some(true) ==> points_failure(args, key) == Some(key + ": every entry is a [x, y] pair of numbers"@)
        },
{
}

/// The names of the tools.
pub proof fn the_names_of_the_tools()
    ensures
        Tool::Info.label() == "test_info"@,
        Tool::State.label() == "test_state"@,
        Tool::Dispatch.label() == "test_dispatch"@,
        Tool::Execute.label() == "test_execute"@,
        Tool::PushState.label() == "test_push_state"@,
        Tool::OpenTab.label() == "test_open_tab"@,
        Tool::Focus.label() == "test_focus"@,
        Tool::Accelerator.label() == "test_accelerator"@,
        Tool::SendKey.label() == "test_send_key"@,
        Tool::ResetPermissions.label() == "test_reset_permissions"@,
        Tool::Counts.label() == "test_counts"@,
        Tool::Eval.label() == "test_eval"@,
        Tool::Invoke.label() == "test_invoke"@,
        Tool::Targets.label() == "test_targets"@,
        Tool::Cdp.label() == "test_cdp"@,
        Tool::CdpEvents.label() == "test_cdp_events"@,
        Tool::Attach.label() == "test_attach"@,
        Tool::RealKeys.label() == "test_real_keys"@,
        Tool::PostMouse.label() == "test_post_mouse"@,
        Tool::HoverInput.label() == "test_hover_input"@,
        Tool::TabKey.label() == "test_tab_key"@,
        Tool::Window.label() == "test_window"@,
        Tool::HitTest.label() == "test_hit_test"@,
        Tool::WindowMessage.label() == "test_window_message"@,
        Tool::Dialog.label() == "test_dialog"@,
        Tool::Capture.label() == "test_capture"@,
        Tool::Pixels.label() == "test_pixels"@,
        Tool::ClipboardGet.label() == "test_clipboard_get"@,
        Tool::ClipboardSet.label() == "test_clipboard_set"@,
        Tool::ZoneIdentifier.label() == "test_zone_identifier"@,
        Tool::ConsoleWindows.label() == "test_console_windows"@,
        Tool::Foreign.label() == "test_foreign"@,
        Tool::ForeignClose.label() == "test_foreign_close"@,
        Tool::ForeignTrigger.label() == "test_foreign_trigger"@,
        Tool::Batch.label() == "test_batch"@,
{
}

/// A tool runs while the surface is on and the browser is not shutting down; in every other case its name is
/// refused.
pub proof fn a_tool_runs_on_an_open_surface(state: Hooks, tool: Tool, name: Seq<char>)
    ensures
        !state.revoked && state.arm.on ==> admitted(state, tool.label()) == Ok::<Tool, Failure>(tool),
        state.revoked ==> admitted(state, name) is Err && admitted(state, name)->Err_0.code is TestHooksOff,
        !state.revoked && !state.arm.on ==> admitted(state, name) is Err && admitted(state, name)->Err_0.code is UnknownTool && admitted(state, name)->Err_0.message
            == "sta has no tool "@ + quoted(name),
        admitted(state, name) is Ok ==> !state.revoked && state.arm.on,
{
    every_tool_is_found(tool);
}

/// A call without arguments gets an empty object.
pub proof fn a_call_always_has_arguments(args: Seq<char>)
    ensures
        json_layer(args) == Some(Layer::Null) ==> given(args) == "{}"@,
        json_layer(args) != Some(Layer::Null) ==> given(args) == args,
{
}

/// Where each tool is carried out: by a request to the shell, with its own name there, or in the test surface
/// itself.
pub proof fn the_routes_of_the_tools()
    ensures
        command_of(Tool::Info) == Some("debug.info"@) && command_of(Tool::Counts) == Some("debug.info"@),
        command_of(Tool::Dispatch) == Some("debug.dispatch"@),
        command_of(Tool::Execute) == Some("debug.execute"@),
        command_of(Tool::PushState) == Some("debug.pushState"@),
        command_of(Tool::OpenTab) == Some("debug.openTab"@),
        command_of(Tool::Focus) == Some("debug.focus"@),
        command_of(Tool::Accelerator) == Some("debug.accelerator"@),
        command_of(Tool::SendKey) == Some("debug.sendKey"@),
        command_of(Tool::ResetPermissions) == Some("debug.resetPermissions"@),
        command_of(Tool::RealKeys) == Some("debug.realKeys"@),
        command_of(Tool::PostMouse) == Some("debug.postMouse"@),
        command_of(Tool::HoverInput) == Some("debug.hoverInput"@),
        command_of(Tool::TabKey) == Some("debug.tabKey"@),
        command_of(Tool::Foreign) == Some("debug.foreign"@),
        command_of(Tool::ForeignClose) == Some("debug.foreign.close"@),
        command_of(Tool::ForeignTrigger) == Some("debug.foreign.trigger"@),
        forall|tool: Tool| tool is Eval || tool is Invoke || tool is Targets || tool is Cdp || tool is CdpEvents || tool is Attach ==> command_of(tool) is None
            && #[trigger] place_of(tool) is Script,
        command_of(Tool::State) is None && place_of(Tool::State) is Store,
        command_of(Tool::Batch) is None && place_of(Tool::Batch) is Batch,
        forall|tool: Tool| tool is Window || tool is HitTest || tool is WindowMessage || tool is Dialog || tool is Capture || tool is Pixels || tool is ClipboardGet
            || tool is ClipboardSet || tool is ZoneIdentifier || tool is ConsoleWindows ==> command_of(tool) is None && #[trigger] place_of(tool) is Native,
{
}

/// What a request carries: the command, the effects, nothing, or the arguments as they are.
pub proof fn a_request_carries_what_its_tool_needs(tool: Tool, args: Seq<char>, text: Seq<char>)
    ensures
        payload_of(Tool::Dispatch) is Command && payload_of(Tool::Execute) is Effects,
        payload_of(Tool::Info) is Null && payload_of(Tool::PushState) is Null && payload_of(Tool::Counts) is Null && payload_of(Tool::Foreign) is Null,
        tool is OpenTab || tool is Focus || tool is Accelerator || tool is SendKey || tool is ResetPermissions || tool is RealKeys || tool is PostMouse
            || tool is HoverInput || tool is TabKey || tool is ForeignClose || tool is ForeignTrigger ==> payload_of(tool) is Args,
        carried(Payload::Null, args) == "null"@,
        carried(Payload::Args, args) == args,
        crate::json::member_spelled(args, "command"@) == Some(text) ==> carried(Payload::Command, args) == text,
        crate::json::member_spelled(args, "effects"@) == Some(text) ==> carried(Payload::Effects, args) == text,
        crate::json::member_spelled(args, "command"@) is None ==> carried(Payload::Command, args) == "null"@,
        crate::json::member_spelled(args, "effects"@) is None ==> carried(Payload::Effects, args) == "null"@,
{
}

/// Real keys and mouse messages have two minutes, hovering half a minute, and every other tool what was asked
/// for.
pub proof fn slow_tools_have_more_time(tool: Tool, args: Json)
    ensures
        wait_of(Tool::RealKeys, args) == 120_000 && wait_of(Tool::PostMouse, args) == 120_000,
        wait_of(Tool::HoverInput, args) == 30_000,
        !(tool is RealKeys) && !(tool is PostMouse) && !(tool is HoverInput) ==> wait_of(tool, args) == timeout(args),
{
}

/// Dispatching needs a command and executing needs effects; nothing else is missed.
pub proof fn two_tools_need_an_argument(tool: Tool, args: Json)
    ensures
        args.member("command"@) is None ==> missing(Tool::Dispatch, args) == Some("command is required"@),
        args.member("command"@) is Some ==> missing(Tool::Dispatch, args) is None,
        args.member("effects"@) is None ==> missing(Tool::Execute, args) == Some("effects is required"@),
        args.member("effects"@) is Some ==> missing(Tool::Execute, args) is None,
        !(tool is Dispatch) && !(tool is Execute) ==> missing(tool, args) is None,
{
}

/// A route is that of its tool: the request with its name, what it carries and its time, or the place.
pub proof fn a_route_is_that_of_its_tool(tool: Tool, args: Json, route: Route)
    requires
        routed(tool, args, route),
    ensures
        route is Request <==> command_of(tool) is Some,
        route is Request ==> route->command@ == command_of(tool)->0 && route->payload == payload_of(tool) && route->timeout_ms == wait_of(tool, args),
        command_of(tool) is None ==> route == place_of(tool),
{
}

/// What an answer holds besides its line of text: nothing for a tool that only acts, and the answer of the
/// request, or what is made of it, for the others.
pub proof fn an_answer_holds_what_its_tool_asked_for(tool: Tool, value: Seq<char>, args: Json, at: u64)
    ensures
        tool is Dispatch || tool is Execute || tool is PushState || tool is Focus || tool is SendKey ==> answered(tool, value, args, at).structured == "null"@,
        tool is OpenTab || tool is Accelerator || tool is RealKeys || tool is PostMouse || tool is HoverInput || tool is TabKey || tool is Foreign
            || tool is ForeignTrigger || tool is State ==> answered(tool, value, args, at).structured == value,
        answered(Tool::ResetPermissions, value, args, at).structured == "{\"reset\":"@ + value + "}"@,
        answered(Tool::ForeignClose, value, args, at).structured == "{\"closed\":"@ + value + "}"@,
        answered(Tool::Counts, value, args, at).structured == counts_spelled(value),
{
}

/// The lines of text of the answers.
pub proof fn an_answer_says_what_was_done(value: Seq<char>, args: Json, at: u64, member: Seq<char>)
    ensures
        answered(Tool::Info, value, args, at).text == "shell snapshot"@,
        answered(Tool::State, value, args, at).text == "UiState"@,
        answered(Tool::Dispatch, value, args, at).text == "dispatched"@,
        answered(Tool::Execute, value, args, at).text == "effects run"@,
        answered(Tool::PushState, value, args, at).text == "state pushed"@,
        answered(Tool::Focus, value, args, at).text == "focused"@,
        answered(Tool::SendKey, value, args, at).text == "key sent to the window"@,
        answered(Tool::Counts, value, args, at).text == "command counters"@,
        answered(Tool::HoverInput, value, args, at).text == "hover snapshot"@,
        answered(Tool::TabKey, value, args, at).text == "key sent to the tab"@,
        answered(Tool::Foreign, value, args, at).text == "foreign snapshot"@,
        answered(Tool::ForeignTrigger, value, args, at).text == "Target.createTarget"@,
        answered(Tool::ResetPermissions, value, args, at).text == value + " content settings reset"@,
        answered(Tool::ForeignClose, value, args, at).text == "closed: "@ + value,
        crate::json::member_spelled(value, "tab"@) == Some(member) ==> answered(Tool::OpenTab, value, args, at).text == "opened tab "@ + member,
        crate::json::member_spelled(value, "commandId"@) == Some(member) ==> answered(Tool::Accelerator, value, args, at).text == "accelerator ran command "@ + member,
        crate::json::member_spelled(value, "sent"@) == Some(member) ==> answered(Tool::RealKeys, value, args, at).text == "sent "@ + member + " key transitions"@,
        crate::json::member_spelled(value, "posted"@) == Some(member) ==> answered(Tool::PostMouse, value, args, at).text == "posted "@ + member + " mouse messages"@,
{
}

/// Every section of the snapshot is kept unless a list names some; then those are, in order.
pub proof fn the_sections_that_are_named_are_kept(args: Json, members: Seq<(Seq<char>, Seq<char>)>, i: int, m: (Seq<char>, Seq<char>))
    requires
        0 <= i <= members.len(),
    ensures
        args.member("sections"@) is None ==> kept_sections(args, members, i) == members.skip(i),
        ({
            let list = args.member("sections"@);
            let named = exists|k: int| 0 <= k < list->0->List_0@.len() && (#[trigger] list->0->List_0@[k]) is Text && list->0->List_0@[k]->Text_0@ == m.0;
            list is Some && list->0 is List ==> (kept_sections(args, members, i).contains(m) <==> named && exists|k: int|
                i <= k < members.len() && #[trigger] members[k] == m)
        }),
    decreases members.len() - i,
{
    if i < members.len() {
        the_sections_that_are_named_are_kept(args, members, i + 1, m);
        let rest = kept_sections(args, members, i + 1);
        let all = kept_sections(args, members, i);
        if section_kept(args, members[i].0) {
            assert(all =~= seq![members[i]] + rest);
            assert(all[0] == members[i]);
            if rest.contains(m) {
                let k = choose|k: int| 0 <= k < rest.len() && rest[k] == m;
                assert(all[k + 1] == m);
            }
            if all.contains(m) {
                let k = choose|k: int| 0 <= k < all.len() && all[k] == m;
                if k > 0 {
                    assert(rest[k - 1] == m);
                }
            }
        }
        if args.member("sections"@) is None {
            assert(seq![members[i]] + members.skip(i + 1) =~= members.skip(i));
        }
    } else {
        assert(members.skip(i) =~= Seq::empty());
    }
}

/// What is no object stays as it is; a snapshot that is one says when it was taken, and that the surface is
/// there.
pub proof fn a_snapshot_says_when_it_was_taken(value: Seq<char>, args: Json, at: u64)
    ensures
        members_of(value) is None ==> snapshot_spelled(value, args, at) == value,
        members_of(value) is Some ==> exists|members: Seq<(Seq<char>, Seq<char>)>|
            snapshot_spelled(value, args, at) == #[trigger] object_of(with_member(members, "testHooks"@, "true"@)) && exists|kept: Seq<(Seq<char>, Seq<char>)>|
                members == #[trigger] with_member(kept, "at"@, decimal(at as nat)),
{
    if members_of(value) is Some {
        let kept = kept_sections(args, members_of(value)->0, 0);
        let members = with_member(kept, "at"@, decimal(at as nat));
        assert(snapshot_spelled(value, args, at) == object_of(with_member(members, "testHooks"@, "true"@)));
        assert(members == with_member(kept, "at"@, decimal(at as nat)));
    }
}

/// The failures of the shell as those of a tool.
pub proof fn failures_keep_their_meaning(code: i32)
    ensures
        code_of(400) is InvalidArguments,
        code_of(404) is NoSuchTarget,
        code_of(409) is WindowBusy,
        code_of(503) is BrowserNotRunning,
        code != 400 && code != 404 && code != 409 && code != 503 ==> code_of(code) is Internal,
{
}

/// A request that fails, is dropped or is not answered in time is a failure that says so; one that is answered is
/// none.
pub proof fn a_request_that_is_not_answered_fails<V>(value: V, code: i32, message: String, command: Seq<char>, timeout_ms: int)
    ensures
        answer_failure(Answer::Value(value), command, timeout_ms) is None,
        answer_failure(Answer::<V>::Failed { code, message }, command, timeout_ms) is Some,
        answer_failure(Answer::<V>::Failed { code, message }, command, timeout_ms)->0.message == message@,
        answer_failure(Answer::<V>::Dropped, command, timeout_ms)->0.code is Internal,
        answer_failure(Answer::<V>::Dropped, command, timeout_ms)->0.message == command + " was dropped without an answer"@,
        answer_failure(Answer::<V>::TimedOut, command, timeout_ms)->0.code is Timeout,
        answer_failure(Answer::<V>::TimedOut, command, timeout_ms)->0.message == command + " did not answer within "@ + signed_decimal(timeout_ms) + " ms"@,
{
}

/// A batch has from one call to as many as are allowed.
pub proof fn a_batch_has_its_limits(args: Json, most: nat)
    ensures
        args.member("calls"@) is None ==> batch_failure(args, most) == Some("calls is required"@),
        args.member("calls"@) is Some && args.member("calls"@)->0 is List ==> (batch_failure(args, most) is None <==> 1
            <= args.member("calls"@)->0->List_0@.len() <= most),
        args.member("calls"@) is Some && !(args.member("calls"@)->0 is List) ==> batch_failure(args, most) == Some("calls is required"@),
{
}

/// A call of a batch runs the tool that it names, unless it names none, a batch or the real keyboard.
pub proof fn a_batch_runs_what_is_named(call: Json, tool: Tool)
    ensures
        text_of_arg(call, "name"@) == Some(tool.label()) && !(tool is Batch) && !(tool is RealKeys) ==> batch_step(call) == Ok::<Tool, Failure>(tool),
        text_of_arg(call, "name"@) is None ==> batch_step(call) is Err && batch_step(call)->Err_0.message == "every call needs a name"@,
        text_of_arg(call, "name"@) == Some("test_batch"@) ==> batch_step(call) is Err && batch_step(call)->Err_0.code is InvalidArguments,
        text_of_arg(call, "name"@) == Some("test_real_keys"@) ==> batch_step(call) is Err && batch_step(call)->Err_0.code is InvalidArguments,
{
    every_tool_is_found(tool);
    every_tool_is_found(Tool::Batch);
    every_tool_is_found(Tool::RealKeys);
}

#[verifier::spinoff_prover]
#[verifier::rlimit(40)]
proof fn a_result_of_a_batch_has_its_members_in_order(v0: Seq<char>, v1: Seq<char>, v2: Seq<char>)
    ensures
        "{\"name\":"@ + v0 + ",\"ok\":"@ + v1 + ",\"structured\":"@ + v2 + "}"@ == "{"@ + joined_by(
            seq![
                "\"name\":"@ + v0,
                "\"ok\":"@ + v1,
                "\"structured\":"@ + v2,
            ],
            ',',
        ) + "}"@,
{
    let p0 = seq!["\"name\":"@ + v0];
    let h0 = "{\"name\":"@ + v0;
    assert(h0 =~= "{"@ + joined_by(p0, ',')) by {
        reveal_strlit("{");
        reveal_strlit("{\"name\":");
        reveal_strlit("\"name\":");
    }
    let p1 = p0.push("\"ok\":"@ + v1);
    let h1 = h0 + ",\"ok\":"@ + v1;
    assert(",\"ok\":"@ =~= seq![','] + "\"ok\":"@) by {
        reveal_strlit(",\"ok\":");
        reveal_strlit("\"ok\":");
    }
    one_more_member_follows(h0, p0, ",\"ok\":"@, "\"ok\":"@, v1);
    let p2 = p1.push("\"structured\":"@ + v2);
    let h2 = h1 + ",\"structured\":"@ + v2;
    assert(",\"structured\":"@ =~= seq![','] + "\"structured\":"@) by {
        reveal_strlit(",\"structured\":");
        reveal_strlit("\"structured\":");
    }
    one_more_member_follows(h1, p1, ",\"structured\":"@, "\"structured\":"@, v2);
    assert(seq!["\"name\":"@ + v0, "\"ok\":"@ + v1, "\"structured\":"@ + v2] =~= p2);
}

/// A call of a batch that worked is told with its name and its answer.
pub proof fn a_result_of_a_batch_has_its_members(name: Seq<char>, structured: Seq<char>)
    ensures
        batch_result_spelled(name, Ok(structured)) == "{"@ + joined_by(
            seq![
                "\"name\":"@ + json_quoted(name),
                "\"ok\":"@ + "true"@,
                "\"structured\":"@ + structured,
            ],
            ',',
        ) + "}"@,
{
    let head = "{\"name\":"@ + json_quoted(name);
    reveal_strlit(",\"ok\":true,\"structured\":");
    reveal_strlit(",\"ok\":");
    reveal_strlit("true");
    reveal_strlit(",\"structured\":");
    assert(",\"ok\":true,\"structured\":"@ =~= ",\"ok\":"@ + "true"@ + ",\"structured\":"@);
    assert(head + ",\"ok\":true,\"structured\":"@ =~= head + ",\"ok\":"@ + "true"@ + ",\"structured\":"@);
    a_result_of_a_batch_has_its_members_in_order(
        json_quoted(name),
        "true"@,
        structured,
    );
}

/// A call of a batch that failed is told with its error and its name.
pub proof fn a_failure_in_a_batch_has_its_members(name: Seq<char>, code: Seq<char>, message: Seq<char>)
    ensures
        batch_result_spelled(name, Err((code, message))) == "{\"error\":{\"code\":"@ + json_quoted(code) + ",\"message\":"@ + json_quoted(message) + "},\"name\":"@
            + json_quoted(name) + ",\"ok\":false}"@,
{
}

#[verifier::spinoff_prover]
#[verifier::rlimit(40)]
proof fn the_counters_have_their_members_in_order(v0: Seq<char>, v1: Seq<char>)
    ensures
        "{\"accelerators\":"@ + v0 + ",\"commandCounts\":"@ + v1 + "}"@ == "{"@ + joined_by(
            seq![
                "\"accelerators\":"@ + v0,
                "\"commandCounts\":"@ + v1,
            ],
            ',',
        ) + "}"@,
{
    let p0 = seq!["\"accelerators\":"@ + v0];
    let h0 = "{\"accelerators\":"@ + v0;
    assert(h0 =~= "{"@ + joined_by(p0, ',')) by {
        reveal_strlit("{");
        reveal_strlit("{\"accelerators\":");
        reveal_strlit("\"accelerators\":");
    }
    let p1 = p0.push("\"commandCounts\":"@ + v1);
    let h1 = h0 + ",\"commandCounts\":"@ + v1;
    assert(",\"commandCounts\":"@ =~= seq![','] + "\"commandCounts\":"@) by {
        reveal_strlit(",\"commandCounts\":");
        reveal_strlit("\"commandCounts\":");
    }
    one_more_member_follows(h0, p0, ",\"commandCounts\":"@, "\"commandCounts\":"@, v1);
    assert(seq!["\"accelerators\":"@ + v0, "\"commandCounts\":"@ + v1] =~= p1);
}

/// The counters are those of the keyboard and of the controller, and `null` where the shell has none.
pub proof fn the_counters_have_their_members(value: Seq<char>, a: Seq<char>, c: Seq<char>)
    requires
        inner_spelled(value, "keyboard"@, "accelerators"@) == Some(a) || (inner_spelled(value, "keyboard"@, "accelerators"@) is None && a == "null"@),
        inner_spelled(value, "controller"@, "commandCounts"@) == Some(c) || (inner_spelled(value, "controller"@, "commandCounts"@) is None && c == "null"@),
    ensures
        counts_spelled(value) == "{"@ + joined_by(
            seq![
                "\"accelerators\":"@ + a,
                "\"commandCounts\":"@ + c,
            ],
            ',',
        ) + "}"@,
{
    the_counters_have_their_members_in_order(
        a,
        c,
    );
}

/// The switches and the variables of the surface.
pub proof fn the_terms_of_the_surface()
    ensures
        SWITCH@ == "--sta-test-hooks"@,
        SWITCH_NO_APPROVE@ == "--sta-test-hooks-no-approve"@,
        ENV@ == "STA_E2E"@,
        DATA_DIR_SWITCH@ == "--sta-data-dir="@,
        DATA_DIR_ENV@ == "STA_DATA_DIR"@,
{
}

} // verus!
