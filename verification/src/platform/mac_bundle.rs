//! The app bundle that the engine needs on macOS.
//!
//! ```text
//! sta.app/Contents/
//!   Info.plist
//!   MacOS/sta                                         the program
//!   Frameworks/Chromium Embedded Framework.framework  a link while developing, a copy for a release
//!   Frameworks/sta Helper.app/Contents/MacOS/sta Helper, and one for each kind of child process
//! ```
//!
//! What a bundle is made of is decided here, as steps; the files are written outside. Paths are texts.
use crate::text::{
    ascii_lower, chars_of, copy_text, has_char, has_prefix, has_suffix, is_white, join2, join3, lower, opt_view, same_text, text_of, trim_start, trim_text, trimmed,
};
use vstd::prelude::*;

verus! {

/// The command-line switch that builds a bundle of its own and ends.
pub const BUNDLE_SWITCH: &'static str = "--sta-bundle-mac";

pub const APP_NAME: &'static str = "sta";

pub const BUNDLE_ID: &'static str = "com.p-asta.sta";

pub const FRAMEWORK: &'static str = "Chromium Embedded Framework.framework";

// ------------------------------------------------------------------------------ paths

/// A path below another.
pub open spec fn joined(dir: Seq<char>, name: Seq<char>) -> Seq<char> {
    if dir.len() == 0 {
        name
    } else if dir.last() == '/' {
        dir + name
    } else {
        dir + "/"@ + name
    }
}

fn join_path(dir: &str, name: &str) -> (r: String)
    ensures
        r@ == joined(dir@, name@),
{
    let cs = chars_of(dir);
    let total: usize = cs.len();
    if total == 0 {
        copy_text(name)
    } else if cs[total - 1] == '/' {
        join2(dir, name)
    } else {
        join3(dir, "/", name)
    }
}

/// A name with the extension of a bundle.
pub open spec fn is_app_name(name: Seq<char>) -> bool {
    ".app"@.is_suffix_of(name) && name.len() > 4
}

/// The first component from position `i` on that is a bundle.
pub open spec fn bundle_at(parts: Seq<String>, i: int) -> Option<int>
    decreases parts.len() - i,
{
    if i < 0 || i >= parts.len() {
        None
    } else if is_app_name(parts[i]@) {
        Some(i)
    } else {
        bundle_at(parts, i + 1)
    }
}

fn app_name(name: &str) -> (r: bool)
    ensures
        r == is_app_name(name@),
{
    let total: usize = chars_of(name).len();
    has_suffix(name, ".app") && total > 4
}

/// The bundle that the program runs from: how many of the components of its path lead to it. A helper
/// lies in a bundle that lies in the main one; the outermost counts.
pub fn main_bundle(parts: &Vec<String>) -> (r: Option<usize>)
    ensures
        match r {
            Some(n) => bundle_at(parts@, 0) == Some(n - 1) && 0 < n <= parts@.len(),
            None => bundle_at(parts@, 0) is None,
        },
{
    let mut i: usize = 0;
    while i < parts.len()
        invariant
            i <= parts@.len(),
            bundle_at(parts@, i as int) == bundle_at(parts@, 0),
        decreases parts@.len() - i,
    {
        if app_name(parts[i].as_str()) {
            return Some(i + 1);
        }
        i = i + 1;
    }
    None
}

/// No component before the one that is found is a bundle.
pub proof fn the_outermost_bundle_counts(parts: Seq<String>, i: int, k: int)
    requires
        0 <= i <= k,
        bundle_at(parts, i) is Some,
        k < bundle_at(parts, i)->0,
    ensures
        bundle_at(parts, i)->0 < parts.len(),
        is_app_name(parts[bundle_at(parts, i)->0]@),
        !is_app_name(parts[k]@),
    decreases parts.len() - i,
{
    if i < parts.len() && !is_app_name(parts[i]@) {
        if i < k {
            the_outermost_bundle_counts(parts, i + 1, k);
        } else {
            bundle_found(parts, i + 1);
        }
    }
}

proof fn bundle_found(parts: Seq<String>, i: int)
    requires
        0 <= i,
    ensures
        match bundle_at(parts, i) {
            Some(n) => i <= n < parts.len() && is_app_name(parts[n]@),
            None => true,
        },
    decreases parts.len() - i,
{
    if i < parts.len() && !is_app_name(parts[i]@) {
        bundle_found(parts, i + 1);
    }
}

/// Where the framework of a bundle is.
pub open spec fn framework_in(bundle: Seq<char>) -> Seq<char> {
    joined(joined(bundle, "Contents/Frameworks"@), FRAMEWORK@)
}

/// Where the helper of a bundle is.
pub open spec fn helper_in(bundle: Seq<char>) -> Seq<char> {
    joined(bundle, "Contents/Frameworks/sta Helper.app/Contents/MacOS/sta Helper"@)
}

/// Where the framework of a bundle is looked for.
pub fn framework_path(bundle: &str) -> (r: String)
    ensures
        r@ == framework_in(bundle@),
{
    join_path(join_path(bundle, "Contents/Frameworks").as_str(), FRAMEWORK)
}

/// Where the helper of a bundle is looked for.
pub fn helper_path(bundle: &str) -> (r: String)
    ensures
        r@ == helper_in(bundle@),
{
    join_path(bundle, "Contents/Frameworks/sta Helper.app/Contents/MacOS/sta Helper")
}

/// The framework: `exists` says that it is where it is looked for, `resolved` where a link there leads.
pub fn framework_dir(bundle: Option<&str>, exists: bool, resolved: Option<&str>) -> (r: Option<String>)
    ensures
        match r {
            Some(dir) => bundle is Some && exists && dir@ == (match resolved {
                Some(path) => path@,
                None => framework_in(bundle->0@),
            }),
            None => bundle is None || !exists,
        },
{
    match bundle {
        Some(b) => {
            if !exists {
                return None;
            }
            match resolved {
                Some(path) => Some(copy_text(path)),
                None => Some(framework_path(b)),
            }
        },
        None => None,
    }
}

/// The program that every child process is started from.
pub fn helper_exe(bundle: Option<&str>, exists: bool) -> (r: Option<String>)
    ensures
        match r {
            Some(path) => bundle is Some && exists && path@ == helper_in(bundle->0@),
            None => bundle is None || !exists,
        },
{
    match bundle {
        Some(b) => if exists { Some(helper_path(b)) } else { None },
        None => None,
    }
}

/// The binary in the framework.
pub open spec fn framework_binary(dir: Seq<char>) -> Seq<char> {
    joined(dir, "Chromium Embedded Framework"@)
}

/// What is loaded: the binary of the framework, whose path must have no zero in it.
pub fn library_path(dir: Option<&str>) -> (r: Result<String, String>)
    ensures
        match r {
            Ok(path) => dir is Some && path@ == framework_binary(dir->0@) && !path@.contains('\0'),
            Err(why) => if dir is None {
                why@ == "the CEF framework is missing from Contents/Frameworks"@
            } else {
                framework_binary(dir->0@).contains('\0') && why@ == "the framework path is not a C string"@
            },
        },
{
    match dir {
        None => Err(copy_text("the CEF framework is missing from Contents/Frameworks")),
        Some(d) => {
            let path = join_path(d, "Chromium Embedded Framework");
            if has_char(path.as_str(), '\0') {
                return Err(copy_text("the framework path is not a C string"));
            }
            Ok(path)
        },
    }
}

/// What loading it came to: 1 says that it worked.
pub fn load_framework(path: &str, loaded: i32) -> (r: Result<(), String>)
    ensures
        match r {
            Ok(_) => loaded == 1,
            Err(why) => loaded != 1 && why@ == "cannot load "@ + path@,
        },
{
    if loaded != 1 {
        return Err(join2("cannot load ", path));
    }
    Ok(())
}

// ------------------------------------------------------------------------------ starting

/// An argument asks for a bundle: the switch alone, or with a directory behind `=`.
pub open spec fn asks_for_bundle(arg: Seq<char>) -> bool {
    arg == BUNDLE_SWITCH@ || (BUNDLE_SWITCH@ + "="@).is_prefix_of(arg)
}

/// The directory behind the switch.
pub open spec fn switch_dir(arg: Seq<char>) -> Option<Seq<char>> {
    if arg == BUNDLE_SWITCH@ { None } else { Some(arg.skip((BUNDLE_SWITCH@.len() + 1) as int)) }
}

/// The first argument from position `i` on that asks for a bundle.
pub open spec fn bundle_request(args: Seq<String>, i: int) -> Option<Seq<char>>
    decreases args.len() - i,
{
    if i < 0 || i >= args.len() {
        None
    } else if asks_for_bundle(args[i]@) {
        Some(args[i]@)
    } else {
        bundle_request(args, i + 1)
    }
}

/// How the program goes on.
pub enum Start {
    /// Build a bundle in this directory, or beside the program, and end.
    BuildBundle { into: Option<String> },
    /// It runs from a bundle.
    Run,
    /// It does not, and says so.
    Refuse { message: String },
    /// It does not, and is run again from a bundle that is built around it.
    Relaunch,
}

/// What is said where there is no bundle.
pub open spec fn refusal(exe: Seq<char>) -> Seq<char> {
    "[sta] "@ + exe
        + " is not inside an app bundle.\n      macOS needs sta.app (the CEF framework and the helper processes live in it).\n      Build one with: "@
        + exe + " "@ + BUNDLE_SWITCH@
}

/// A directory that may be missing is the one that may be missing.
pub open spec fn same_dir(into: Option<String>, dir: Option<Seq<char>>) -> bool {
    match into {
        Some(d) => dir == Some(d@),
        None => dir is None,
    }
}

/// How the program goes on. `bundled`: it runs from a bundle; `debug`: it was built for developing;
/// `relaunched`: it was run again already.
pub fn ensure_bundled(args: &Vec<String>, bundled: bool, debug: bool, relaunched: bool, exe: &str) -> (r: Start)
    ensures
        match bundle_request(args@, 0) {
            Some(arg) => match r {
                Start::BuildBundle { into } => same_dir(into, switch_dir(arg)),
                _ => false,
            },
            None => if bundled {
                r is Run
            } else if !debug || relaunched {
                match r {
                    Start::Refuse { message } => message@ == refusal(exe@),
                    _ => false,
                }
            } else {
                r is Relaunch
            },
        },
{
    let total: usize = args.len();
    let mut i: usize = 0;
    while i < total
        invariant
            i <= total,
            total == args@.len(),
            bundle_request(args@, i as int) == bundle_request(args@, 0),
        decreases total - i,
    {
        let arg: &str = args[i].as_str();
        if same_text(arg, BUNDLE_SWITCH) {
            return Start::BuildBundle { into: None };
        }
        let with = join2(BUNDLE_SWITCH, "=");
        if has_prefix(arg, with.as_str()) {
            let cs = chars_of(arg);
            let from: usize = chars_of(with.as_str()).len();
            let dir = text_of(cs.as_slice(), from, cs.len());
            proof {
                reveal_strlit("=");
                assert(dir@ =~= args@[i as int]@.skip((BUNDLE_SWITCH@.len() + 1) as int));
            }
            return Start::BuildBundle { into: Some(dir) };
        }
        i = i + 1;
    }
    if bundled {
        return Start::Run;
    }
    if !debug || relaunched {
        let mut message = join2("[sta] ", exe);
        message.append(
            " is not inside an app bundle.\n      macOS needs sta.app (the CEF framework and the helper processes live in it).\n      Build one with: ",
        );
        message.append(exe);
        message.append(" ");
        message.append(BUNDLE_SWITCH);
        return Start::Refuse { message };
    }
    Start::Relaunch
}

/// Where a bundle of its own is built: the directory that was named, else beside the program.
pub fn bundle_target(into: Option<&str>, beside: Option<&str>) -> (r: String)
    ensures
        r@ == (match into {
            Some(d) => d@,
            None => match beside {
                Some(d) => d@,
                None => Seq::empty(),
            },
        }),
{
    match into {
        Some(d) => copy_text(d),
        None => match beside {
            Some(d) => copy_text(d),
            None => String::new(),
        },
    }
}

// ------------------------------------------------------------------------------ what is written

/// What an `Info.plist` begins with, up to the name that is shown.
pub const PLIST_HEAD: &'static str =
    "<?xml version=\"1.0\" encoding=\"UTF-8\"?>\n<!DOCTYPE plist PUBLIC \"-//Apple//DTD PLIST 1.0//EN\" \"http://www.apple.com/DTDs/PropertyList-1.0.dtd\">\n<plist version=\"1.0\">\n<dict>\n\t<key>CFBundleDevelopmentRegion</key>\n\t<string>en</string>\n\t<key>CFBundleDisplayName</key>\n\t<string>";

/// Before the name of the program.
pub const PLIST_EXECUTABLE: &'static str = "</string>\n\t<key>CFBundleExecutable</key>\n\t<string>";

/// Before the identifier.
pub const PLIST_IDENTIFIER: &'static str = "</string>\n\t<key>CFBundleIdentifier</key>\n\t<string>";

/// Before the name of the bundle.
pub const PLIST_NAME: &'static str =
    "</string>\n\t<key>CFBundleInfoDictionaryVersion</key>\n\t<string>6.0</string>\n\t<key>CFBundleName</key>\n\t<string>";

/// Before the short version.
pub const PLIST_SHORT_VERSION: &'static str =
    "</string>\n\t<key>CFBundlePackageType</key>\n\t<string>APPL</string>\n\t<key>CFBundleShortVersionString</key>\n\t<string>";

/// Before the version.
pub const PLIST_VERSION: &'static str = "</string>\n\t<key>CFBundleVersion</key>\n\t<string>";

/// What the system is asked for.
pub const PLIST_SYSTEM: &'static str =
    "</string>\n\t<key>LSEnvironment</key>\n\t<dict>\n\t\t<key>MallocNanoZone</key>\n\t\t<string>0</string>\n\t</dict>\n\t<key>LSMinimumSystemVersion</key>\n\t<string>11.0</string>\n";

/// Keeps a program out of the Dock and the app switcher.
pub const PLIST_UI_ELEMENT: &'static str = "\t<key>LSUIElement</key>\n\t<string>1</string>\n";

/// What the program can do with the screen.
pub const PLIST_GRAPHICS: &'static str =
    "\t<key>NSHighResolutionCapable</key>\n\t<true/>\n\t<key>NSSupportsAutomaticGraphicsSwitching</key>\n\t<true/>\n";

/// What an `Info.plist` ends with.
pub const PLIST_TAIL: &'static str = "</dict>\n</plist>\n";

/// What a page may ask for, and why: without it the system ends a program that asks.
pub open spec fn usage(key: Seq<char>) -> Seq<char> {
    "\t<key>"@ + key + "</key>\n\t<string>A site you are visiting in sta asked for this.</string>\n"@
}

/// Everything that a page may ask for.
pub open spec fn usages() -> Seq<char> {
    usage("NSCameraUsageDescription"@) + usage("NSMicrophoneUsageDescription"@) + usage("NSBluetoothAlwaysUsageDescription"@) + usage(
        "NSLocationWhenInUseUsageDescription"@,
    )
}

/// The part of an `Info.plist` that names the program.
pub open spec fn plist_names(executable: Seq<char>, identifier: Seq<char>, version: Seq<char>) -> Seq<char> {
    PLIST_HEAD@ + executable + PLIST_EXECUTABLE@ + executable + PLIST_IDENTIFIER@ + identifier + PLIST_NAME@ + executable
        + PLIST_SHORT_VERSION@ + version + PLIST_VERSION@ + version + PLIST_SYSTEM@
}

/// The `Info.plist` of the app, or of a helper: a helper stays out of the Dock and asks for nothing.
pub open spec fn plist(executable: Seq<char>, identifier: Seq<char>, helper: bool, version: Seq<char>) -> Seq<char> {
    plist_names(executable, identifier, version) + (if helper { PLIST_UI_ELEMENT@ } else { Seq::empty() }) + PLIST_GRAPHICS@ + (if helper {
        Seq::empty()
    } else {
        usages()
    }) + PLIST_TAIL@
}

/// A text has this one in it, from position `at` on.
pub open spec fn has_at(text: Seq<char>, part: Seq<char>, at: int) -> bool {
    0 <= at && at + part.len() <= text.len() && text.subrange(at, at + part.len()) == part
}

/// A text has this one in it.
pub open spec fn has_text(text: Seq<char>, part: Seq<char>) -> bool {
    exists|at: int| has_at(text, part, at)
}

/// An `Info.plist` names its executable; a helper's keeps it out of the Dock and says nothing of what a page
/// may ask for, the app's says all of that. Apart from these lines the two are alike.
pub proof fn a_plist_names_its_executable(executable: Seq<char>, identifier: Seq<char>, version: Seq<char>)
    ensures
        forall|helper: bool|
            has_text(#[trigger] plist(executable, identifier, helper, version), PLIST_EXECUTABLE@ + executable + PLIST_IDENTIFIER@ + identifier),
        has_text(plist(executable, identifier, true, version), PLIST_UI_ELEMENT@),
        has_text(plist(executable, identifier, false, version), usages()),
        plist(executable, identifier, true, version) == plist_names(executable, identifier, version) + PLIST_UI_ELEMENT@ + PLIST_GRAPHICS@
            + PLIST_TAIL@,
        plist(executable, identifier, false, version) == plist_names(executable, identifier, version) + PLIST_GRAPHICS@ + usages() + PLIST_TAIL@,
{
    let names = plist_names(executable, identifier, version);
    let part = PLIST_EXECUTABLE@ + executable + PLIST_IDENTIFIER@ + identifier;
    let at = (PLIST_HEAD@ + executable).len() as int;
    assert forall|helper: bool| has_text(#[trigger] plist(executable, identifier, helper, version), part) by {
        let text = plist(executable, identifier, helper, version);
        assert(text.subrange(at, at + part.len()) =~= part);
        assert(has_at(text, part, at));
    }
    let helper = plist(executable, identifier, true, version);
    assert(helper =~= names + PLIST_UI_ELEMENT@ + PLIST_GRAPHICS@ + PLIST_TAIL@);
    assert(helper.subrange(names.len() as int, (names + PLIST_UI_ELEMENT@).len() as int) =~= PLIST_UI_ELEMENT@);
    assert(has_at(helper, PLIST_UI_ELEMENT@, names.len() as int));
    let app = plist(executable, identifier, false, version);
    assert(app =~= names + PLIST_GRAPHICS@ + usages() + PLIST_TAIL@);
    let from = (names + PLIST_GRAPHICS@).len() as int;
    assert(app.subrange(from, from + usages().len()) =~= usages());
    assert(has_at(app, usages(), from));
}

fn push_usage(out: &mut String, key: &str)
    ensures
        final(out)@ == old(out)@ + usage(key@),
{
    let ghost before = out@;
    out.append("\t<key>");
    out.append(key);
    out.append("</key>\n\t<string>A site you are visiting in sta asked for this.</string>\n");
    proof {
        assert(out@ =~= before + usage(key@));
    }
}

/// The `Info.plist` of the app, or of a helper.
pub fn app_plist(executable: &str, identifier: &str, helper: bool, version: &str) -> (r: String)
    ensures
        r@ == plist(executable@, identifier@, helper, version@),
{
    let mut out = copy_text(PLIST_HEAD);
    out.append(executable);
    out.append(PLIST_EXECUTABLE);
    out.append(executable);
    out.append(PLIST_IDENTIFIER);
    out.append(identifier);
    out.append(PLIST_NAME);
    out.append(executable);
    out.append(PLIST_SHORT_VERSION);
    out.append(version);
    out.append(PLIST_VERSION);
    out.append(version);
    out.append(PLIST_SYSTEM);
    let ghost system = out@;
    proof {
        assert(system =~= plist_names(executable@, identifier@, version@));
    }
    if helper {
        out.append(PLIST_UI_ELEMENT);
    }
    proof {
        assert(out@ =~= system + (if helper { PLIST_UI_ELEMENT@ } else { Seq::empty() }));
    }
    out.append(PLIST_GRAPHICS);
    let ghost graphics = out@;
    if !helper {
        push_usage(&mut out, "NSCameraUsageDescription");
        push_usage(&mut out, "NSMicrophoneUsageDescription");
        push_usage(&mut out, "NSBluetoothAlwaysUsageDescription");
        push_usage(&mut out, "NSLocationWhenInUseUsageDescription");
    }
    proof {
        assert(out@ =~= graphics + (if helper { Seq::empty() } else { usages() }));
    }
    out.append(PLIST_TAIL);
    out
}

// ------------------------------------------------------------------------------ building

/// The kinds of helpers; the last one is what the engine is pointed at.
pub open spec fn suffix(i: int) -> Seq<char> {
    if i == 0 {
        " (GPU)"@
    } else if i == 1 {
        " (Renderer)"@
    } else if i == 2 {
        " (Plugin)"@
    } else if i == 3 {
        " (Alerts)"@
    } else {
        ""@
    }
}

/// The helpers that there are.
pub const HELPERS: usize = 5;

/// The end of a helper's name.
pub fn helper_suffix(i: usize) -> (r: &'static str)
    ensures
        r@ == suffix(i as int),
{
    if i == 0 {
        " (GPU)"
    } else if i == 1 {
        " (Renderer)"
    } else if i == 2 {
        " (Plugin)"
    } else if i == 3 {
        " (Alerts)"
    } else {
        ""
    }
}

pub open spec fn is_bracket(c: char) -> bool {
    c == '(' || c == ')'
}

/// A text without the brackets at its start.
pub open spec fn unbracketed_start(s: Seq<char>) -> Seq<char>
    decreases s.len(),
{
    if s.len() > 0 && is_bracket(s[0]) { unbracketed_start(s.skip(1)) } else { s }
}

/// A text without the brackets at its end.
pub open spec fn unbracketed_end(s: Seq<char>) -> Seq<char>
    decreases s.len(),
{
    if s.len() > 0 && is_bracket(s.last()) { unbracketed_end(s.drop_last()) } else { s }
}

/// The name of a helper.
pub open spec fn helper_name(suffix: Seq<char>) -> Seq<char> {
    APP_NAME@ + " Helper"@ + suffix
}

/// The identifier of a helper: its kind without brackets, in lower case.
pub open spec fn helper_id(suffix: Seq<char>) -> Seq<char> {
    BUNDLE_ID@ + ".helper"@ + lower(unbracketed_end(unbracketed_start(trimmed(suffix))))
}

fn trim_brackets(s: &str) -> (r: String)
    ensures
        r@ == unbracketed_end(unbracketed_start(s@)),
{
    let cs = chars_of(s);
    let mut from: usize = 0;
    proof {
        assert(cs@.skip(0) =~= cs@);
    }
    while from < cs.len() && (cs[from] == '(' || cs[from] == ')')
        invariant
            from <= cs@.len(),
            unbracketed_start(cs@.skip(from as int)) == unbracketed_start(cs@),
        decreases cs@.len() - from,
    {
        proof {
            assert(cs@.skip(from as int)[0] == cs@[from as int]);
            assert(cs@.skip(from as int).skip(1) =~= cs@.skip(from + 1));
        }
        from = from + 1;
    }
    let mut to: usize = cs.len();
    proof {
        if from < cs@.len() {
            assert(cs@.skip(from as int)[0] == cs@[from as int]);
        }
        assert(unbracketed_start(cs@) == cs@.skip(from as int));
        assert(cs@.subrange(from as int, to as int) =~= cs@.skip(from as int));
    }
    while to > from && (cs[to - 1] == '(' || cs[to - 1] == ')')
        invariant
            from <= to <= cs@.len(),
            unbracketed_end(cs@.subrange(from as int, to as int)) == unbracketed_end(cs@.skip(from as int)),
        decreases to,
    {
        proof {
            let part = cs@.subrange(from as int, to as int);
            assert(part.last() == cs@[to - 1]);
            assert(part.drop_last() =~= cs@.subrange(from as int, to - 1));
        }
        to = to - 1;
    }
    proof {
        let part = cs@.subrange(from as int, to as int);
        if part.len() > 0 {
            assert(part.last() == cs@[to - 1]);
        }
    }
    text_of(cs.as_slice(), from, to)
}

/// The identifier of a helper.
pub fn helper_identifier(suffix: &str) -> (r: String)
    ensures
        r@ == helper_id(suffix@),
{
    let kind = ascii_lower(trim_brackets(trim_text(suffix).as_str()).as_str());
    join3(BUNDLE_ID, ".helper", kind.as_str())
}

/// What is done to the files of a bundle.
pub enum Step {
    CreateDir { path: String },
    /// Written unless it has that text already.
    Write { path: String, text: String },
    /// Copied where [`copy_due`] says so; the helpers are linked again where the program was.
    CopyProgram { from: String, to: String },
    CopyHelper { from: String, to: String },
    /// Linked where [`link_due`] says so, or copied where that fails.
    LinkHelper { from: String, to: String },
    /// As [`install_framework`] says.
    InstallFramework { target: String, copy: bool },
}

/// What is done to the files of a bundle, as mathematics.
pub enum StepModel {
    CreateDir { path: Seq<char> },
    Write { path: Seq<char>, text: Seq<char> },
    CopyProgram { from: Seq<char>, to: Seq<char> },
    CopyHelper { from: Seq<char>, to: Seq<char> },
    LinkHelper { from: Seq<char>, to: Seq<char> },
    InstallFramework { target: Seq<char>, copy: bool },
}

impl View for Step {
    type V = StepModel;

    open spec fn view(&self) -> StepModel {
        match self {
            Step::CreateDir { path } => StepModel::CreateDir { path: path@ },
            Step::Write { path, text } => StepModel::Write { path: path@, text: text@ },
            Step::CopyProgram { from, to } => StepModel::CopyProgram { from: from@, to: to@ },
            Step::CopyHelper { from, to } => StepModel::CopyHelper { from: from@, to: to@ },
            Step::LinkHelper { from, to } => StepModel::LinkHelper { from: from@, to: to@ },
            Step::InstallFramework { target, copy } => StepModel::InstallFramework { target: target@, copy: *copy },
        }
    }
}

/// Every step by its view.
pub open spec fn step_views(s: Seq<Step>) -> Seq<StepModel> {
    s.map_values(|e: Step| e@)
}

/// The bundle in a directory.
pub open spec fn bundle_in(into: Seq<char>) -> Seq<char> {
    joined(into, "sta.app"@)
}

pub open spec fn contents_of(into: Seq<char>) -> Seq<char> {
    joined(bundle_in(into), "Contents"@)
}

pub open spec fn frameworks_of(into: Seq<char>) -> Seq<char> {
    joined(contents_of(into), "Frameworks"@)
}

/// The program in the bundle.
pub open spec fn program_of(into: Seq<char>) -> Seq<char> {
    joined(joined(contents_of(into), "MacOS"@), APP_NAME@)
}

/// The steps for the app itself.
pub open spec fn app_steps(exe: Seq<char>, into: Seq<char>, version: Seq<char>) -> Seq<StepModel> {
    seq![
        StepModel::CreateDir { path: joined(contents_of(into), "MacOS"@) },
        StepModel::CreateDir { path: joined(contents_of(into), "Resources"@) },
        StepModel::CreateDir { path: frameworks_of(into) },
        StepModel::Write { path: joined(contents_of(into), "Info.plist"@), text: plist(APP_NAME@, BUNDLE_ID@, false, version) },
        StepModel::CopyProgram { from: exe, to: program_of(into) },
    ]
}

/// The steps for one helper: one that stands alone has a copy of the program, else it has a link to it.
pub open spec fn helper_steps(into: Seq<char>, standalone: bool, version: Seq<char>, suffix: Seq<char>) -> Seq<StepModel> {
    let name = helper_name(suffix);
    let contents = joined(frameworks_of(into), name + ".app/Contents"@);
    let exe = joined(joined(contents, "MacOS"@), name);
    seq![
        StepModel::CreateDir { path: joined(contents, "MacOS"@) },
        StepModel::Write { path: joined(contents, "Info.plist"@), text: plist(name, helper_id(suffix), true, version) },
        if standalone {
            StepModel::CopyHelper { from: program_of(into), to: exe }
        } else {
            StepModel::LinkHelper { from: program_of(into), to: exe }
        },
    ]
}

/// The steps for the helpers from position `i` on.
pub open spec fn all_helper_steps(into: Seq<char>, standalone: bool, version: Seq<char>, i: int) -> Seq<StepModel>
    decreases HELPERS - i,
{
    if i < 0 || i >= HELPERS {
        Seq::empty()
    } else {
        helper_steps(into, standalone, version, suffix(i)) + all_helper_steps(into, standalone, version, i + 1)
    }
}

/// Everything that is done to the files of a bundle.
pub open spec fn bundle_steps(exe: Seq<char>, into: Seq<char>, standalone: bool, version: Seq<char>) -> Seq<StepModel> {
    app_steps(exe, into, version) + all_helper_steps(into, standalone, version, 0) + seq![
        StepModel::InstallFramework { target: joined(frameworks_of(into), FRAMEWORK@), copy: standalone },
    ]
}

fn push_helper(steps: &mut Vec<Step>, frameworks: &str, program: &str, standalone: bool, version: &str, suffix: &str, Ghost(into): Ghost<Seq<char>>)
    requires
        frameworks@ == frameworks_of(into),
        program@ == program_of(into),
    ensures
        step_views(final(steps)@) == step_views(old(steps)@) + helper_steps(into, standalone, version@, suffix@),
{
    let ghost before = steps@;
    let name = join3(APP_NAME, " Helper", suffix);
    let id = helper_identifier(suffix);
    let contents = join_path(frameworks, join2(name.as_str(), ".app/Contents").as_str());
    let macos = join_path(contents.as_str(), "MacOS");
    let exe = join_path(macos.as_str(), name.as_str());
    let text = app_plist(name.as_str(), id.as_str(), true, version);
    steps.push(Step::CreateDir { path: macos });
    steps.push(Step::Write { path: join_path(contents.as_str(), "Info.plist"), text });
    if standalone {
        steps.push(Step::CopyHelper { from: copy_text(program), to: exe });
    } else {
        steps.push(Step::LinkHelper { from: copy_text(program), to: exe });
    }
    proof {
        assert(step_views(steps@) =~= step_views(before) + helper_steps(into, standalone, version@, suffix@));
    }
}

/// The bundle `sta.app` in a directory, around a program, and what is done to make it or to bring it up
/// to date. A bundle that stands alone can be moved anywhere and signed.
pub fn build(exe: &str, into: &str, standalone: bool, version: &str) -> (r: (String, Vec<Step>))
    ensures
        r.0@ == bundle_in(into@),
        step_views(r.1@) == bundle_steps(exe@, into@, standalone, version@),
{
    let app = join_path(into, "sta.app");
    let contents = join_path(app.as_str(), "Contents");
    let frameworks = join_path(contents.as_str(), "Frameworks");
    let macos = join_path(contents.as_str(), "MacOS");
    let program = join_path(macos.as_str(), APP_NAME);
    let mut steps: Vec<Step> = Vec::new();
    steps.push(Step::CreateDir { path: macos });
    steps.push(Step::CreateDir { path: join_path(contents.as_str(), "Resources") });
    steps.push(Step::CreateDir { path: copy_text(frameworks.as_str()) });
    steps.push(Step::Write { path: join_path(contents.as_str(), "Info.plist"), text: app_plist(APP_NAME, BUNDLE_ID, false, version) });
    steps.push(Step::CopyProgram { from: copy_text(exe), to: copy_text(program.as_str()) });
    let ghost head = app_steps(exe@, into@, version@);
    let ghost whole = all_helper_steps(into@, standalone, version@, 0);
    proof {
        assert(step_views(steps@) =~= head);
    }
    let mut i: usize = 0;
    while i < HELPERS
        invariant
            i <= HELPERS,
            frameworks@ == frameworks_of(into@),
            program@ == program_of(into@),
            head + whole == step_views(steps@) + all_helper_steps(into@, standalone, version@, i as int),
        decreases HELPERS - i,
    {
        let ghost before = step_views(steps@);
        push_helper(&mut steps, frameworks.as_str(), program.as_str(), standalone, version, helper_suffix(i), Ghost(into@));
        proof {
            let one = helper_steps(into@, standalone, version@, suffix(i as int));
            let rest = all_helper_steps(into@, standalone, version@, i + 1);
            assert(before + (one + rest) =~= step_views(steps@) + rest);
        }
        i = i + 1;
    }
    let ghost before = step_views(steps@);
    let target = join_path(frameworks.as_str(), FRAMEWORK);
    steps.push(Step::InstallFramework { target, copy: standalone });
    proof {
        assert(before + Seq::<StepModel>::empty() =~= before);
        assert(step_views(steps@) =~= bundle_steps(exe@, into@, standalone, version@));
    }
    (app, steps)
}

/// A bundle has the program and every helper: the steps come in this order, three for each helper, the
/// last of which puts the program where the helper is started from.
pub proof fn a_bundle_has_every_helper(exe: Seq<char>, into: Seq<char>, standalone: bool, version: Seq<char>, i: int)
    requires
        0 <= i < HELPERS,
    ensures
        ({
            let steps = bundle_steps(exe, into, standalone, version);
            &&& steps.len() == 21
            &&& steps[4] == (StepModel::CopyProgram { from: exe, to: program_of(into) })
            &&& steps.subrange(5 + 3 * i, 8 + 3 * i) == helper_steps(into, standalone, version, suffix(i))
            &&& steps[20] == (StepModel::InstallFramework { target: joined(frameworks_of(into), FRAMEWORK@), copy: standalone })
        }),
{
    helpers_in_order(into, standalone, version, 0, i);
    let helpers = all_helper_steps(into, standalone, version, 0);
    let steps = bundle_steps(exe, into, standalone, version);
    assert(steps.subrange(5 + 3 * i, 8 + 3 * i) =~= helpers.subrange(3 * i, 3 * i + 3));
}

proof fn helpers_in_order(into: Seq<char>, standalone: bool, version: Seq<char>, from: int, i: int)
    requires
        0 <= from <= i < HELPERS,
    ensures
        all_helper_steps(into, standalone, version, from).len() == 3 * (HELPERS - from),
        all_helper_steps(into, standalone, version, from).subrange(3 * (i - from), 3 * (i - from) + 3) == helper_steps(
            into,
            standalone,
            version,
            suffix(i),
        ),
    decreases HELPERS - from,
{
    let all = all_helper_steps(into, standalone, version, from);
    let one = helper_steps(into, standalone, version, suffix(from));
    let rest = all_helper_steps(into, standalone, version, from + 1);
    assert(all =~= one + rest);
    if from + 1 < HELPERS {
        helpers_in_order(into, standalone, version, from + 1, if i > from { i } else { from + 1 });
    } else {
        assert(rest =~= Seq::<StepModel>::empty());
    }
    if i == from {
        assert(all.subrange(0, 3) =~= one);
    } else {
        assert(all.subrange(3 * (i - from), 3 * (i - from) + 3) =~= rest.subrange(3 * (i - from - 1), 3 * (i - from - 1) + 3));
    }
}

/// A helper's link is made again: where the program was replaced, or where the link is missing.
pub fn link_due(refreshed: bool, exists: bool) -> (r: bool)
    ensures
        r == (refreshed || !exists),
{
    refreshed || !exists
}

/// A file, as far as copies are compared: its size, and when it was written where that is known.
#[derive(Debug, Clone, Copy, PartialEq, Eq, Structural)]
pub struct Stamp {
    pub size: u64,
    pub modified: Option<i128>,
}

/// A file is copied: where the copy is missing, or differs in size or time.
pub fn copy_due(source: Stamp, target: Option<Stamp>) -> (r: bool)
    ensures
        r == (target != Some(source)),
{
    match target {
        Some(t) => !(t.size == source.size && same_time(t.modified, source.modified)),
        None => true,
    }
}

fn same_time(a: Option<i128>, b: Option<i128>) -> (r: bool)
    ensures
        r == (a == b),
{
    match (a, b) {
        (Some(x), Some(y)) => x == y,
        (None, None) => true,
        _ => false,
    }
}

/// A file is written: where it is missing or holds something else.
pub fn write_due(current: Option<&[u8]>, contents: &[u8]) -> (r: bool)
    ensures
        r == (match current {
            Some(c) => c@ != contents@,
            None => true,
        }),
{
    match current {
        None => true,
        Some(c) => {
            if c.len() != contents.len() {
                return true;
            }
            let mut i: usize = 0;
            while i < c.len()
                invariant
                    i <= c@.len(),
                    c@.len() == contents@.len(),
                    current == Some(c),
                    forall|k: int| 0 <= k < i ==> c@[k] == contents@[k],
                decreases c@.len() - i,
            {
                if c[i] != contents[i] {
                    return true;
                }
                i = i + 1;
            }
            proof {
                assert(c@ =~= contents@);
            }
            false
        },
    }
}

// ------------------------------------------------------------------------------ the framework

/// What is where the framework belongs, and where it comes from.
#[derive(Debug, Clone, Copy, PartialEq, Eq, Structural)]
pub struct Found {
    /// A link is there.
    pub is_link: bool,
    /// It leads to the source.
    pub leads_to_source: bool,
    /// Something is there, and it has resources.
    pub has_resources: bool,
    pub target_exists: bool,
    pub source_exists: bool,
}

/// What is removed first.
#[derive(Debug, Clone, Copy, PartialEq, Eq, Structural)]
pub enum Removed {
    Nothing,
    Link,
    Directory,
}

/// What is done about the framework.
#[derive(Debug, Clone, Copy, PartialEq, Eq, Structural)]
pub enum Install {
    /// What is there will do.
    Keep,
    /// There is none to install, and none is there.
    Missing,
    Copy { first: Removed },
    Link { first: Removed },
}

/// What is removed before the framework is put there.
pub open spec fn removed(f: Found) -> Removed {
    if f.is_link {
        Removed::Link
    } else if f.target_exists {
        Removed::Directory
    } else {
        Removed::Nothing
    }
}

/// What is done about the framework.
pub open spec fn installed(f: Found, copy: bool) -> Install {
    if !copy && f.is_link && f.leads_to_source {
        Install::Keep
    } else if copy && !f.is_link && f.has_resources {
        Install::Keep
    } else if !f.source_exists {
        if f.target_exists { Install::Keep } else { Install::Missing }
    } else if copy {
        Install::Copy { first: removed(f) }
    } else {
        Install::Link { first: removed(f) }
    }
}

/// What is done about the framework: a link to the one that was built with while developing, a copy in a
/// bundle that stands alone. What is there is replaced where it is of the wrong kind.
pub fn install_framework(f: Found, copy: bool) -> (r: Install)
    ensures
        r == installed(f, copy),
{
    if !copy {
        if f.is_link && f.leads_to_source {
            return Install::Keep;
        }
    } else if !f.is_link && f.has_resources {
        return Install::Keep;
    }
    if !f.source_exists {
        return if f.target_exists { Install::Keep } else { Install::Missing };
    }
    let first = if f.is_link {
        Removed::Link
    } else if f.target_exists {
        Removed::Directory
    } else {
        Removed::Nothing
    };
    if copy { Install::Copy { first } } else { Install::Link { first } }
}

/// What is said where there is no framework. `cef_dir`: where the build found one (empty: nowhere).
pub fn missing_framework(source: &str, cef_dir: &str) -> (r: String)
    ensures
        r@ == "the CEF framework is not at "@ + source@ + " ("@ + (if cef_dir@.len() == 0 {
            "the build found no CEF distribution — see the cargo warning from sta's build script"@
        } else {
            cef_dir@
        }) + ")"@,
{
    let hint: &str = if chars_of(cef_dir).len() == 0 {
        "the build found no CEF distribution — see the cargo warning from sta's build script"
    } else {
        cef_dir
    };
    let mut out = join3("the CEF framework is not at ", source, " (");
    out.append(hint);
    out.append(")");
    out
}

/// Nothing is put over what is there: a link or a directory in the place of the framework goes first.
pub proof fn nothing_is_overwritten(f: Found, copy: bool)
    requires
        installed(f, copy) is Copy || installed(f, copy) is Link,
    ensures
        f.source_exists,
        f.is_link ==> removed(f) is Link,
        !f.is_link && f.target_exists ==> removed(f) is Directory,
        installed(f, copy) is Copy <==> copy,
{
}

/// What is in a directory.
#[derive(Debug, Clone, Copy, PartialEq, Eq, Structural)]
pub enum Kind {
    Link,
    Directory,
    File,
}

/// How it is copied.
#[derive(Debug, Clone, Copy, PartialEq, Eq, Structural)]
pub enum Copying {
    /// The same link is made, in the place of what is there.
    SameLink,
    /// So is everything in it.
    Inside,
    Bytes,
}

/// How something in a directory is copied: links stay links.
pub open spec fn copying_of(kind: Kind) -> Copying {
    match kind {
        Kind::Link => Copying::SameLink,
        Kind::Directory => Copying::Inside,
        Kind::File => Copying::Bytes,
    }
}

/// How something in a directory is copied: links stay links.
pub fn copy_dir_entry(kind: Kind) -> (r: Copying)
    ensures
        r == copying_of(kind),
        r == (match kind {
            Kind::Link => Copying::SameLink,
            Kind::Directory => Copying::Inside,
            Kind::File => Copying::Bytes,
        }),
{
    match kind {
        Kind::Link => Copying::SameLink,
        Kind::Directory => Copying::Inside,
        Kind::File => Copying::Bytes,
    }
}

/// Below a directory that is named, what is joined stands behind one slash, whether or not the name of the
/// directory ends in one.
pub proof fn one_slash_stands_between(dir: Seq<char>, name: Seq<char>)
    requires
        dir.len() > 0,
        dir.last() != '/',
    ensures
        joined(dir, name) == dir.push('/') + name,
        joined(dir.push('/'), name) == dir.push('/') + name,
        joined(Seq::empty(), name) == name,
{
    reveal_strlit("/");
    assert(joined(dir, name) =~= dir.push('/') + name);
    assert(dir.push('/').last() == '/');
}

/// Where everything in a bundle is.
pub proof fn the_files_of_a_bundle_have_their_places(exe: Seq<char>, into: Seq<char>, standalone: bool, version: Seq<char>)
    requires
        into.len() > 0,
        into.last() != '/',
    ensures
        bundle_in(into) == into + "/sta.app"@,
        ({
            let steps = bundle_steps(exe, into, standalone, version);
            &&& steps.len() == 21
            &&& steps[0] == (StepModel::CreateDir { path: into + "/sta.app/Contents/MacOS"@ })
            &&& steps[1] == (StepModel::CreateDir { path: into + "/sta.app/Contents/Resources"@ })
            &&& steps[2] == (StepModel::CreateDir { path: into + "/sta.app/Contents/Frameworks"@ })
            &&& steps[3] == (StepModel::Write {
                path: into + "/sta.app/Contents/Info.plist"@,
                text: plist("sta"@, "com.p-asta.sta"@, false, version),
            })
            &&& steps[4] == (StepModel::CopyProgram { from: exe, to: into + "/sta.app/Contents/MacOS/sta"@ })
            &&& steps[20] == (StepModel::InstallFramework {
                target: into + "/sta.app/Contents/Frameworks/Chromium Embedded Framework.framework"@,
                copy: standalone,
            })
        }),
{
    a_bundle_has_every_helper(exe, into, standalone, version, 0);
    places(into);
    let steps = bundle_steps(exe, into, standalone, version);
    let head = app_steps(exe, into, version);
    assert(steps[0] == head[0] && steps[1] == head[1] && steps[2] == head[2] && steps[3] == head[3] && steps[4] == head[4]);
}

proof fn places(into: Seq<char>)
    requires
        into.len() > 0,
        into.last() != '/',
    ensures
        bundle_in(into) == into + "/sta.app"@,
        contents_of(into) == into + "/sta.app/Contents"@,
        frameworks_of(into) == into + "/sta.app/Contents/Frameworks"@,
        program_of(into) == into + "/sta.app/Contents/MacOS/sta"@,
        joined(contents_of(into), "MacOS"@) == into + "/sta.app/Contents/MacOS"@,
        joined(contents_of(into), "Resources"@) == into + "/sta.app/Contents/Resources"@,
        joined(contents_of(into), "Info.plist"@) == into + "/sta.app/Contents/Info.plist"@,
        joined(frameworks_of(into), FRAMEWORK@) == into + "/sta.app/Contents/Frameworks/Chromium Embedded Framework.framework"@,
{
    reveal_strlit("sta.app");
    reveal_strlit("/sta.app");
    one_slash_stands_between(into, "sta.app"@);
    assert(bundle_in(into) =~= into + "/sta.app"@);
    reveal_strlit("Contents");
    reveal_strlit("/sta.app/Contents");
    one_slash_stands_between(bundle_in(into), "Contents"@);
    assert(contents_of(into) =~= into + "/sta.app/Contents"@);
    reveal_strlit("Frameworks");
    reveal_strlit("/sta.app/Contents/Frameworks");
    one_slash_stands_between(contents_of(into), "Frameworks"@);
    assert(frameworks_of(into) =~= into + "/sta.app/Contents/Frameworks"@);
    reveal_strlit("MacOS");
    reveal_strlit("/sta.app/Contents/MacOS");
    one_slash_stands_between(contents_of(into), "MacOS"@);
    let macos = joined(contents_of(into), "MacOS"@);
    assert(macos =~= into + "/sta.app/Contents/MacOS"@);
    reveal_strlit("sta");
    reveal_strlit("/sta.app/Contents/MacOS/sta");
    one_slash_stands_between(macos, "sta"@);
    assert(program_of(into) =~= into + "/sta.app/Contents/MacOS/sta"@);
    reveal_strlit("Resources");
    reveal_strlit("/sta.app/Contents/Resources");
    one_slash_stands_between(contents_of(into), "Resources"@);
    assert(joined(contents_of(into), "Resources"@) =~= into + "/sta.app/Contents/Resources"@);
    reveal_strlit("Info.plist");
    reveal_strlit("/sta.app/Contents/Info.plist");
    one_slash_stands_between(contents_of(into), "Info.plist"@);
    assert(joined(contents_of(into), "Info.plist"@) =~= into + "/sta.app/Contents/Info.plist"@);
    reveal_strlit("Chromium Embedded Framework.framework");
    reveal_strlit("/sta.app/Contents/Frameworks/Chromium Embedded Framework.framework");
    one_slash_stands_between(frameworks_of(into), FRAMEWORK@);
    assert(joined(frameworks_of(into), FRAMEWORK@) =~= into + "/sta.app/Contents/Frameworks/Chromium Embedded Framework.framework"@);
}

/// Each helper has a bundle of its own among the frameworks, with its name, its program below `MacOS`, and
/// an `Info.plist` that names it. It is a copy of the program in a bundle that stands alone, and a link to it
/// in any other.
pub proof fn a_helper_has_a_bundle_of_its_own(into: Seq<char>, standalone: bool, version: Seq<char>, suffix: Seq<char>)
    requires
        into.len() > 0,
        into.last() != '/',
    ensures
        ({
            let name = "sta Helper"@ + suffix;
            let contents = into + "/sta.app/Contents/Frameworks/"@ + name + ".app/Contents"@;
            let program = into + "/sta.app/Contents/MacOS/sta"@;
            let to = contents + "/MacOS/"@ + name;
            let steps = helper_steps(into, standalone, version, suffix);
            &&& steps.len() == 3
            &&& steps[0] == (StepModel::CreateDir { path: contents + "/MacOS"@ })
            &&& steps[1] == (StepModel::Write { path: contents + "/Info.plist"@, text: plist(name, helper_id(suffix), true, version) })
            &&& standalone ==> steps[2] == (StepModel::CopyHelper { from: program, to })
            &&& !standalone ==> steps[2] == (StepModel::LinkHelper { from: program, to })
        }),
{
    places(into);
    reveal_strlit("sta");
    reveal_strlit(" Helper");
    reveal_strlit("sta Helper");
    reveal_strlit("/sta.app/Contents/Frameworks");
    reveal_strlit("/sta.app/Contents/Frameworks/");
    reveal_strlit(".app/Contents");
    reveal_strlit("MacOS");
    reveal_strlit("/MacOS");
    reveal_strlit("/MacOS/");
    reveal_strlit("Info.plist");
    reveal_strlit("/Info.plist");
    let name = "sta Helper"@ + suffix;
    assert(helper_name(suffix) =~= name);
    one_slash_stands_between(frameworks_of(into), name + ".app/Contents"@);
    let contents = into + "/sta.app/Contents/Frameworks/"@ + name + ".app/Contents"@;
    assert(joined(frameworks_of(into), name + ".app/Contents"@) =~= contents);
    one_slash_stands_between(contents, "MacOS"@);
    assert(joined(contents, "MacOS"@) =~= contents + "/MacOS"@);
    one_slash_stands_between(contents, "Info.plist"@);
    assert(joined(contents, "Info.plist"@) =~= contents + "/Info.plist"@);
    one_slash_stands_between(contents + "/MacOS"@, name);
    assert(joined(contents + "/MacOS"@, name) =~= contents + "/MacOS/"@ + name);
}

/// There is a helper for the graphics, the pages, the plugins and the alerts, and one without a kind.
pub proof fn the_kinds_of_helpers()
    ensures
        HELPERS == 5,
        suffix(0) == " (GPU)"@,
        suffix(1) == " (Renderer)"@,
        suffix(2) == " (Plugin)"@,
        suffix(3) == " (Alerts)"@,
        suffix(4) == ""@,
{
}

/// The identifier of a helper ends in its kind, in lower case and without the brackets around it.
pub proof fn a_helper_is_identified_by_its_kind(kind: Seq<char>)
    requires
        kind.len() > 0,
        kind[0] != '(' && kind[0] != ')',
        kind.last() != '(' && kind.last() != ')',
    ensures
        helper_id(seq![' ', '('] + kind + seq![')']) == "com.p-asta.sta.helper"@ + lower(kind),
        helper_id(Seq::empty()) == "com.p-asta.sta.helper"@,
{
    reveal_strlit("com.p-asta.sta");
    reveal_strlit(".helper");
    reveal_strlit("com.p-asta.sta.helper");
    let s = seq![' ', '('] + kind + seq![')'];
    let bare = seq!['('] + kind + seq![')'];
    assert(s.skip(1) =~= bare);
    assert(is_white(s[0]) && !is_white(bare[0]) && !is_white(bare.last()));
    assert(trim_start(bare) == bare);
    assert(trim_start(s) == bare);
    assert(trimmed(s) == bare);
    let open = kind + seq![')'];
    assert(bare.skip(1) =~= open);
    assert(open[0] == kind[0]);
    assert(unbracketed_start(open) == open);
    assert(unbracketed_start(bare) == open);
    assert(open.drop_last() =~= kind);
    assert(unbracketed_end(kind) == kind);
    assert(unbracketed_end(open) == kind);
    assert(helper_id(s) =~= "com.p-asta.sta.helper"@ + lower(kind));
    let none = Seq::<char>::empty();
    assert(trimmed(none) == none);
    assert(unbracketed_end(unbracketed_start(none)) == none);
    assert(lower(none) =~= none);
    assert(helper_id(none) =~= "com.p-asta.sta.helper"@);
}

/// In a bundle the framework and the helper are looked for where they are put.
pub proof fn a_bundle_is_searched_where_it_is_filled(into: Seq<char>)
    requires
        into.len() > 0,
        into.last() != '/',
    ensures
        framework_in(bundle_in(into)) == into + "/sta.app/Contents/Frameworks/Chromium Embedded Framework.framework"@,
        helper_in(bundle_in(into)) == into + "/sta.app/Contents/Frameworks/sta Helper.app/Contents/MacOS/sta Helper"@,
        framework_binary(framework_in(bundle_in(into))) == into
            + "/sta.app/Contents/Frameworks/Chromium Embedded Framework.framework/Chromium Embedded Framework"@,
{
    places(into);
    let app = bundle_in(into);
    reveal_strlit("/sta.app");
    reveal_strlit("Contents/Frameworks");
    reveal_strlit("/sta.app/Contents/Frameworks");
    one_slash_stands_between(app, "Contents/Frameworks"@);
    assert(joined(app, "Contents/Frameworks"@) =~= frameworks_of(into));
    reveal_strlit("Contents/Frameworks/sta Helper.app/Contents/MacOS/sta Helper");
    reveal_strlit("/sta.app/Contents/Frameworks/sta Helper.app/Contents/MacOS/sta Helper");
    one_slash_stands_between(app, "Contents/Frameworks/sta Helper.app/Contents/MacOS/sta Helper"@);
    assert(helper_in(app) =~= into + "/sta.app/Contents/Frameworks/sta Helper.app/Contents/MacOS/sta Helper"@);
    let framework = framework_in(app);
    reveal_strlit("/sta.app/Contents/Frameworks/Chromium Embedded Framework.framework");
    reveal_strlit("Chromium Embedded Framework");
    reveal_strlit("/sta.app/Contents/Frameworks/Chromium Embedded Framework.framework/Chromium Embedded Framework");
    one_slash_stands_between(framework, "Chromium Embedded Framework"@);
    assert(framework_binary(framework) =~= into
        + "/sta.app/Contents/Frameworks/Chromium Embedded Framework.framework/Chromium Embedded Framework"@);
}

/// A bundle is asked for by the switch alone, or with the directory behind `=`; nothing else asks for one.
pub proof fn a_bundle_is_asked_for_by_its_switch(arg: Seq<char>, dir: Seq<char>)
    ensures
        asks_for_bundle("--sta-bundle-mac"@) && switch_dir("--sta-bundle-mac"@) is None,
        asks_for_bundle("--sta-bundle-mac="@ + dir) && switch_dir("--sta-bundle-mac="@ + dir) == Some(dir),
        asks_for_bundle(arg) <==> arg == "--sta-bundle-mac"@ || exists|rest: Seq<char>| arg == #[trigger] ("--sta-bundle-mac="@ + rest),
{
    reveal_strlit("--sta-bundle-mac");
    reveal_strlit("=");
    reveal_strlit("--sta-bundle-mac=");
    let head = "--sta-bundle-mac="@;
    assert(BUNDLE_SWITCH@ + "="@ =~= head);
    let with = head + dir;
    assert(with.take(17) =~= head);
    assert(with.skip(17) =~= dir);
    assert(head.is_prefix_of(with));
    assert(with.len() > 16);
    if head.is_prefix_of(arg) {
        assert(arg =~= head + arg.skip(17));
    }
    assert forall|rest: Seq<char>| arg == #[trigger] (head + rest) implies asks_for_bundle(arg) by {
        assert(arg.take(17) =~= head);
        assert(head.is_prefix_of(arg));
    }
}

/// The first argument that asks for a bundle counts.
pub proof fn the_first_request_for_a_bundle_counts(args: Seq<String>, i: int, k: int)
    requires
        0 <= i <= k < args.len(),
        asks_for_bundle(args[k]@),
        forall|j: int| i <= j < k ==> !asks_for_bundle(#[trigger] args[j]@),
    ensures
        bundle_request(args, i) == Some(args[k]@),
    decreases k - i,
{
    if i < k {
        assert(!asks_for_bundle(args[i]@));
        the_first_request_for_a_bundle_counts(args, i + 1, k);
    }
}

/// Where no argument asks for a bundle, none is asked for.
pub proof fn no_request_for_a_bundle_is_made_up(args: Seq<String>, i: int)
    requires
        0 <= i <= args.len(),
        forall|j: int| i <= j < args.len() ==> !asks_for_bundle(#[trigger] args[j]@),
    ensures
        bundle_request(args, i) is None,
    decreases args.len() - i,
{
    if i < args.len() {
        no_request_for_a_bundle_is_made_up(args, i + 1);
    }
}

/// A component of a path is a bundle where it ends in `.app` and has something before that.
pub proof fn a_bundle_is_known_by_its_ending(name: Seq<char>)
    ensures
        name.len() > 0 ==> is_app_name(name + seq!['.', 'a', 'p', 'p']),
        !is_app_name(seq!['.', 'a', 'p', 'p']),
        is_app_name(name) ==> name.len() >= 5 && name[name.len() - 4] == '.' && name[name.len() - 3] == 'a' && name[name.len() - 2] == 'p'
            && name[name.len() - 1] == 'p',
{
    reveal_strlit(".app");
    let end = seq!['.', 'a', 'p', 'p'];
    assert(".app"@ =~= end);
    let whole = name + end;
    assert(whole.skip(name.len() as int) =~= end);
    assert(end.is_suffix_of(whole));
    if is_app_name(name) {
        let t = name.skip(name.len() - 4);
        assert(t =~= end || end.is_suffix_of(name));
        assert(name.subrange(name.len() - 4, name.len() as int) =~= end);
        assert(name[name.len() - 4] == end[0] && name[name.len() - 3] == end[1] && name[name.len() - 2] == end[2] && name[name.len() - 1]
            == end[3]);
    }
}

/// What a program outside a bundle says: which program, and how to build a bundle with it.
pub proof fn a_refusal_says_how_to_go_on(exe: Seq<char>)
    ensures
        ("[sta] "@ + exe + " is not inside an app bundle."@).is_prefix_of(refusal(exe)),
        ("Build one with: "@ + exe + " --sta-bundle-mac"@).is_suffix_of(refusal(exe)),
{
    reveal_strlit("[sta] ");
    reveal_strlit(" is not inside an app bundle.");
    reveal_strlit(
        " is not inside an app bundle.\n      macOS needs sta.app (the CEF framework and the helper processes live in it).\n      Build one with: ",
    );
    reveal_strlit("Build one with: ");
    reveal_strlit(" ");
    reveal_strlit("--sta-bundle-mac");
    reveal_strlit(" --sta-bundle-mac");
    let all = refusal(exe);
    let head = "[sta] "@ + exe + " is not inside an app bundle."@;
    let end = "Build one with: "@ + exe + " --sta-bundle-mac"@;
    assert(all.take(head.len() as int) =~= head);
    assert(all.skip(all.len() - end.len()) =~= end);
}

/// The framework that is there is kept where it will do: a link to the source while developing, something
/// with resources that is no link in a bundle that stands alone, anything where there is no source.
pub proof fn a_framework_that_will_do_is_kept(f: Found, copy: bool)
    ensures
        f.is_link && f.leads_to_source && !copy ==> installed(f, copy) is Keep,
        !f.is_link && f.has_resources && copy ==> installed(f, copy) is Keep,
        !f.source_exists && f.target_exists ==> installed(f, copy) is Keep,
        installed(f, copy) is Missing <==> !f.source_exists && !f.target_exists && !(f.is_link && f.leads_to_source && !copy) && !(!f.is_link
            && f.has_resources && copy),
        f.source_exists && copy && (f.is_link || !f.has_resources) ==> installed(f, copy) is Copy,
        f.source_exists && !copy && !(f.is_link && f.leads_to_source) ==> installed(f, copy) is Link,
        installed(f, copy) is Link && !f.is_link && !f.target_exists ==> installed(f, copy) == (Install::Link { first: Removed::Nothing }),
        installed(f, copy) is Copy && f.is_link ==> installed(f, copy) == (Install::Copy { first: Removed::Link }),
        installed(f, copy) is Link && !f.is_link && f.target_exists ==> installed(f, copy) == (Install::Link { first: Removed::Directory }),
{
}

proof fn a_value_stands_in_a_text(text: Seq<char>, a: Seq<char>, x: Seq<char>, v: Seq<char>, y: Seq<char>, key: Seq<char>)
    requires
        (a + x + v + y).is_prefix_of(text),
        key.is_suffix_of(x),
        "</string>"@.is_prefix_of(y),
    ensures
        has_text(text, key + v + "</string>"@),
{
    let end = "</string>"@;
    let part = key + v + end;
    let head = a + x + v + y;
    let at = a.len() + x.len() - key.len();
    let here = text.subrange(at, at + part.len());
    assert forall|i: int| 0 <= i < part.len() implies here[i] == part[i] by {
        assert(text.subrange(0, head.len() as int)[at + i] == head[at + i]);
        if i < key.len() {
            assert(x.subrange(x.len() - key.len(), x.len() as int)[i] == key[i]);
        } else if i >= key.len() + v.len() {
            assert(y.subrange(0, end.len() as int)[i - key.len() - v.len()] == end[i - key.len() - v.len()]);
        }
    }
    assert(here =~= part);
    assert(has_at(text, part, at));
}

proof fn begins_with_less(p: Seq<char>, more: Seq<char>, text: Seq<char>)
    requires
        (p + more).is_prefix_of(text),
    ensures
        p.is_prefix_of(text),
{
    let all = p + more;
    assert forall|i: int| 0 <= i < p.len() implies text.subrange(0, p.len() as int)[i] == p[i] by {
        assert(text.subrange(0, all.len() as int)[i] == all[i]);
    }
    assert(text.subrange(0, p.len() as int) =~= p);
}

proof fn parts_end_in_their_keys()
    ensures
        "<key>CFBundleDisplayName</key>\n\t<string>"@.is_suffix_of(PLIST_HEAD@),
        "<key>CFBundleExecutable</key>\n\t<string>"@.is_suffix_of(PLIST_EXECUTABLE@),
        "<key>CFBundleIdentifier</key>\n\t<string>"@.is_suffix_of(PLIST_IDENTIFIER@),
        "<key>CFBundleName</key>\n\t<string>"@.is_suffix_of(PLIST_NAME@),
        "<key>CFBundleShortVersionString</key>\n\t<string>"@.is_suffix_of(PLIST_SHORT_VERSION@),
        "<key>CFBundleVersion</key>\n\t<string>"@.is_suffix_of(PLIST_VERSION@),
        "</string>"@.is_prefix_of(PLIST_EXECUTABLE@),
        "</string>"@.is_prefix_of(PLIST_IDENTIFIER@),
        "</string>"@.is_prefix_of(PLIST_NAME@),
        "</string>"@.is_prefix_of(PLIST_SHORT_VERSION@),
        "</string>"@.is_prefix_of(PLIST_VERSION@),
        "</string>"@.is_prefix_of(PLIST_SYSTEM@),
{
    reveal_strlit("</string>");
    let end = "</string>"@;
    reveal_strlit("<?xml version=\"1.0\" encoding=\"UTF-8\"?>\n<!DOCTYPE plist PUBLIC \"-//Apple//DTD PLIST 1.0//EN\" \"http://www.apple.com/DTDs/PropertyList-1.0.dtd\">\n<plist version=\"1.0\">\n<dict>\n\t<key>CFBundleDevelopmentRegion</key>\n\t<string>en</string>\n\t<key>CFBundleDisplayName</key>\n\t<string>");
    reveal_strlit("<key>CFBundleDisplayName</key>\n\t<string>");
    assert(PLIST_HEAD@.skip(PLIST_HEAD@.len() - "<key>CFBundleDisplayName</key>\n\t<string>"@.len()) =~= "<key>CFBundleDisplayName</key>\n\t<string>"@);
    reveal_strlit("</string>\n\t<key>CFBundleExecutable</key>\n\t<string>");
    reveal_strlit("<key>CFBundleExecutable</key>\n\t<string>");
    assert(PLIST_EXECUTABLE@.skip(PLIST_EXECUTABLE@.len() - "<key>CFBundleExecutable</key>\n\t<string>"@.len()) =~= "<key>CFBundleExecutable</key>\n\t<string>"@);
    assert(PLIST_EXECUTABLE@.take(9) =~= end);
    reveal_strlit("</string>\n\t<key>CFBundleIdentifier</key>\n\t<string>");
    reveal_strlit("<key>CFBundleIdentifier</key>\n\t<string>");
    assert(PLIST_IDENTIFIER@.skip(PLIST_IDENTIFIER@.len() - "<key>CFBundleIdentifier</key>\n\t<string>"@.len()) =~= "<key>CFBundleIdentifier</key>\n\t<string>"@);
    assert(PLIST_IDENTIFIER@.take(9) =~= end);
    reveal_strlit("</string>\n\t<key>CFBundleInfoDictionaryVersion</key>\n\t<string>6.0</string>\n\t<key>CFBundleName</key>\n\t<string>");
    reveal_strlit("<key>CFBundleName</key>\n\t<string>");
    assert(PLIST_NAME@.skip(PLIST_NAME@.len() - "<key>CFBundleName</key>\n\t<string>"@.len()) =~= "<key>CFBundleName</key>\n\t<string>"@);
    assert(PLIST_NAME@.take(9) =~= end);
    reveal_strlit("</string>\n\t<key>CFBundlePackageType</key>\n\t<string>APPL</string>\n\t<key>CFBundleShortVersionString</key>\n\t<string>");
    reveal_strlit("<key>CFBundleShortVersionString</key>\n\t<string>");
    assert(PLIST_SHORT_VERSION@.skip(PLIST_SHORT_VERSION@.len() - "<key>CFBundleShortVersionString</key>\n\t<string>"@.len()) =~= "<key>CFBundleShortVersionString</key>\n\t<string>"@);
    assert(PLIST_SHORT_VERSION@.take(9) =~= end);
    reveal_strlit("</string>\n\t<key>CFBundleVersion</key>\n\t<string>");
    reveal_strlit("<key>CFBundleVersion</key>\n\t<string>");
    assert(PLIST_VERSION@.skip(PLIST_VERSION@.len() - "<key>CFBundleVersion</key>\n\t<string>"@.len()) =~= "<key>CFBundleVersion</key>\n\t<string>"@);
    assert(PLIST_VERSION@.take(9) =~= end);
    reveal_strlit("</string>\n\t<key>LSEnvironment</key>\n\t<dict>\n\t\t<key>MallocNanoZone</key>\n\t\t<string>0</string>\n\t</dict>\n\t<key>LSMinimumSystemVersion</key>\n\t<string>11.0</string>\n");
    assert(PLIST_SYSTEM@.take(9) =~= end);
}

/// What an `Info.plist` says: under each key its value.
pub proof fn a_plist_has_its_keys(executable: Seq<char>, identifier: Seq<char>, helper: bool, version: Seq<char>)
    ensures
        ({
            let text = plist(executable, identifier, helper, version);
            &&& has_text(text, "<key>CFBundleDisplayName</key>\n\t<string>"@ + executable + "</string>"@)
            &&& has_text(text, "<key>CFBundleExecutable</key>\n\t<string>"@ + executable + "</string>"@)
            &&& has_text(text, "<key>CFBundleIdentifier</key>\n\t<string>"@ + identifier + "</string>"@)
            &&& has_text(text, "<key>CFBundleName</key>\n\t<string>"@ + executable + "</string>"@)
            &&& has_text(text, "<key>CFBundleShortVersionString</key>\n\t<string>"@ + version + "</string>"@)
            &&& has_text(text, "<key>CFBundleVersion</key>\n\t<string>"@ + version + "</string>"@)
        }),
{
    parts_end_in_their_keys();
    let text = plist(executable, identifier, helper, version);
    let ui = if helper { PLIST_UI_ELEMENT@ } else { Seq::empty() };
    let why = if helper { Seq::empty() } else { usages() };
    let p1 = PLIST_HEAD@ + executable + PLIST_EXECUTABLE@;
    let p2 = p1 + executable + PLIST_IDENTIFIER@;
    let p3 = p2 + identifier + PLIST_NAME@;
    let p4 = p3 + executable + PLIST_SHORT_VERSION@;
    let p5 = p4 + version + PLIST_VERSION@;
    let p6 = p5 + version + PLIST_SYSTEM@;
    assert(text == p6 + ui + PLIST_GRAPHICS@ + why + PLIST_TAIL@);
    assert(text.subrange(0, text.len() as int) =~= text);
    begins_with_less(p6 + ui + PLIST_GRAPHICS@ + why, PLIST_TAIL@, text);
    begins_with_less(p6 + ui + PLIST_GRAPHICS@, why, text);
    begins_with_less(p6 + ui, PLIST_GRAPHICS@, text);
    begins_with_less(p6, ui, text);
    begins_with_less(p5 + version, PLIST_SYSTEM@, text);
    begins_with_less(p5, version, text);
    begins_with_less(p4 + version, PLIST_VERSION@, text);
    begins_with_less(p4, version, text);
    begins_with_less(p3 + executable, PLIST_SHORT_VERSION@, text);
    begins_with_less(p3, executable, text);
    begins_with_less(p2 + identifier, PLIST_NAME@, text);
    begins_with_less(p2, identifier, text);
    begins_with_less(p1 + executable, PLIST_IDENTIFIER@, text);
    begins_with_less(p1, executable, text);
    let none = Seq::<char>::empty();
    assert(none + PLIST_HEAD@ =~= PLIST_HEAD@);
    a_value_stands_in_a_text(text, none, PLIST_HEAD@, executable, PLIST_EXECUTABLE@, "<key>CFBundleDisplayName</key>\n\t<string>"@);
    a_value_stands_in_a_text(text, PLIST_HEAD@ + executable, PLIST_EXECUTABLE@, executable, PLIST_IDENTIFIER@, "<key>CFBundleExecutable</key>\n\t<string>"@);
    a_value_stands_in_a_text(text, p1 + executable, PLIST_IDENTIFIER@, identifier, PLIST_NAME@, "<key>CFBundleIdentifier</key>\n\t<string>"@);
    a_value_stands_in_a_text(text, p2 + identifier, PLIST_NAME@, executable, PLIST_SHORT_VERSION@, "<key>CFBundleName</key>\n\t<string>"@);
    a_value_stands_in_a_text(text, p3 + executable, PLIST_SHORT_VERSION@, version, PLIST_VERSION@, "<key>CFBundleShortVersionString</key>\n\t<string>"@);
    a_value_stands_in_a_text(text, p4 + version, PLIST_VERSION@, version, PLIST_SYSTEM@, "<key>CFBundleVersion</key>\n\t<string>"@);
}

/// The reasons that are given for what a page may ask for stand in the app's `Info.plist`, one for each.
pub proof fn a_plist_gives_its_reasons(executable: Seq<char>, identifier: Seq<char>, version: Seq<char>)
    ensures
        ({
            let text = plist(executable, identifier, false, version);
            let why = "</key>\n\t<string>A site you are visiting in sta asked for this.</string>\n"@;
            &&& has_text(text, "\t<key>"@ + "NSCameraUsageDescription"@ + why)
            &&& has_text(text, "\t<key>"@ + "NSMicrophoneUsageDescription"@ + why)
            &&& has_text(text, "\t<key>"@ + "NSBluetoothAlwaysUsageDescription"@ + why)
            &&& has_text(text, "\t<key>"@ + "NSLocationWhenInUseUsageDescription"@ + why)
        }),
{
    a_plist_names_its_executable(executable, identifier, version);
    let text = plist(executable, identifier, false, version);
    let head = plist_names(executable, identifier, version) + PLIST_GRAPHICS@;
    let camera = usage("NSCameraUsageDescription"@);
    let microphone = usage("NSMicrophoneUsageDescription"@);
    let bluetooth = usage("NSBluetoothAlwaysUsageDescription"@);
    let location = usage("NSLocationWhenInUseUsageDescription"@);
    let at = head.len() as int;
    assert(text =~= head + camera + microphone + bluetooth + location + PLIST_TAIL@);
    assert(text.subrange(at, at + camera.len()) =~= camera);
    assert(has_at(text, camera, at));
    let at = at + camera.len();
    assert(text.subrange(at, at + microphone.len()) =~= microphone);
    assert(has_at(text, microphone, at));
    let at = at + microphone.len();
    assert(text.subrange(at, at + bluetooth.len()) =~= bluetooth);
    assert(has_at(text, bluetooth, at));
    let at = at + bluetooth.len();
    assert(text.subrange(at, at + location.len()) =~= location);
    assert(has_at(text, location, at));
}

/// The parts of an `Info.plist` that are the same in every bundle.
pub proof fn the_fixed_parts_of_a_plist()
    ensures
        PLIST_UI_ELEMENT@ == "\t<key>LSUIElement</key>\n\t<string>1</string>\n"@,
        PLIST_GRAPHICS@ == "\t<key>NSHighResolutionCapable</key>\n\t<true/>\n\t<key>NSSupportsAutomaticGraphicsSwitching</key>\n\t<true/>\n"@,
        PLIST_TAIL@ == "</dict>\n</plist>\n"@,
        PLIST_SYSTEM@
            == "</string>\n\t<key>LSEnvironment</key>\n\t<dict>\n\t\t<key>MallocNanoZone</key>\n\t\t<string>0</string>\n\t</dict>\n\t<key>LSMinimumSystemVersion</key>\n\t<string>11.0</string>\n"@,
        PLIST_HEAD@
            == "<?xml version=\"1.0\" encoding=\"UTF-8\"?>\n<!DOCTYPE plist PUBLIC \"-//Apple//DTD PLIST 1.0//EN\" \"http://www.apple.com/DTDs/PropertyList-1.0.dtd\">\n<plist version=\"1.0\">\n<dict>\n\t<key>CFBundleDevelopmentRegion</key>\n\t<string>en</string>\n\t<key>CFBundleDisplayName</key>\n\t<string>"@,
{
}

/// A link is copied as a link, a directory with what is in it, and a file by its bytes.
pub proof fn a_link_is_copied_as_a_link()
    ensures
        copying_of(Kind::Link) is SameLink,
        copying_of(Kind::Directory) is Inside,
        copying_of(Kind::File) is Bytes,
{
}

} // verus!
