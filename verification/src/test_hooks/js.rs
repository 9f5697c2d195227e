//! JavaScript, DevTools and targets, for the test surface, and the DevTools client that it uses.
//!
//! The client is a third one beside that of the agent and that of the shell: the numbers of its messages
//! lie above theirs, and it is the only one that keeps the traffic of sessions.
use crate::json::{
    holds, inner_spelled, inner_text, is_json, item_texts, items_spelled, json_quoted, json_string, list_of, member_or, member_spelled, member_string,
    member_text, member_text_or, parse, string_member, string_spelled, string_text, truth_spelled, truth_text, write_list, Json, MAX_DEPTH,
};
use crate::test_hooks::{
    bool_arg, err, failure, invalid, opt_str, out, shell_browser, str_arg, text_of_arg, told, truth_of_arg, ErrorCode, Failure, Output, Told, ToolError,
};
use crate::text::{
    chars_of, contains_text, copy_text, decimal, decimal_text, join2, join3, joined_by, occurs, one_more_member_follows, opt_view, quote, quoted, same_text, signed_decimal, signed_text, text_of, text_views, utf8_text,
};
use std::collections::HashMap;
use vstd::prelude::*;
use vstd::utf8::{decode_utf8, encode_utf8, valid_utf8};

verus! {

broadcast use vstd::std_specs::hash::group_hash_axioms;

// ------------------------------------------------------------------------------ targets

/// A browser that is alive.
pub struct LiveBrowser {
    pub id: i32,
    pub url: String,
}

/// A surface of the shell, and its browser where it has one.
pub struct SurfaceBrowser {
    pub host: String,
    pub browser: Option<i32>,
}

/// A session that was attached to a target.
pub struct Session {
    pub target: String,
    pub browser: i32,
    pub session: String,
}

/// What targets are looked for in.
pub struct World {
    pub live: Vec<LiveBrowser>,
    pub surfaces: Vec<SurfaceBrowser>,
    /// The tabs that have a browser.
    pub tabs: Vec<(u64, i32)>,
    /// The browser of the topbar.
    pub topbar: Option<i32>,
}

/// Where a message goes: the browser whose DevTools carry it, the session inside it, and what that is
/// called.
pub struct Target {
    pub browser: i32,
    pub session: Option<String>,
    pub what: String,
}

/// Where a message goes, as mathematics.
#[verifier::ext_equal]
pub struct TargetModel {
    pub browser: i32,
    pub session: Option<Seq<char>>,
    pub what: Seq<char>,
}

/// The characters of a text that may be missing.
pub open spec fn opt_text(s: Option<String>) -> Option<Seq<char>> {
    match s {
        Some(t) => Some(t@),
        None => None,
    }
}

impl View for Target {
    type V = TargetModel;

    open spec fn view(&self) -> TargetModel {
        TargetModel { browser: self.browser, session: opt_text(self.session), what: self.what@ }
    }
}

/// The part of the arguments that says which target is meant.
pub open spec fn selector(args: Json, key: Seq<char>) -> Option<Json> {
    match args.member("target"@) {
        Some(t) => t.member(key),
        None => None,
    }
}

/// The number of a browser.
pub open spec fn browser_number(n: i64) -> i32 {
    n as i32
}

/// A browser is alive.
pub open spec fn is_live(live: Seq<LiveBrowser>, id: i32) -> bool {
    exists|i: int| 0 <= i < live.len() && (#[trigger] live[i]).id == id
}

/// The surface of a host, from position `i` on.
pub open spec fn surface_at(surfaces: Seq<SurfaceBrowser>, host: Seq<char>, i: int) -> Option<Option<i32>>
    decreases surfaces.len() - i,
{
    if i < 0 || i >= surfaces.len() {
        None
    } else if surfaces[i].host@ == host {
        Some(surfaces[i].browser)
    } else {
        surface_at(surfaces, host, i + 1)
    }
}

/// The browser of a tab, from position `i` on.
pub open spec fn tab_at(tabs: Seq<(u64, i32)>, tab: u64, i: int) -> Option<i32>
    decreases tabs.len() - i,
{
    if i < 0 || i >= tabs.len() {
        None
    } else if tabs[i].0 == tab {
        Some(tabs[i].1)
    } else {
        tab_at(tabs, tab, i + 1)
    }
}

/// The session of a target, from position `i` on.
pub open spec fn session_at(sessions: Seq<Session>, target: Seq<char>, i: int) -> Option<(i32, Seq<char>)>
    decreases sessions.len() - i,
{
    if i < 0 || i >= sessions.len() {
        None
    } else if sessions[i].target@ == target {
        Some((sessions[i].browser, sessions[i].session@))
    } else {
        session_at(sessions, target, i + 1)
    }
}

/// The first browser from position `i` on whose address holds a text.
pub open spec fn live_matching(live: Seq<LiveBrowser>, needle: Seq<char>, i: int) -> Option<i32>
    decreases live.len() - i,
{
    if i < 0 || i >= live.len() {
        None
    } else if occurs(live[i].url@, needle) {
        Some(live[i].id)
    } else {
        live_matching(live, needle, i + 1)
    }
}

fn live_has(live: &Vec<LiveBrowser>, id: i32) -> (r: bool)
    ensures
        r == is_live(live@, id),
{
    let mut i: usize = 0;
    while i < live.len()
        invariant
            i <= live@.len(),
            forall|k: int| 0 <= k < i ==> (#[trigger] live@[k]).id != id,
        decreases live@.len() - i,
    {
        if live[i].id == id {
            return true;
        }
        i = i + 1;
    }
    false
}

fn find_surface(surfaces: &Vec<SurfaceBrowser>, host: &str) -> (r: Option<Option<i32>>)
    ensures
        r == surface_at(surfaces@, host@, 0),
{
    let mut i: usize = 0;
    while i < surfaces.len()
        invariant
            i <= surfaces@.len(),
            surface_at(surfaces@, host@, i as int) == surface_at(surfaces@, host@, 0),
        decreases surfaces@.len() - i,
    {
        if same_text(surfaces[i].host.as_str(), host) {
            return Some(surfaces[i].browser);
        }
        i = i + 1;
    }
    None
}

fn find_tab(tabs: &Vec<(u64, i32)>, tab: u64) -> (r: Option<i32>)
    ensures
        r == tab_at(tabs@, tab, 0),
{
    let mut i: usize = 0;
    while i < tabs.len()
        invariant
            i <= tabs@.len(),
            tab_at(tabs@, tab, i as int) == tab_at(tabs@, tab, 0),
        decreases tabs@.len() - i,
    {
        if tabs[i].0 == tab {
            return Some(tabs[i].1);
        }
        i = i + 1;
    }
    None
}

fn find_match(live: &Vec<LiveBrowser>, needle: &str) -> (r: Option<i32>)
    ensures
        r == live_matching(live@, needle@, 0),
{
    let mut i: usize = 0;
    while i < live.len()
        invariant
            i <= live@.len(),
            live_matching(live@, needle@, i as int) == live_matching(live@, needle@, 0),
        decreases live@.len() - i,
    {
        if contains_text(live[i].url.as_str(), needle) {
            return Some(live[i].id);
        }
        i = i + 1;
    }
    None
}

/// The session that was attached to a target: the browser that carries it, and its name.
pub fn attached(sessions: &Vec<Session>, target: &str) -> (r: Option<(i32, String)>)
    ensures
        match r {
            Some((browser, session)) => session_at(sessions@, target@, 0) == Some((browser, session@)),
            None => session_at(sessions@, target@, 0) is None,
        },
{
    let mut i: usize = 0;
    while i < sessions.len()
        invariant
            i <= sessions@.len(),
            session_at(sessions@, target@, i as int) == session_at(sessions@, target@, 0),
        decreases sessions@.len() - i,
    {
        if same_text(sessions[i].target.as_str(), target) {
            return Some((sessions[i].browser, copy_text(sessions[i].session.as_str())));
        }
        i = i + 1;
    }
    None
}

/// A target by the number of its browser.
pub open spec fn by_browser(w: World, id: i32, session: Option<Seq<char>>) -> Result<TargetModel, Failure> {
    if is_live(w.live@, id) {
        Ok(TargetModel { browser: id, session, what: "browser "@ + signed_decimal(id as int) })
    } else {
        Err(failure(ErrorCode::NoSuchTarget, "no live browser "@ + signed_decimal(id as int)))
    }
}

/// A target by the surface of the shell.
pub open spec fn by_surface(w: World, host: Seq<char>, session: Option<Seq<char>>) -> Result<TargetModel, Failure> {
    match surface_at(w.surfaces@, host, 0) {
        None => Err(failure(ErrorCode::InvalidArguments, "unknown surface "@ + quoted(host))),
        Some(None) => Err(failure(ErrorCode::NoSuchTarget, "surface "@ + host + " has no browser"@)),
        Some(Some(browser)) => Ok(TargetModel { browser, session, what: "surface "@ + host }),
    }
}

/// A target by its tab.
pub open spec fn by_tab(w: World, tab: u64, session: Option<Seq<char>>) -> Result<TargetModel, Failure> {
    match tab_at(w.tabs@, tab, 0) {
        None => Err(failure(ErrorCode::NoSuchTarget, "tab "@ + decimal(tab as nat) + " has no browser"@)),
        Some(browser) => Ok(TargetModel { browser, session, what: "tab "@ + decimal(tab as nat) }),
    }
}

/// A target by its name: one that a session was attached to, or one with a session that is named.
pub open spec fn by_target(w: World, sessions: Seq<Session>, id: Seq<char>, session: Option<Seq<char>>) -> Result<TargetModel, Failure> {
    match session_at(sessions, id, 0) {
        Some((browser, remembered)) => Ok(
            TargetModel { browser, session: Some(if session is Some { session->0 } else { remembered }), what: "target "@ + id },
        ),
        None => match session {
            Some(_) => match w.topbar {
                Some(browser) => Ok(TargetModel { browser, session, what: "target "@ + id }),
                None => Err(
                    failure(ErrorCode::BrowserNotRunning, "the shell has no topbar browser (starting up or shutting down)"@),
                ),
            },
            None => Err(failure(ErrorCode::NoSuchTarget, "no session for target "@ + id + ": call test_attach first"@)),
        },
    }
}

/// A target by its address.
pub open spec fn by_address(w: World, needle: Seq<char>, session: Option<Seq<char>>) -> Result<TargetModel, Failure> {
    match live_matching(w.live@, needle, 0) {
        None => Err(failure(ErrorCode::NoSuchTarget, "no target whose URL contains "@ + quoted(needle))),
        Some(browser) => Ok(TargetModel { browser, session, what: "match "@ + quoted(needle) }),
    }
}

/// A part of the selector as a text.
pub open spec fn selected_text(args: Json, key: Seq<char>) -> Option<Seq<char>> {
    match selector(args, key) {
        Some(v) => v.text(),
        None => None,
    }
}

/// A part of the selector as a signed number.
pub open spec fn selected_signed(args: Json, key: Seq<char>) -> Option<i64> {
    match selector(args, key) {
        Some(v) => v.signed_number(),
        None => None,
    }
}

/// A part of the selector as an unsigned number.
pub open spec fn selected_unsigned(args: Json, key: Seq<char>) -> Option<u64> {
    match selector(args, key) {
        Some(v) => v.unsigned_number(),
        None => None,
    }
}

/// Which target is meant: by browser, surface, tab, name or address, in this order.
pub open spec fn resolved(args: Json, w: World, sessions: Seq<Session>) -> Result<TargetModel, Failure> {
    let session = text_of_arg(args, "sessionId"@);
    match selected_signed(args, "browser"@) {
        Some(n) => by_browser(w, browser_number(n), session),
        None => match selected_text(args, "surface"@) {
            Some(host) => by_surface(w, host, session),
            None => match selected_unsigned(args, "tab"@) {
                Some(tab) => by_tab(w, tab, session),
                None => match selected_text(args, "targetId"@) {
                    Some(id) => by_target(w, sessions, id, session),
                    None => match selected_text(args, "match"@) {
                        Some(needle) => by_address(w, needle, session),
                        None => Err(failure(ErrorCode::InvalidArguments, "target takes one of surface, tab, targetId or match"@)),
                    },
                },
            },
        },
    }
}

fn select<'a>(args: &'a Json, key: &str) -> (r: Option<&'a Json>)
    ensures
        match r {
            Some(v) => selector(*args, key@) == Some(*v),
            None => selector(*args, key@) is None,
        },
{
    match args.get("target") {
        Some(t) => t.get(key),
        None => None,
    }
}

fn select_text<'a>(args: &'a Json, key: &str) -> (r: Option<&'a str>)
    ensures
        crate::text::opt_view(r) == selected_text(*args, key@),
{
    match select(args, key) {
        Some(v) => v.as_text(),
        None => None,
    }
}

fn select_signed(args: &Json, key: &str) -> (r: Option<i64>)
    ensures
        r == selected_signed(*args, key@),
{
    match select(args, key) {
        Some(v) => v.as_i64(),
        None => None,
    }
}

fn select_unsigned(args: &Json, key: &str) -> (r: Option<u64>)
    ensures
        r == selected_unsigned(*args, key@),
{
    match select(args, key) {
        Some(v) => v.as_u64(),
        None => None,
    }
}

/// A result is the one that is meant.
pub open spec fn answers(r: Result<Target, ToolError>, wanted: Result<TargetModel, Failure>) -> bool {
    match r {
        Ok(t) => wanted == Ok::<TargetModel, Failure>(t@),
        Err(e) => wanted == Err::<TargetModel, Failure>(e@),
    }
}

fn resolve_browser(w: &World, id: i32, session: Option<String>) -> (r: Result<Target, ToolError>)
    ensures
        answers(r, by_browser(*w, id, opt_text(session))),
{
    let text = signed_text(id as i64);
    if !live_has(&w.live, id) {
        return Err(err(ErrorCode::NoSuchTarget, join2("no live browser ", text.as_str()).as_str()));
    }
    Ok(Target { browser: id, session, what: join2("browser ", text.as_str()) })
}

fn resolve_surface(w: &World, host: &str, session: Option<String>) -> (r: Result<Target, ToolError>)
    ensures
        answers(r, by_surface(*w, host@, opt_text(session))),
{
    match find_surface(&w.surfaces, host) {
        None => Err(invalid(join2("unknown surface ", quote(host).as_str()).as_str())),
        Some(None) => Err(err(ErrorCode::NoSuchTarget, join3("surface ", host, " has no browser").as_str())),
        Some(Some(browser)) => Ok(Target { browser, session, what: join2("surface ", host) }),
    }
}

fn resolve_tab(w: &World, tab: u64, session: Option<String>) -> (r: Result<Target, ToolError>)
    ensures
        answers(r, by_tab(*w, tab, opt_text(session))),
{
    let text = decimal_text(tab);
    match find_tab(&w.tabs, tab) {
        None => Err(err(ErrorCode::NoSuchTarget, join3("tab ", text.as_str(), " has no browser").as_str())),
        Some(browser) => Ok(Target { browser, session, what: join2("tab ", text.as_str()) }),
    }
}

fn resolve_target(w: &World, sessions: &Vec<Session>, id: &str, session: Option<String>) -> (r: Result<Target, ToolError>)
    ensures
        answers(r, by_target(*w, sessions@, id@, opt_text(session))),
{
    match attached(sessions, id) {
        Some((browser, remembered)) => {
            let used = match session {
                Some(s) => s,
                None => remembered,
            };
            Ok(Target { browser, session: Some(used), what: join2("target ", id) })
        },
        None => match session {
            Some(s) => match shell_browser(w.topbar) {
                Ok(browser) => Ok(Target { browser, session: Some(s), what: join2("target ", id) }),
                Err(e) => Err(e),
            },
            None => Err(err(ErrorCode::NoSuchTarget, join3("no session for target ", id, ": call test_attach first").as_str())),
        },
    }
}

fn resolve_address(w: &World, needle: &str, session: Option<String>) -> (r: Result<Target, ToolError>)
    ensures
        answers(r, by_address(*w, needle@, opt_text(session))),
{
    let shown = quote(needle);
    match find_match(&w.live, needle) {
        None => Err(err(ErrorCode::NoSuchTarget, join2("no target whose URL contains ", shown.as_str()).as_str())),
        Some(browser) => Ok(Target { browser, session, what: join2("match ", shown.as_str()) }),
    }
}

/// Which target is meant: by browser, surface, tab, name or address, in this order. A name that no session
/// was attached to is never answered by the shell in its place.
pub fn resolve(args: &Json, w: &World, sessions: &Vec<Session>) -> (r: Result<Target, ToolError>)
    ensures
        answers(r, resolved(*args, *w, sessions@)),
{
    let session = opt_str(args, "sessionId");
    match select_signed(args, "browser") {
        Some(n) => {
            let id: i32 = #[verifier::truncate]
            (n as i32);
            return resolve_browser(w, id, session);
        },
        None => {},
    }
    match select_text(args, "surface") {
        Some(host) => {
            return resolve_surface(w, host, session);
        },
        None => {},
    }
    match select_unsigned(args, "tab") {
        Some(tab) => {
            return resolve_tab(w, tab, session);
        },
        None => {},
    }
    match select_text(args, "targetId") {
        Some(id) => {
            return resolve_target(w, sessions, id, session);
        },
        None => {},
    }
    match select_text(args, "match") {
        Some(needle) => {
            return resolve_address(w, needle, session);
        },
        None => {},
    }
    Err(invalid("target takes one of surface, tab, targetId or match"))
}

/// A target that no session was attached to, and that no session is named for, is refused: nothing else
/// answers in its place.
pub proof fn a_lost_target_is_refused(args: Json, w: World, sessions: Seq<Session>, id: Seq<char>)
    requires
        selected_signed(args, "browser"@) is None,
        selected_text(args, "surface"@) is None,
        selected_unsigned(args, "tab"@) is None,
        selected_text(args, "targetId"@) == Some(id),
        session_at(sessions, id, 0) is None,
        text_of_arg(args, "sessionId"@) is None,
    ensures
        resolved(args, w, sessions) is Err,
{
}

/// What a browser is for.
pub enum Role {
    Surface { host: String },
    Tab { tab: u64 },
    DevTools { tab: u64 },
    ExtensionPopup,
    Other,
}

/// What a browser is for, in words.
pub open spec fn role_name(role: Role) -> Seq<char> {
    match role {
        Role::Surface { host } => "surface:"@ + host@,
        Role::Tab { tab } => "tab:"@ + decimal(tab as nat),
        Role::DevTools { tab } => "devtools:"@ + decimal(tab as nat),
        Role::ExtensionPopup => "extensionPopup"@,
        Role::Other => "other"@,
    }
}

/// What a browser is for, in words.
pub fn role_of(role: &Role) -> (r: String)
    ensures
        r@ == role_name(*role),
{
    match role {
        Role::Surface { host } => join2("surface:", host.as_str()),
        Role::Tab { tab } => join2("tab:", decimal_text(*tab).as_str()),
        Role::DevTools { tab } => join2("devtools:", decimal_text(*tab).as_str()),
        Role::ExtensionPopup => copy_text("extensionPopup"),
        Role::Other => copy_text("other"),
    }
}

// ------------------------------------------------------------------------------ evaluating

/// A target, and a text argument that must be there.
pub open spec fn targeted(args: Json, w: World, sessions: Seq<Session>, key: Seq<char>) -> Result<(TargetModel, Seq<char>), Failure> {
    match resolved(args, w, sessions) {
        Err(e) => Err(e),
        Ok(target) => match text_of_arg(args, key) {
            Some(text) => Ok((target, text)),
            None => Err(failure(ErrorCode::InvalidArguments, key + " (a string) is required"@)),
        },
    }
}

fn resolve_with(args: &Json, w: &World, sessions: &Vec<Session>, key: &str) -> (r: Result<(Target, String), ToolError>)
    ensures
        match r {
            Ok((target, text)) => targeted(*args, *w, sessions@, key@) == Ok::<(TargetModel, Seq<char>), Failure>((target@, text@)),
            Err(e) => targeted(*args, *w, sessions@, key@) == Err::<(TargetModel, Seq<char>), Failure>(e@),
        },
{
    match resolve(args, w, sessions) {
        Err(e) => Err(e),
        Ok(target) => match str_arg(args, key) {
            Ok(text) => Ok((target, text)),
            Err(e) => Err(e),
        },
    }
}

/// The parameters of an evaluation.
pub open spec fn evaluate_params(args: Json, expression: Seq<char>) -> Seq<char> {
    "{\"awaitPromise\":"@ + truth_spelled(truth_of_arg(args, "awaitPromise"@, true)) + ",\"expression\":"@ + json_quoted(expression)
        + ",\"returnByValue\":"@ + truth_spelled(truth_of_arg(args, "returnByValue"@, true)) + ",\"userGesture\":"@ + truth_spelled(
        truth_of_arg(args, "userGesture"@, false),
    ) + "}"@
}

/// The parameters of an evaluation.
pub fn evaluate(args: &Json, expression: &str) -> (r: String)
    ensures
        r@ == evaluate_params(*args, expression@),
{
    let mut out = join2("{\"awaitPromise\":", truth_text(bool_arg(args, "awaitPromise", true)));
    out.append(",\"expression\":");
    out.append(json_string(expression).as_str());
    out.append(",\"returnByValue\":");
    out.append(truth_text(bool_arg(args, "returnByValue", true)));
    out.append(",\"userGesture\":");
    out.append(truth_text(bool_arg(args, "userGesture", false)));
    out.append("}");
    out
}

/// What is evaluated, and where: the target, and the parameters of `Runtime.evaluate`.
pub fn eval(args: &Json, w: &World, sessions: &Vec<Session>) -> (r: Result<(Target, String), ToolError>)
    ensures
        match r {
            Ok((target, params)) => match targeted(*args, *w, sessions@, "expression"@) {
                Ok((wanted, expression)) => target@ == wanted && params@ == evaluate_params(*args, expression),
                Err(_) => false,
            },
            Err(e) => targeted(*args, *w, sessions@, "expression"@) == Err::<(TargetModel, Seq<char>), Failure>(e@),
        },
{
    match resolve_with(args, w, sessions, "expression") {
        Ok((target, expression)) => {
            let params = evaluate(args, expression.as_str());
            Ok((target, params))
        },
        Err(e) => Err(e),
    }
}

/// What an evaluation came to.
pub enum Shaped {
    /// `undefined` has no value, and must not become `null`.
    Undefined,
    /// It threw: what that says, and the stack as JSON.
    Threw { text: String, stack: String },
    /// Its value as JSON.
    Value { value: String },
}

/// What an evaluation came to, as mathematics.
#[verifier::ext_equal]
pub enum Outcome {
    Undefined,
    Threw { text: Seq<char>, stack: Seq<char> },
    Value { value: Seq<char> },
}

impl View for Shaped {
    type V = Outcome;

    open spec fn view(&self) -> Outcome {
        match self {
            Shaped::Undefined => Outcome::Undefined,
            Shaped::Threw { text, stack } => Outcome::Threw { text: text@, stack: stack@ },
            Shaped::Value { value } => Outcome::Value { value: value@ },
        }
    }
}

/// What an exception says. `details`: DevTools' words of it, as JSON.
pub open spec fn thrown_text(details: Seq<char>) -> Seq<char> {
    match member_spelled(details, "exception"@) {
        Some(exception) => match string_member(exception, "description"@) {
            Some(t) => t,
            None => thrown_plainly(details),
        },
        None => thrown_plainly(details),
    }
}

/// What an exception without a description says.
pub open spec fn thrown_plainly(details: Seq<char>) -> Seq<char> {
    match string_member(details, "text"@) {
        Some(t) => t,
        None => "uncaught exception"@,
    }
}

/// The string that is a member of a member.
pub open spec fn inner_string(text: Seq<char>, outer: Seq<char>, key: Seq<char>) -> Option<Seq<char>> {
    match inner_spelled(text, outer, key) {
        Some(s) => string_spelled(s),
        None => None,
    }
}

/// What an evaluation came to. `result`: its answer, as JSON.
pub open spec fn outcome(result: Seq<char>) -> Outcome {
    match member_spelled(result, "exceptionDetails"@) {
        Some(details) => Outcome::Threw { text: thrown_text(details), stack: member_or(details, "stackTrace"@, "null"@) },
        None => if inner_string(result, "result"@, "type"@) == Some("undefined"@) {
            Outcome::Undefined
        } else {
            Outcome::Value {
                value: match inner_spelled(result, "result"@, "value"@) {
                    Some(v) => v,
                    None => "null"@,
                },
            }
        },
    }
}

fn thrown(details: &str) -> (r: String)
    ensures
        r@ == thrown_text(details@),
{
    let described = match member_text(details, "exception") {
        Some(exception) => member_string(exception.as_str(), "description"),
        None => None,
    };
    match described {
        Some(t) => t,
        None => match member_string(details, "text") {
            Some(t) => t,
            None => copy_text("uncaught exception"),
        },
    }
}

/// What an evaluation came to. `result`: its answer, as JSON.
pub fn shape_evaluate(result: &str) -> (r: Shaped)
    ensures
        r@ == outcome(result@),
{
    match member_text(result, "exceptionDetails") {
        Some(details) => Shaped::Threw { text: thrown(details.as_str()), stack: member_text_or(details.as_str(), "stackTrace", "null") },
        None => {
            let kind = match inner_text(result, "result", "type") {
                Some(t) => string_text(t.as_str()),
                None => None,
            };
            match kind {
                Some(k) => {
                    if same_text(k.as_str(), "undefined") {
                        return Shaped::Undefined;
                    }
                },
                None => {},
            }
            match inner_text(result, "result", "value") {
                Some(value) => Shaped::Value { value },
                None => Shaped::Value { value: copy_text("null") },
            }
        },
    }
}

/// What was thrown, as JSON.
pub open spec fn thrown_spelled(text: Seq<char>, stack: Seq<char>) -> Seq<char> {
    "{\"stack\":"@ + stack + ",\"text\":"@ + json_quoted(text) + "}"@
}

fn thrown_json(text: &str, stack: &str) -> (r: String)
    ensures
        r@ == thrown_spelled(text@, stack@),
{
    let mut r = join3("{\"stack\":", stack, ",\"text\":");
    r.append(json_string(text).as_str());
    r.append("}");
    r
}

/// What an evaluation came to, as JSON.
pub open spec fn outcome_spelled(o: Outcome) -> Seq<char> {
    match o {
        Outcome::Undefined => "{}"@,
        Outcome::Threw { text, stack } => "{\"error\":"@ + thrown_spelled(text, stack) + "}"@,
        Outcome::Value { value } => "{\"value\":"@ + value + "}"@,
    }
}

/// The answer of an evaluation. `what`: where it ran; `result`: what DevTools answered, as JSON.
pub fn eval_answer(what: &str, result: &str) -> (r: Output)
    ensures
        r@ == told("evaluated in "@ + what@, outcome_spelled(outcome(result@))),
{
    let data = match shape_evaluate(result) {
        Shaped::Undefined => copy_text("{}"),
        Shaped::Threw { text, stack } => join3("{\"error\":", thrown_json(text.as_str(), stack.as_str()).as_str(), "}"),
        Shaped::Value { value } => join3("{\"value\":", value.as_str(), "}"),
    };
    out(join2("evaluated in ", what), data)
}

/// The expression that calls the bridge inside a page. `payload`: the argument, as JSON.
pub open spec fn invocation(command: Seq<char>, payload: Seq<char>) -> Seq<char> {
    "window.sta.invoke("@ + json_quoted(command) + ", "@ + payload
        + ").then(function (r) { return { ok: r }; }, function (e) { return { err: e.code, msg: e.message }; })"@
}

/// A call of the bridge inside a page, with what became of it. `payload`: the argument, as JSON.
pub fn invoke_expression(command: &str, payload: &str) -> (r: String)
    ensures
        r@ == invocation(command@, payload@),
{
    let mut out = join3("window.sta.invoke(", json_string(command).as_str(), ", ");
    out.append(payload);
    out.append(").then(function (r) { return { ok: r }; }, function (e) { return { err: e.code, msg: e.message }; })");
    out
}

/// What is called of the bridge, and where: the target, the command, and the parameters of
/// `Runtime.evaluate`. `text`: the arguments as JSON.
pub fn invoke(args: &Json, text: &str, w: &World, sessions: &Vec<Session>) -> (r: Result<(Target, String, String), ToolError>)
    ensures
        match r {
            Ok((target, command, params)) => targeted(*args, *w, sessions@, "cmd"@) == Ok::<(TargetModel, Seq<char>), Failure>(
                (target@, command@),
            ) && params@ == evaluate_params(*args, invocation(command@, member_or(text@, "payload"@, "null"@))),
            Err(e) => targeted(*args, *w, sessions@, "cmd"@) == Err::<(TargetModel, Seq<char>), Failure>(e@),
        },
{
    match resolve_with(args, w, sessions, "cmd") {
        Ok((target, command)) => {
            let payload = member_text_or(text, "payload", "null");
            let expression = invoke_expression(command.as_str(), payload.as_str());
            let params = evaluate(args, expression.as_str());
            Ok((target, command, params))
        },
        Err(e) => Err(e),
    }
}

/// What a call of the bridge came to: its value is handed on (`null` for none), and what it threw is a
/// failure.
pub open spec fn invoked(command: Seq<char>, what: Seq<char>, o: Outcome) -> Result<Told, Failure> {
    match o {
        Outcome::Threw { text, stack } => Err(
            failure(
                ErrorCode::ScriptError,
                "window.sta.invoke("@ + command + ") failed in "@ + what + ": "@ + thrown_spelled(text, stack),
            ),
        ),
        Outcome::Value { value } => Ok(told(command + " in "@ + what, value)),
        Outcome::Undefined => Ok(told(command + " in "@ + what, "null"@)),
    }
}

/// The answer of a call of the bridge. `result`: what DevTools answered, as JSON.
pub fn invoke_answer(command: &str, what: &str, result: &str) -> (r: Result<Output, ToolError>)
    ensures
        match r {
            Ok(o) => invoked(command@, what@, outcome(result@)) == Ok::<Told, Failure>(o@),
            Err(e) => invoked(command@, what@, outcome(result@)) == Err::<Told, Failure>(e@),
        },
{
    match shape_evaluate(result) {
        Shaped::Threw { text, stack } => Err(invoke_failed(command, what, thrown_json(text.as_str(), stack.as_str()).as_str())),
        Shaped::Value { value } => Ok(out(join3(command, " in ", what), value)),
        Shaped::Undefined => Ok(out(join3(command, " in ", what), copy_text("null"))),
    }
}

/// A call of the bridge that threw. `error`: what was thrown, as JSON.
pub fn invoke_failed(command: &str, what: &str, error: &str) -> (r: ToolError)
    ensures
        r@ == failure(ErrorCode::ScriptError, "window.sta.invoke("@ + command@ + ") failed in "@ + what@ + ": "@ + error@),
{
    let mut message = join3("window.sta.invoke(", command, ") failed in ");
    message.append(what);
    message.append(": ");
    message.append(error);
    ToolError { code: ErrorCode::ScriptError, message }
}

/// What attaching to a target gave: its session, and what is said of it. `answer`: what DevTools answered,
/// as JSON.
pub open spec fn attached_to(target: Seq<char>, browser: i32, answer: Seq<char>) -> Result<(Seq<char>, Told), Failure> {
    match string_member(answer, "sessionId"@) {
        Some(session) => Ok(
            (
                session,
                told(
                    "attached to "@ + target,
                    "{\"browser\":"@ + signed_decimal(browser as int) + ",\"sessionId\":"@ + json_quoted(session) + ",\"targetId\":"@
                        + json_quoted(target) + "}"@,
                ),
            ),
        ),
        None => Err(failure(ErrorCode::Internal, "Target.attachToTarget("@ + target + ") returned no sessionId"@)),
    }
}

/// The session that attaching to a target gave (it is to be remembered, see [`remember`]), and the answer.
pub fn attach_answer(target: &str, browser: i32, answer: &str) -> (r: Result<(String, Output), ToolError>)
    ensures
        match r {
            Ok((session, o)) => attached_to(target@, browser, answer@) == Ok::<(Seq<char>, Told), Failure>((session@, o@)),
            Err(e) => attached_to(target@, browser, answer@) == Err::<(Seq<char>, Told), Failure>(e@),
        },
{
    match member_string(answer, "sessionId") {
        Some(session) => {
            let mut data = join3("{\"browser\":", signed_text(browser as i64).as_str(), ",\"sessionId\":");
            data.append(json_string(session.as_str()).as_str());
            data.append(",\"targetId\":");
            data.append(json_string(target).as_str());
            data.append("}");
            Ok((session, out(join2("attached to ", target), data)))
        },
        None => Err(err(ErrorCode::Internal, join3("Target.attachToTarget(", target, ") returned no sessionId").as_str())),
    }
}

/// The browser whose session attaches: that of the target that is named, or the shell's.
pub open spec fn attaching(args: Json, w: World, sessions: Seq<Session>) -> Result<i32, Failure> {
    match args.member("target"@) {
        Some(t) => if t is Null {
            shell_of(w)
        } else {
            match resolved(args, w, sessions) {
                Ok(target) => Ok(target.browser),
                Err(e) => Err(e),
            }
        },
        None => shell_of(w),
    }
}

/// The browser of the shell.
pub open spec fn shell_of(w: World) -> Result<i32, Failure> {
    match w.topbar {
        Some(id) => Ok(id),
        None => Err(failure(ErrorCode::BrowserNotRunning, "the shell has no topbar browser (starting up or shutting down)"@)),
    }
}

/// The target that is attached to, and the browser whose session attaches.
pub open spec fn attachment(args: Json, w: World, sessions: Seq<Session>) -> Result<(Seq<char>, i32), Failure> {
    match text_of_arg(args, "targetId"@) {
        None => Err(failure(ErrorCode::InvalidArguments, "targetId"@ + " (a string) is required"@)),
        Some(target) => match attaching(args, w, sessions) {
            Ok(browser) => Ok((target, browser)),
            Err(e) => Err(e),
        },
    }
}

/// The target that is attached to, and the browser whose session attaches.
pub fn attach(args: &Json, w: &World, sessions: &Vec<Session>) -> (r: Result<(String, i32), ToolError>)
    ensures
        match r {
            Ok((target, browser)) => attachment(*args, *w, sessions@) == Ok::<(Seq<char>, i32), Failure>((target@, browser)),
            Err(e) => attachment(*args, *w, sessions@) == Err::<(Seq<char>, i32), Failure>(e@),
        },
{
    match str_arg(args, "targetId") {
        Ok(target) => match attach_browser(args, w, sessions) {
            Ok(browser) => Ok((target, browser)),
            Err(e) => Err(e),
        },
        Err(e) => Err(e),
    }
}

fn attach_browser(args: &Json, w: &World, sessions: &Vec<Session>) -> (r: Result<i32, ToolError>)
    ensures
        match r {
            Ok(id) => attaching(*args, *w, sessions@) == Result::<i32, Failure>::Ok(id),
            Err(e) => attaching(*args, *w, sessions@) == Result::<i32, Failure>::Err(e@),
        },
{
    match args.get("target") {
        Some(Json::Null) => shell_browser(w.topbar),
        Some(_) => match resolve(args, w, sessions) {
            Ok(target) => Ok(target.browser),
            Err(e) => Err(e),
        },
        None => shell_browser(w.topbar),
    }
}

/// The parameters of `Target.attachToTarget`: a flattened session.
pub fn attach_params(target: &str) -> (r: String)
    ensures
        r@ == "{\"flatten\":true,\"targetId\":"@ + json_quoted(target@) + "}"@,
{
    join3("{\"flatten\":true,\"targetId\":", json_string(target).as_str(), "}")
}

/// A target could not be attached to.
pub fn attach_failed(target: &str, error: &str) -> (r: ToolError)
    ensures
        r@ == failure(ErrorCode::NoSuchTarget, "Target.attachToTarget("@ + target@ + ") failed: "@ + error@),
{
    let mut message = join3("Target.attachToTarget(", target, ") failed: ");
    message.append(error);
    ToolError { code: ErrorCode::NoSuchTarget, message }
}

/// A script could not be run.
pub fn evaluate_failed(what: &str, error: &str) -> (r: ToolError)
    ensures
        r@ == failure(ErrorCode::Internal, "Runtime.evaluate in "@ + what@ + " failed: "@ + error@),
{
    let mut message = join3("Runtime.evaluate in ", what, " failed: ");
    message.append(error);
    ToolError { code: ErrorCode::Internal, message }
}

/// The parameters of any DevTools method, out of the arguments as JSON: an empty object where none are
/// given.
pub open spec fn method_params(args: Seq<char>) -> Seq<char> {
    match member_spelled(args, "params"@) {
        Some(p) => if p == "null"@ { "{}"@ } else { p },
        None => "{}"@,
    }
}

/// Which DevTools method is called, and where: the target, the method and its parameters. `text`: the
/// arguments as JSON.
pub fn cdp(args: &Json, text: &str, w: &World, sessions: &Vec<Session>) -> (r: Result<(Target, String, String), ToolError>)
    ensures
        match r {
            Ok((target, method, params)) => targeted(*args, *w, sessions@, "method"@) == Ok::<(TargetModel, Seq<char>), Failure>(
                (target@, method@),
            ) && params@ == method_params(text@),
            Err(e) => targeted(*args, *w, sessions@, "method"@) == Err::<(TargetModel, Seq<char>), Failure>(e@),
        },
{
    match resolve_with(args, w, sessions, "method") {
        Ok((target, method)) => {
            let params = cdp_params(text);
            Ok((target, method, params))
        },
        Err(e) => Err(e),
    }
}

/// The answer of a DevTools method: what it gave or why it failed, and how many milliseconds that took.
/// `result`: what it gave as JSON, or the error.
pub fn cdp_answer(method: &str, what: &str, result: Result<&str, &str>, ms: u64) -> (r: Output)
    ensures
        r@ == told(
            method@ + " on "@ + what@ + " ("@ + decimal(ms as nat) + " ms)"@,
            match result {
                Ok(value) => "{\"ms\":"@ + decimal(ms as nat) + ",\"result\":"@ + value@ + "}"@,
                Err(error) => "{\"error\":"@ + json_quoted(error@) + ",\"ms\":"@ + decimal(ms as nat) + "}"@,
            },
        ),
{
    let took = decimal_text(ms);
    let mut data = match result {
        Ok(value) => {
            let mut data = join3("{\"ms\":", took.as_str(), ",\"result\":");
            data.append(value);
            data
        },
        Err(error) => {
            let mut data = join3("{\"error\":", json_string(error).as_str(), ",\"ms\":");
            data.append(took.as_str());
            data
        },
    };
    data.append("}");
    out(cdp_summary(method, what, ms), data)
}

/// The parameters of any DevTools method, out of the arguments as JSON.
pub fn cdp_params(args: &str) -> (r: String)
    ensures
        r@ == method_params(args@),
{
    match member_text(args, "params") {
        Some(p) => if same_text(p.as_str(), "null") {
            copy_text("{}")
        } else {
            p
        },
        None => copy_text("{}"),
    }
}

/// What is said of a DevTools method that was answered.
pub fn cdp_summary(method: &str, what: &str, ms: u64) -> (r: String)
    ensures
        r@ == method@ + " on "@ + what@ + " ("@ + decimal(ms as nat) + " ms)"@,
{
    let mut out = join3(method, " on ", what);
    out.append(" (");
    out.append(decimal_text(ms).as_str());
    out.append(" ms)");
    out
}

/// Whose events are read, and whether they are forgotten then.
pub fn cdp_events(args: &Json, w: &World, sessions: &Vec<Session>) -> (r: Result<(Target, bool), ToolError>)
    ensures
        match r {
            Ok((target, clear)) => resolved(*args, *w, sessions@) == Ok::<TargetModel, Failure>(target@) && clear == truth_of_arg(
                *args,
                "clear"@,
                false,
            ),
            Err(e) => resolved(*args, *w, sessions@) == Err::<TargetModel, Failure>(e@),
        },
{
    match resolve(args, w, sessions) {
        Ok(target) => Ok((target, bool_arg(args, "clear", false))),
        Err(e) => Err(e),
    }
}

/// An event as JSON.
pub open spec fn event_spelled(e: EventModel) -> Seq<char> {
    "{\"method\":"@ + json_quoted(e.method) + ",\"params\":"@ + json_quoted(e.params) + ",\"sessionId\":"@ + e.session + "}"@
}

/// An event as JSON.
pub fn event_text(e: &Event) -> (r: String)
    ensures
        r@ == event_spelled(e@),
{
    let mut r = join3("{\"method\":", json_string(e.method.as_str()).as_str(), ",\"params\":");
    r.append(json_string(e.params.as_str()).as_str());
    r.append(",\"sessionId\":");
    r.append(e.session.as_str());
    r.append("}");
    r
}

/// The answer about the events of a target. `events`: each as JSON.
pub fn events_answer(what: &str, events: &Vec<String>) -> (r: Output)
    ensures
        r@ == told(decimal(events@.len()) + " event(s) of "@ + what@, "{\"events\":"@ + list_of(text_views(events@)) + "}"@),
{
    out(
        join3(decimal_text(events.len() as u64).as_str(), " event(s) of ", what),
        join3("{\"events\":", write_list(events).as_str(), "}"),
    )
}

/// The events of a target: this client's own, or (while it has none) the agent's.
pub fn pick_events<E>(own: Vec<E>, agent: Vec<E>) -> (r: Vec<E>)
    ensures
        r == (if own@.len() == 0 { agent } else { own }),
{
    if own.len() == 0 { agent } else { own }
}

/// A target as it is listed. One of the shell's own browsers has a browser number and a role; one that
/// DevTools found has a target id. Id, kind and title are JSON texts: what DevTools says of them is handed
/// on as it is.
pub struct Listed {
    pub id: String,
    pub browser: Option<i32>,
    pub kind: String,
    pub url: String,
    pub title: Option<String>,
    pub role: String,
}

/// A browser of the shell, as it is listed.
pub open spec fn lists_browser(l: Listed, b: LiveBrowser, role: Seq<char>) -> bool {
    &&& l.id@ == json_quoted("browser:"@ + signed_decimal(b.id as int))
    &&& l.browser == Some(b.id)
    &&& l.kind@ == json_quoted("page"@)
    &&& l.url@ == b.url@
    &&& l.title is None
    &&& l.role@ == role
}

/// A target that DevTools found, as it is listed: `info` is what DevTools says of it, as JSON text.
pub open spec fn lists_found(l: Listed, info: Seq<char>) -> bool {
    &&& l.id@ == member_or(info, "targetId"@, "null"@)
    &&& l.browser is None
    &&& l.kind@ == member_or(info, "type"@, "null"@)
    &&& l.url@ == (match string_member(info, "url"@) {
        Some(url) => url,
        None => ""@,
    })
    &&& opt_text(l.title) == Some(member_or(info, "title"@, "null"@))
    &&& l.role@ == "cdp"@
}

/// What DevTools found, in its answer to `Target.getTargets`.
pub open spec fn found_in(answer: Option<Seq<char>>) -> Seq<Seq<char>> {
    match answer {
        Some(a) => match member_spelled(a, "targetInfos"@) {
            Some(list) => match items_spelled(list) {
                Some(infos) => infos,
                None => Seq::empty(),
            },
            None => Seq::empty(),
        },
        None => Seq::empty(),
    }
}

fn found(answer: Option<&str>) -> (r: Vec<String>)
    ensures
        text_views(r@) == found_in(opt_view(answer)),
{
    let list = match answer {
        Some(a) => match member_text(a, "targetInfos") {
            Some(list) => item_texts(list.as_str()),
            None => None,
        },
        None => None,
    };
    match list {
        Some(infos) => infos,
        None => {
            let none: Vec<String> = Vec::new();
            proof {
                assert(text_views(none@) =~= Seq::empty());
            }
            none
        },
    }
}

fn list_found(info: &str) -> (r: Listed)
    ensures
        lists_found(r, info@),
{
    let url = member_string(info, "url");
    Listed {
        id: member_text_or(info, "targetId", "null"),
        browser: None,
        kind: member_text_or(info, "type", "null"),
        url: match url {
            Some(u) => u,
            None => copy_text(""),
        },
        title: Some(member_text_or(info, "title", "null")),
        role: copy_text("cdp"),
    }
}

/// The targets: the shell's own browsers with their roles, then what DevTools found (`answer`: its answer
/// as JSON text; `None` where it was not asked, or did not answer).
pub fn targets(live: &Vec<LiveBrowser>, roles: &Vec<Role>, answer: Option<&str>) -> (r: Vec<Listed>)
    requires
        roles@.len() == live@.len(),
    ensures
        ({
            let infos = found_in(opt_view(answer));
            &&& r@.len() == live@.len() + infos.len()
            &&& forall|i: int| 0 <= i < live@.len() ==> lists_browser(#[trigger] r@[i], live@[i], role_name(roles@[i]))
            &&& forall|i: int| 0 <= i < infos.len() ==> lists_found(#[trigger] r@[live@.len() + i], infos[i])
        }),
{
    let mut out: Vec<Listed> = Vec::new();
    while out.len() < live.len()
        invariant
            out@.len() <= live@.len(),
            roles@.len() == live@.len(),
            forall|i: int| 0 <= i < out@.len() ==> lists_browser(#[trigger] out@[i], live@[i], role_name(roles@[i])),
        decreases live@.len() - out@.len(),
    {
        let i: usize = out.len();
        let id: i32 = live[i].id;
        let number = signed_text(id as i64);
        out.push(
            Listed {
                id: json_string(join2("browser:", number.as_str()).as_str()),
                browser: Some(id),
                kind: json_string("page"),
                url: copy_text(live[i].url.as_str()),
                title: None,
                role: role_of(&roles[i]),
            },
        );
    }
    let infos = found(answer);
    let mut k: usize = 0;
    while k < infos.len()
        invariant
            k <= infos@.len(),
            out@.len() == live@.len() + k,
            forall|i: int| 0 <= i < live@.len() ==> lists_browser(#[trigger] out@[i], live@[i], role_name(roles@[i])),
            forall|i: int| 0 <= i < k ==> lists_found(#[trigger] out@[live@.len() + i], infos@[i]@),
        decreases infos@.len() - k,
    {
        out.push(list_found(infos[k].as_str()));
        k = k + 1;
    }
    out
}

/// Whether DevTools is asked for targets too, and by which browser.
pub fn targets_asker(args: &Json, w: &World) -> (r: Result<Option<i32>, ToolError>)
    ensures
        match r {
            Ok(Some(shell)) => truth_of_arg(*args, "cdp"@, true) && shell_of(*w) == Ok::<i32, Failure>(shell),
            Ok(None) => !truth_of_arg(*args, "cdp"@, true),
            Err(e) => truth_of_arg(*args, "cdp"@, true) && shell_of(*w) == Err::<i32, Failure>(e@),
        },
{
    if !bool_arg(args, "cdp", true) {
        return Ok(None);
    }
    match shell_browser(w.topbar) {
        Ok(shell) => Ok(Some(shell)),
        Err(e) => Err(e),
    }
}

/// A target as it is listed, as JSON.
pub open spec fn listed_spelled(l: Listed) -> Seq<char> {
    match l.browser {
        Some(browser) => "{\"browser\":"@ + signed_decimal(browser as int) + ",\"id\":"@ + l.id@ + ",\"role\":"@ + json_quoted(l.role@)
            + ",\"type\":"@ + l.kind@ + ",\"url\":"@ + json_quoted(l.url@) + "}"@,
        None => "{\"browser\":null,\"id\":"@ + l.id@ + ",\"role\":"@ + json_quoted(l.role@) + ",\"targetId\":"@ + l.id@ + ",\"title\":"@
            + (match l.title {
            Some(title) => title@,
            None => "null"@,
        }) + ",\"type\":"@ + l.kind@ + ",\"url\":"@ + json_quoted(l.url@) + "}"@,
    }
}

fn listed_text(l: &Listed) -> (r: String)
    ensures
        r@ == listed_spelled(*l),
{
    let mut r = match l.browser {
        Some(browser) => {
            let mut r = join3("{\"browser\":", signed_text(browser as i64).as_str(), ",\"id\":");
            r.append(l.id.as_str());
            r.append(",\"role\":");
            r.append(json_string(l.role.as_str()).as_str());
            r
        },
        None => {
            let mut r = join3("{\"browser\":null,\"id\":", l.id.as_str(), ",\"role\":");
            r.append(json_string(l.role.as_str()).as_str());
            r.append(",\"targetId\":");
            r.append(l.id.as_str());
            r.append(",\"title\":");
            match &l.title {
                Some(title) => {
                    r.append(title.as_str());
                },
                None => {
                    r.append("null");
                },
            }
            r
        },
    };
    r.append(",\"type\":");
    r.append(l.kind.as_str());
    r.append(",\"url\":");
    r.append(json_string(l.url.as_str()).as_str());
    r.append("}");
    r
}

/// The targets as they are listed, as JSON.
pub open spec fn listed_texts(list: Seq<Listed>) -> Seq<Seq<char>> {
    Seq::new(list.len(), |i: int| listed_spelled(list[i]))
}

/// The answer about the targets.
pub fn targets_answer(list: &Vec<Listed>) -> (r: Output)
    ensures
        r@ == told(decimal(list@.len()) + " target(s)"@, list_of(listed_texts(list@))),
{
    let mut texts: Vec<String> = Vec::new();
    while texts.len() < list.len()
        invariant
            texts@.len() <= list@.len(),
            forall|i: int| 0 <= i < texts@.len() ==> (#[trigger] texts@[i])@ == listed_spelled(list@[i]),
        decreases list@.len() - texts@.len(),
    {
        let i: usize = texts.len();
        texts.push(listed_text(&list[i]));
    }
    proof {
        assert(text_views(texts@) =~= listed_texts(list@));
    }
    out(join2(decimal_text(list.len() as u64).as_str(), " target(s)"), write_list(&texts))
}

// ------------------------------------------------------------------------------ the client

/// The first number of a message; those below are for the other two clients.
pub const ID_BASE: i32 = 0x7000_0000;

/// The last number of a message.
pub const ID_MAX: i32 = 0x7FFF_FFFE;

/// The events that are kept.
pub const MAX_EVENTS: usize = 200;

/// The bytes of an event's parameters that are kept.
pub const MAX_PARAMS: usize = 2000;

/// Messages that are longer are not read.
pub const MAX_MESSAGE: usize = 0x400_0000;

/// An event that came.
pub struct Event {
    pub method: String,
    /// Its parameters as JSON, cut off.
    pub params: String,
    /// Its session as JSON text (`null`: it has none).
    pub session: String,
}

/// An event that came, as mathematics.
#[verifier::ext_equal]
pub struct EventModel {
    pub method: Seq<char>,
    pub params: Seq<char>,
    pub session: Seq<char>,
}

impl View for Event {
    type V = EventModel;

    open spec fn view(&self) -> EventModel {
        EventModel { method: self.method@, params: self.params@, session: self.session@ }
    }
}

/// Every event by its view.
pub open spec fn event_views(s: Seq<Event>) -> Seq<EventModel> {
    s.map_values(|e: Event| e@)
}

/// The client of one browser.
pub struct Client {
    pub next_id: i32,
    /// The messages whose replies are waited for.
    pub pending: Vec<i32>,
    /// Oldest first.
    pub events: Vec<Event>,
}

/// The client of one browser, as mathematics.
#[verifier::ext_equal]
pub struct ClientModel {
    pub next_id: i32,
    pub pending: Seq<i32>,
    pub events: Seq<EventModel>,
}

impl View for Client {
    type V = ClientModel;

    open spec fn view(&self) -> ClientModel {
        ClientModel { next_id: self.next_id, pending: self.pending@, events: event_views(self.events@) }
    }
}

/// The clients, and the sessions that were attached.
pub struct Clients {
    pub clients: HashMap<i32, Client>,
    pub sessions: Vec<Session>,
}

impl Clients {
    pub fn new() -> (r: Clients)
        ensures
            r.clients@ == Map::<i32, Client>::empty(),
            r.sessions@.len() == 0,
            r.valid(),
    {
        Clients { clients: HashMap::new(), sessions: Vec::new() }
    }

    /// Every client numbers its messages in its own range and keeps no more events than are wanted.
    pub open spec fn valid(self) -> bool {
        forall|b: i32| #[trigger] self.clients@.contains_key(b) ==> client_valid(self.clients@[b]@)
    }

    /// The client of a browser.
    pub open spec fn client(self, browser: i32) -> Option<ClientModel> {
        if self.clients@.contains_key(browser) { Some(self.clients@[browser]@) } else { None }
    }

    /// Only the client of this browser may differ.
    pub open spec fn differs_at(self, other: Clients, browser: i32) -> bool {
        self.clients@.remove(browser) == other.clients@.remove(browser) && self.sessions == other.sessions
    }
}

/// A client numbers its messages in its own range and keeps no more events than are wanted.
pub open spec fn client_valid(c: ClientModel) -> bool {
    ID_BASE <= c.next_id <= ID_MAX && c.events.len() <= MAX_EVENTS
}

/// A client that was not used yet.
pub open spec fn new_client() -> ClientModel {
    ClientModel { next_id: ID_BASE, pending: Seq::empty(), events: Seq::empty() }
}

/// The number after this one; after the last comes the first.
pub open spec fn id_after(id: i32) -> i32 {
    if id >= ID_MAX { ID_BASE } else { (id + 1) as i32 }
}

/// A list with a number in it, once.
pub open spec fn with_id(s: Seq<i32>, id: i32) -> Seq<i32> {
    if s.contains(id) { s } else { s.push(id) }
}

/// A list without a number, from position `i` on.
pub open spec fn without_id(s: Seq<i32>, id: i32, i: int) -> Seq<i32>
    decreases s.len() - i,
{
    if i < 0 || i >= s.len() {
        Seq::empty()
    } else if s[i] == id {
        without_id(s, id, i + 1)
    } else {
        seq![s[i]] + without_id(s, id, i + 1)
    }
}

fn lists_id(v: &Vec<i32>, id: i32) -> (r: bool)
    ensures
        r == v@.contains(id),
{
    let mut i: usize = 0;
    while i < v.len()
        invariant
            i <= v@.len(),
            forall|k: int| 0 <= k < i ==> v@[k] != id,
        decreases v@.len() - i,
    {
        if v[i] == id {
            return true;
        }
        i = i + 1;
    }
    false
}

fn drop_id(v: &Vec<i32>, id: i32) -> (r: Vec<i32>)
    ensures
        r@ == without_id(v@, id, 0),
{
    let total: usize = v.len();
    let mut out: Vec<i32> = Vec::new();
    let mut i: usize = 0;
    let ghost whole = without_id(v@, id, 0);
    proof {
        assert(out@ + whole =~= whole);
    }
    while i < total
        invariant
            i <= total,
            total == v@.len(),
            whole == out@ + without_id(v@, id, i as int),
        decreases total - i,
    {
        if v[i] != id {
            let ghost before = out@;
            out.push(v[i]);
            proof {
                assert(before + (seq![v@[i as int]] + without_id(v@, id, i + 1)) =~= out@ + without_id(v@, id, i + 1));
            }
        }
        i = i + 1;
    }
    proof {
        assert(out@ + Seq::<i32>::empty() =~= out@);
    }
    out
}

fn put_client(state: &mut Clients, browser: i32, c: Client)
    requires
        old(state).valid(),
        client_valid(c@),
    ensures
        final(state).valid(),
        final(state).client(browser) == Some(c@),
        final(state).clients@ == old(state).clients@.insert(browser, c),
        final(state).sessions == old(state).sessions,
{
    state.clients.insert(browser, c);
}

/// A client for a browser; one that is there stays.
pub fn ensure(state: &mut Clients, browser: i32)
    requires
        old(state).valid(),
    ensures
        final(state).valid(),
        final(state).differs_at(*old(state), browser),
        final(state).client(browser) == (match old(state).client(browser) {
            Some(c) => Some(c),
            None => Some(new_client()),
        }),
{
    if state.clients.contains_key(&browser) {
        return;
    }
    let c = Client { next_id: ID_BASE, pending: Vec::new(), events: Vec::new() };
    proof {
        assert(c@ =~= new_client());
    }
    put_client(state, browser, c);
    proof {
        assert(state.clients@.remove(browser) =~= old(state).clients@.remove(browser));
    }
}

/// A message to DevTools.
pub open spec fn message_text(id: i32, method: Seq<char>, params: Seq<char>, session: Option<Seq<char>>) -> Seq<char> {
    "{\"id\":"@ + signed_decimal(id as int) + ",\"method\":"@ + json_quoted(method) + ",\"params\":"@ + params + (match session {
        Some(s) => ",\"sessionId\":"@ + json_quoted(s),
        None => Seq::empty(),
    }) + "}"@
}

fn spell_message(id: i32, method: &str, params: &str, session: Option<&str>) -> (r: String)
    ensures
        r@ == message_text(id, method@, params@, crate::text::opt_view(session)),
{
    let mut out = join3("{\"id\":", signed_text(id as i64).as_str(), ",\"method\":");
    out.append(json_string(method).as_str());
    out.append(",\"params\":");
    out.append(params);
    let ghost before = out@;
    match session {
        Some(s) => {
            out.append(",\"sessionId\":");
            out.append(json_string(s).as_str());
            proof {
                assert(out@ =~= before + (",\"sessionId\":"@ + json_quoted(s@)));
            }
        },
        None => {
            proof {
                assert(before + Seq::<char>::empty() =~= before);
            }
        },
    }
    out.append("}");
    out
}

/// The client after a message was numbered.
pub open spec fn numbered(c: ClientModel) -> ClientModel {
    ClientModel { next_id: id_after(c.next_id), pending: with_id(c.pending, c.next_id), ..c }
}

/// A message is sent: its number, and its text. Without a client there is none.
pub fn call(state: &mut Clients, browser: i32, method: &str, params: &str, session: Option<&str>) -> (r: Result<(i32, String), String>)
    requires
        old(state).valid(),
    ensures
        final(state).valid(),
        final(state).differs_at(*old(state), browser),
        match old(state).client(browser) {
            None => final(state).client(browser) is None && r is Err && r->Err_0@ == "no DevTools client for that browser"@,
            Some(c) => final(state).client(browser) == Some(numbered(c)) && match r {
                Ok((id, text)) => id == c.next_id && text@ == message_text(id, method@, params@, crate::text::opt_view(session)),
                Err(_) => false,
            },
        },
{
    match state.clients.remove(&browser) {
        None => {
            proof {
                assert(state.clients@ =~= old(state).clients@);
            }
            Err(copy_text("no DevTools client for that browser"))
        },
        Some(c) => {
            let mut client = c;
            let ghost before = client@;
            let id: i32 = client.next_id;
            client.next_id = if id >= ID_MAX { ID_BASE } else { id + 1 };
            if !lists_id(&client.pending, id) {
                client.pending.push(id);
            }
            proof {
                assert(client@ =~= numbered(before));
            }
            put_client(state, browser, client);
            proof {
                assert(state.clients@.remove(browser) =~= old(state).clients@.remove(browser));
            }
            Ok((id, spell_message(id, method, params, session)))
        },
    }
}

/// The client after a message is not waited for any more.
pub open spec fn unwaited(c: ClientModel, id: i32) -> ClientModel {
    ClientModel { pending: without_id(c.pending, id, 0), ..c }
}

/// The reply to a message came, or is not waited for any more. Returns whether it was waited for.
pub fn settle(state: &mut Clients, browser: i32, id: i32) -> (r: bool)
    requires
        old(state).valid(),
    ensures
        final(state).valid(),
        final(state).differs_at(*old(state), browser),
        match old(state).client(browser) {
            None => final(state).client(browser) is None && !r,
            Some(c) => final(state).client(browser) == Some(unwaited(c, id)) && r == c.pending.contains(id),
        },
{
    match state.clients.remove(&browser) {
        None => {
            proof {
                assert(state.clients@ =~= old(state).clients@);
            }
            false
        },
        Some(c) => {
            let mut client = c;
            let ghost before = client@;
            let waited = lists_id(&client.pending, id);
            client.pending = drop_id(&client.pending, id);
            proof {
                assert(client@ =~= unwaited(before, id));
            }
            put_client(state, browser, client);
            proof {
                assert(state.clients@.remove(browser) =~= old(state).clients@.remove(browser));
            }
            waited
        },
    }
}

/// What became of a message.
pub enum CallAnswer<V> {
    Reply(Result<V, String>),
    /// It was not taken.
    Refused,
    /// Nobody will reply.
    Dropped,
    /// Nobody did in time.
    TimedOut,
}

/// The result of a message.
pub fn call_result<V>(answer: CallAnswer<V>, timeout_ms: i64) -> (r: Result<V, String>)
    ensures
        match answer {
            CallAnswer::Reply(result) => r == result,
            CallAnswer::Refused => r is Err && r->Err_0@ == "send_dev_tools_message refused the message"@,
            CallAnswer::Dropped => r is Err && r->Err_0@ == "the DevTools session was dropped"@,
            CallAnswer::TimedOut => r is Err && r->Err_0@ == "no answer within "@ + signed_decimal(timeout_ms as int) + " ms"@,
        },
{
    match answer {
        CallAnswer::Reply(result) => result,
        CallAnswer::Refused => Err(copy_text("send_dev_tools_message refused the message")),
        CallAnswer::Dropped => Err(copy_text("the DevTools session was dropped")),
        CallAnswer::TimedOut => Err(join3("no answer within ", signed_text(timeout_ms).as_str(), " ms")),
    }
}

/// DevTools went away: every message of the browser fails. Returns their numbers, in the order in which
/// they were sent.
pub fn fail_all(state: &mut Clients, browser: i32) -> (r: Vec<i32>)
    requires
        old(state).valid(),
    ensures
        final(state).valid(),
        final(state).differs_at(*old(state), browser),
        match old(state).client(browser) {
            None => final(state).client(browser) is None && r@.len() == 0,
            Some(c) => final(state).client(browser) == Some((ClientModel { pending: Seq::empty(), ..c })) && r@ == c.pending,
        },
{
    match state.clients.remove(&browser) {
        None => {
            proof {
                assert(state.clients@ =~= old(state).clients@);
            }
            Vec::new()
        },
        Some(c) => {
            let client = Client { next_id: c.next_id, pending: Vec::new(), events: c.events };
            proof {
                assert(client@ =~= (ClientModel { pending: Seq::empty(), ..c@ }));
            }
            put_client(state, browser, client);
            proof {
                assert(state.clients@.remove(browser) =~= old(state).clients@.remove(browser));
            }
            c.pending
        },
    }
}

// ------------------------------------------------------------------------------ what comes in

/// A digit.
pub open spec fn is_digit(b: u8) -> bool {
    48 <= b <= 57
}

/// The number that digits add to one that was read, from position `i` up to `end` at most.
pub open spec fn number_from(bytes: Seq<u8>, i: int, end: int, n: nat) -> nat
    decreases end - i,
{
    if 0 <= i < end && i < bytes.len() && is_digit(bytes[i]) {
        number_from(bytes, i + 1, end, n * 10 + (bytes[i] - 48) as nat)
    } else {
        n
    }
}

/// The bytes of a message that are looked at before it is read.
pub const HEAD: usize = 32;

/// The first bytes of a reply.
pub open spec fn reply_start() -> Seq<u8> {
    seq![0x7Bu8, 0x22u8, 0x69u8, 0x64u8, 0x22u8, 0x3Au8]
}

/// A message begins as a reply does.
pub open spec fn looks_like_reply(bytes: Seq<u8>) -> bool {
    reply_start().is_prefix_of(bytes)
}

/// A message begins as a reply to one of ours does.
pub open spec fn is_ours(bytes: Seq<u8>) -> bool {
    looks_like_reply(bytes) && bytes.len() > 6 && is_digit(bytes[6]) && ID_BASE <= number_from(bytes, 6, HEAD as int, 0) <= ID_MAX
}

/// A message is read: an event, or a reply to one of ours, that is not too long.
pub open spec fn is_kept(bytes: Seq<u8>) -> bool {
    bytes.len() <= MAX_MESSAGE && (!looks_like_reply(bytes) || is_ours(bytes))
}

proof fn number_grows(bytes: Seq<u8>, i: int, end: int, n: nat)
    ensures
        number_from(bytes, i, end, n) >= n,
    decreases end - i,
{
    if 0 <= i < end && i < bytes.len() && is_digit(bytes[i]) {
        number_grows(bytes, i + 1, end, n * 10 + (bytes[i] - 48) as nat);
    }
}

fn starts_as_reply(bytes: &[u8]) -> (r: bool)
    ensures
        r == looks_like_reply(bytes@),
{
    if bytes.len() < 6 {
        return false;
    }
    let r = bytes[0] == 0x7B && bytes[1] == 0x22 && bytes[2] == 0x69 && bytes[3] == 0x64 && bytes[4] == 0x22 && bytes[5] == 0x3A;
    proof {
        if r {
            assert(bytes@.take(6) =~= reply_start());
            assert(reply_start() =~= bytes@.subrange(0, 6));
        } else {
            assert(reply_start()[0] == 0x7B && reply_start()[1] == 0x22 && reply_start()[2] == 0x69 && reply_start()[3] == 0x64 && reply_start()[4]
                == 0x22 && reply_start()[5] == 0x3A);
            if looks_like_reply(bytes@) {
                assert(bytes@.subrange(0, 6)[0] == reply_start()[0]);
                assert(bytes@.subrange(0, 6)[1] == reply_start()[1]);
                assert(bytes@.subrange(0, 6)[2] == reply_start()[2]);
                assert(bytes@.subrange(0, 6)[3] == reply_start()[3]);
                assert(bytes@.subrange(0, 6)[4] == reply_start()[4]);
                assert(bytes@.subrange(0, 6)[5] == reply_start()[5]);
            }
        }
    }
    r
}

/// A message came. Returns whether it is read.
pub fn on_message(bytes: &[u8]) -> (r: bool)
    ensures
        r == is_kept(bytes@),
{
    if bytes.len() > MAX_MESSAGE {
        return false;
    }
    if !starts_as_reply(bytes) {
        return true;
    }
    if bytes.len() <= 6 || bytes[6] < 48 || bytes[6] > 57 {
        return false;
    }
    let mut n: u64 = 0;
    let mut i: usize = 6;
    while i < HEAD && i < bytes.len() && 48 <= bytes[i] && bytes[i] <= 57
        invariant
            6 <= i <= HEAD,
            n <= ID_MAX,
            number_from(bytes@, i as int, HEAD as int, n as nat) == number_from(bytes@, 6, HEAD as int, 0),
            looks_like_reply(bytes@),
            bytes@.len() > 6,
            bytes@.len() <= MAX_MESSAGE,
        decreases HEAD - i,
    {
        n = n * 10 + (bytes[i] - 48) as u64;
        i = i + 1;
        if n > ID_MAX as u64 {
            proof {
                number_grows(bytes@, i as int, HEAD as int, n as nat);
            }
            return false;
        }
    }
    n >= ID_BASE as u64
}

/// The bytes of a character in UTF-8.
pub open spec fn utf8_width(c: char) -> int {
    if (c as u32) < 0x80 {
        1
    } else if (c as u32) < 0x800 {
        2
    } else if (c as u32) < 0x10000 {
        3
    } else {
        4
    }
}

/// As many characters from position `i` on as fit into `left` bytes.
pub open spec fn fitting(s: Seq<char>, i: int, left: int) -> Seq<char>
    decreases s.len() - i,
{
    if 0 <= i < s.len() && utf8_width(s[i]) <= left {
        seq![s[i]] + fitting(s, i + 1, left - utf8_width(s[i]))
    } else {
        Seq::empty()
    }
}

/// As many characters of a text as fit into so many bytes.
pub fn cut_to(s: &str, most: usize) -> (r: String)
    ensures
        r@ == fitting(s@, 0, most as int),
{
    let cs = chars_of(s);
    let total: usize = cs.len();
    let mut left: usize = most;
    let mut i: usize = 0;
    let ghost whole = fitting(s@, 0, most as int);
    proof {
        assert(cs@.subrange(0, 0) + whole =~= whole);
    }
    while i < total
        invariant
            i <= total,
            total == cs@.len(),
            cs@ == s@,
            whole == cs@.subrange(0, i as int) + fitting(s@, i as int, left as int),
        ensures
            i <= total,
            whole == cs@.subrange(0, i as int),
        decreases total - i,
    {
        let n: u32 = cs[i] as u32;
        let width: usize = if n < 0x80 {
            1
        } else if n < 0x800 {
            2
        } else if n < 0x10000 {
            3
        } else {
            4
        };
        if width > left {
            proof {
                assert(cs@.subrange(0, i as int) + Seq::<char>::empty() =~= cs@.subrange(0, i as int));
            }
            break;
        }
        left = left - width;
        proof {
            assert(cs@.subrange(0, i as int) + (seq![s@[i as int]] + fitting(s@, i + 1, left as int)) =~= cs@.subrange(0, i + 1) + fitting(
                s@,
                i + 1,
                left as int,
            ));
        }
        i = i + 1;
        proof {
            if i == total {
                assert(cs@.subrange(0, i as int) + Seq::<char>::empty() =~= cs@.subrange(0, i as int));
            }
        }
    }
    text_of(cs.as_slice(), 0, i)
}

/// What a message is.
pub enum Delivered {
    Nothing,
    /// The reply to a message that is waited for: its result as JSON text, or what went wrong.
    Reply { id: i32, answer: Result<String, String> },
    Event,
}

/// What went wrong with a message, by its reply.
pub open spec fn reply_error(msg: Json) -> Option<Seq<char>> {
    match msg.member("error"@) {
        Some(e) => Some(match text_of_arg(e, "message"@) {
            Some(t) => t,
            None => "DevTools error"@,
        }),
        None => None,
    }
}

/// The number of the message that a message replies to.
pub open spec fn reply_id(msg: Json) -> Option<i64> {
    match msg.member("id"@) {
        Some(v) => v.signed_number(),
        None => None,
    }
}

/// The event that a message is.
pub open spec fn event_in(method: Seq<char>, params: Seq<char>, session: Seq<char>) -> EventModel {
    EventModel { method, params: fitting(params, 0, MAX_PARAMS as int), session }
}

/// The events that are kept after one more.
pub open spec fn with_event(events: Seq<EventModel>, e: EventModel) -> Seq<EventModel> {
    if events.len() >= MAX_EVENTS { events.skip(1).push(e) } else { events.push(e) }
}

/// What a message does to the client of its browser.
pub open spec fn delivered(c: Option<ClientModel>, msg: Json, params: Seq<char>, session: Seq<char>) -> Option<ClientModel> {
    match c {
        None => None,
        Some(client) => match reply_id(msg) {
            Some(n) => Some(unwaited(client, browser_number(n))),
            None => match text_of_arg(msg, "method"@) {
                Some(method) => Some((ClientModel { events: with_event(client.events, event_in(method, params, session)), ..client })),
                None => c,
            },
        },
    }
}

fn push_event(events: &mut Vec<Event>, e: Event)
    requires
        old(events)@.len() <= MAX_EVENTS,
    ensures
        event_views(final(events)@) == with_event(event_views(old(events)@), e@),
        final(events)@.len() <= MAX_EVENTS,
{
    let ghost before = events@;
    if events.len() >= MAX_EVENTS {
        let _ = events.remove(0);
        proof {
            assert(event_views(events@) =~= event_views(before).skip(1));
        }
    }
    let ghost middle = events@;
    events.push(e);
    proof {
        assert(event_views(events@) =~= event_views(middle).push(e@));
    }
}

/// What comes of a message for the clients before and after it.
pub open spec fn takes_message(
    before: Clients,
    after: Clients,
    browser: i32,
    msg: Json,
    params: Seq<char>,
    result: Seq<char>,
    session: Seq<char>,
    r: Delivered,
) -> bool {
    &&& after.differs_at(before, browser)
    &&& after.client(browser) == delivered(before.client(browser), msg, params, session)
    &&& match reply_id(msg) {
        Some(n) => if before.client(browser) is Some && before.client(browser)->0.pending.contains(browser_number(n)) {
            match r {
                Delivered::Reply { id, answer } => id == browser_number(n) && match (answer, reply_error(msg)) {
                    (Ok(text), None) => text@ == result,
                    (Err(e), Some(message)) => e@ == message,
                    _ => false,
                },
                _ => false,
            }
        } else {
            r is Nothing
        },
        None => if text_of_arg(msg, "method"@) is Some && before.client(browser) is Some {
            r is Event
        } else {
            r is Nothing
        },
    }
}

/// A message arrived: `params`, `result` and `session` are its members of these names (the last one is
/// `sessionId`), as JSON text.
pub fn deliver_message(state: &mut Clients, browser: i32, msg: &Json, params: &str, result: &str, session: &str) -> (r: Delivered)
    requires
        old(state).valid(),
    ensures
        final(state).valid(),
        takes_message(*old(state), *final(state), browser, *msg, params@, result@, session@, r),
{
    let number: Option<i64> = match msg.get("id") {
        Some(v) => v.as_i64(),
        None => None,
    };
    match number {
        Some(n) => {
            let id: i32 = #[verifier::truncate]
            (n as i32);
            if !settle(state, browser, id) {
                return Delivered::Nothing;
            }
            let answer = match msg.get("error") {
                Some(e) => Err(match opt_str(e, "message") {
                    Some(t) => t,
                    None => copy_text("DevTools error"),
                }),
                None => Ok(copy_text(result)),
            };
            Delivered::Reply { id, answer }
        },
        None => {
            let method = match opt_str(msg, "method") {
                Some(m) => m,
                None => {
                    return Delivered::Nothing;
                },
            };
            match state.clients.remove(&browser) {
                None => {
                    proof {
                        assert(state.clients@ =~= old(state).clients@);
                    }
                    Delivered::Nothing
                },
                Some(c) => {
                    let mut client = c;
                    let ghost before = client@;
                    proof {
                        assert(old(state).clients@.contains_key(browser));
                        assert(client.events@.len() == before.events.len());
                    }
                    let e = Event { method, params: cut_to(params, MAX_PARAMS), session: copy_text(session) };
                    push_event(&mut client.events, e);
                    proof {
                        assert(client@ =~= (ClientModel { events: with_event(before.events, e@), ..before }));
                    }
                    put_client(state, browser, client);
                    proof {
                        assert(state.clients@.remove(browser) =~= old(state).clients@.remove(browser));
                    }
                    Delivered::Event
                },
            }
        },
    }
}

/// `msg` is what the bytes hold, and `r` what comes of it.
pub open spec fn takes_bytes(before: Clients, after: Clients, browser: i32, msg: Json, bytes: Seq<u8>, r: Delivered) -> bool {
    let text = decode_utf8(bytes);
    holds(msg, text, MAX_DEPTH as nat) && takes_message(
        before,
        after,
        browser,
        msg,
        member_or(text, "params"@, ""@),
        member_or(text, "result"@, "null"@),
        member_or(text, "sessionId"@, "null"@),
        r,
    )
}

/// The bytes of a message arrived. What is no JSON is passed over.
pub fn deliver(state: &mut Clients, browser: i32, bytes: &[u8]) -> (r: Delivered)
    requires
        old(state).valid(),
    ensures
        final(state).valid(),
        if valid_utf8(bytes@) && is_json(decode_utf8(bytes@), MAX_DEPTH as nat) {
            exists|msg: Json| #[trigger] takes_bytes(*old(state), *final(state), browser, msg, bytes@, r)
        } else {
            r is Nothing && *final(state) == *old(state)
        },
{
    let text = match utf8_text(bytes) {
        Some(t) => t,
        None => {
            return Delivered::Nothing;
        },
    };
    let msg = match parse(text.as_str()) {
        Some(m) => m,
        None => {
            return Delivered::Nothing;
        },
    };
    let params = member_text_or(text.as_str(), "params", "");
    let result = member_text_or(text.as_str(), "result", "null");
    let session = member_text_or(text.as_str(), "sessionId", "null");
    let r = deliver_message(state, browser, &msg, params.as_str(), result.as_str(), session.as_str());
    proof {
        assert(takes_bytes(*old(state), *state, browser, msg, bytes@, r));
    }
    r
}

fn copy_event(e: &Event) -> (r: Event)
    ensures
        r@ == e@,
{
    Event { method: copy_text(e.method.as_str()), params: copy_text(e.params.as_str()), session: copy_text(e.session.as_str()) }
}

/// The events of a browser, oldest first; `clear` forgets them.
pub fn events(state: &mut Clients, browser: i32, clear: bool) -> (r: Vec<Event>)
    requires
        old(state).valid(),
    ensures
        final(state).valid(),
        final(state).differs_at(*old(state), browser),
        match old(state).client(browser) {
            None => final(state).client(browser) is None && r@.len() == 0,
            Some(c) => event_views(r@) == c.events && final(state).client(browser) == Some(
                (ClientModel { events: if clear { Seq::empty() } else { c.events }, ..c }),
            ),
        },
{
    match state.clients.remove(&browser) {
        None => {
            proof {
                assert(state.clients@ =~= old(state).clients@);
            }
            Vec::new()
        },
        Some(c) => {
            let mut client = c;
            let ghost before = client@;
            let mut out: Vec<Event> = Vec::new();
            let mut i: usize = 0;
            while i < client.events.len()
                invariant
                    i <= client.events@.len(),
                    event_views(out@) == event_views(client.events@).take(i as int),
                decreases client.events@.len() - i,
            {
                let ghost had = out@;
                let e = copy_event(&client.events[i]);
                out.push(e);
                i = i + 1;
                proof {
                    assert(event_views(out@) =~= event_views(had).push(e@));
                    assert(event_views(out@) =~= event_views(client.events@).take(i as int));
                }
            }
            proof {
                assert(event_views(out@) =~= event_views(client.events@));
            }
            if clear {
                client.events = Vec::new();
                proof {
                    assert(event_views(client.events@) =~= Seq::<EventModel>::empty());
                }
            }
            proof {
                assert(client@ =~= (ClientModel { events: if clear { Seq::empty() } else { before.events }, ..before }));
            }
            put_client(state, browser, client);
            proof {
                assert(state.clients@.remove(browser) =~= old(state).clients@.remove(browser));
            }
            out
        },
    }
}

/// Where the session of a target stands, if it has one.
fn find_session(sessions: &Vec<Session>, target: &str) -> (r: Option<usize>)
    ensures
        match r {
            Some(i) => i < sessions@.len() && sessions@[i as int].target@ == target@ && forall|k: int|
                0 <= k < i ==> (#[trigger] sessions@[k]).target@ != target@,
            None => forall|k: int| 0 <= k < sessions@.len() ==> (#[trigger] sessions@[k]).target@ != target@,
        },
{
    let mut i: usize = 0;
    while i < sessions.len()
        invariant
            i <= sessions@.len(),
            forall|k: int| 0 <= k < i ==> (#[trigger] sessions@[k]).target@ != target@,
        decreases sessions@.len() - i,
    {
        if same_text(sessions[i].target.as_str(), target) {
            return Some(i);
        }
        i = i + 1;
    }
    None
}

/// A session was attached to a target; it takes the place of one that was before.
pub fn remember(state: &mut Clients, target: &str, browser: i32, session: &str)
    ensures
        final(state).clients == old(state).clients,
        session_at(final(state).sessions@, target@, 0) == Some((browser, session@)),
        forall|other: Seq<char>| other != target@ ==> #[trigger] session_at(final(state).sessions@, other, 0) == session_at(
            old(state).sessions@,
            other,
            0,
        ),
        final(state).sessions@.len() == old(state).sessions@.len() + (if session_at(old(state).sessions@, target@, 0) is Some { 0int } else { 1 }),
{
    let fresh = Session { target: copy_text(target), browser, session: copy_text(session) };
    let ghost before = state.sessions@;
    let known = find_session(&state.sessions, target);
    let at: usize = match known {
        Some(i) => {
            state.sessions.set(i, fresh);
            i
        },
        None => {
            let end: usize = state.sessions.len();
            state.sessions.push(fresh);
            end
        },
    };
    proof {
        let after = state.sessions@;
        session_first(after, target@, 0, at as int);
        if known is Some {
            session_first(before, target@, 0, at as int);
        } else {
            session_missing(before, target@, 0);
        }
        assert forall|other: Seq<char>| other != target@ implies #[trigger] session_at(after, other, 0) == session_at(before, other, 0) by {
            sessions_kept(before, after, other, at as int, 0);
        }
    }
}

/// The first session of a target is the one that is found.
proof fn session_first(sessions: Seq<Session>, target: Seq<char>, i: int, at: int)
    requires
        0 <= i <= at < sessions.len(),
        sessions[at].target@ == target,
        forall|k: int| i <= k < at ==> (#[trigger] sessions[k]).target@ != target,
    ensures
        session_at(sessions, target, i) == Some((sessions[at].browser, sessions[at].session@)),
    decreases at - i,
{
    if i < at {
        session_first(sessions, target, i + 1, at);
    }
}

/// No session is found where there is none.
proof fn session_missing(sessions: Seq<Session>, target: Seq<char>, i: int)
    requires
        0 <= i,
        forall|k: int| i <= k < sessions.len() ==> (#[trigger] sessions[k]).target@ != target,
    ensures
        session_at(sessions, target, i) is None,
    decreases sessions.len() - i,
{
    if i < sessions.len() {
        session_missing(sessions, target, i + 1);
    }
}

/// A session of one target leaves those of the others as they are.
proof fn sessions_kept(before: Seq<Session>, after: Seq<Session>, other: Seq<char>, at: int, i: int)
    requires
        0 <= i,
        0 <= at < after.len(),
        after.len() == before.len() || (after.len() == before.len() + 1 && at == before.len()),
        after[at].target@ != other,
        at < before.len() ==> before[at].target@ != other,
        forall|k: int| 0 <= k < before.len() && k != at ==> #[trigger] after[k] == before[k],
    ensures
        session_at(after, other, i) == session_at(before, other, i),
    decreases after.len() - i,
{
    if i < after.len() {
        sessions_kept(before, after, other, at, i + 1);
    }
}

/// Everything is forgotten.
pub fn clear(state: &mut Clients)
    ensures
        final(state).valid(),
        final(state).clients@ == Map::<i32, Client>::empty(),
        final(state).sessions@.len() == 0,
{
    state.clients.clear();
    state.sessions.clear();
}

// ------------------------------------------------------------------------------ what holds

/// The numbers of messages stay in a range of their own: above those of the agent and of the shell.
pub proof fn numbers_stay_apart(id: i32)
    requires
        ID_BASE <= id <= ID_MAX,
    ensures
        ID_BASE <= id_after(id) <= ID_MAX,
        id_after(id) > 0x6FFF_FFFF,
{
}

/// A list without a number does not have it, and has every other.
pub proof fn without_id_leaves_the_others(s: Seq<i32>, id: i32, i: int, other: i32)
    requires
        0 <= i,
    ensures
        !without_id(s, id, i).contains(id),
        other != id && (exists|k: int| i <= k < s.len() && s[k] == other) ==> without_id(s, id, i).contains(other),
    decreases s.len() - i,
{
    if i < s.len() {
        without_id_leaves_the_others(s, id, i + 1, other);
        let rest = without_id(s, id, i + 1);
        let all = without_id(s, id, i);
        if s[i] != id {
            assert(all =~= seq![s[i]] + rest);
            assert(!all.contains(id)) by {
                if all.contains(id) {
                    let k = choose|k: int| 0 <= k < all.len() && all[k] == id;
                    assert(k > 0);
                    assert(rest[k - 1] == id);
                }
            }
            if other != id && (exists|k: int| i <= k < s.len() && s[k] == other) {
                if s[i] == other {
                    assert(all[0] == other);
                } else {
                    let k = choose|k: int| i <= k < s.len() && s[k] == other;
                    assert(i + 1 <= k < s.len() && s[k] == other);
                    assert(rest.contains(other));
                    let j = choose|j: int| 0 <= j < rest.len() && rest[j] == other;
                    assert(all[j + 1] == other);
                }
            }
        } else if other != id && (exists|k: int| i <= k < s.len() && s[k] == other) {
            let k = choose|k: int| i <= k < s.len() && s[k] == other;
            assert(i + 1 <= k < s.len() && s[k] == other);
        }
    }
}

/// A message is answered once: after its reply nobody waits for it, and everybody else still does.
pub proof fn a_message_is_answered_once(c: ClientModel, id: i32, other: i32)
    ensures
        !unwaited(c, id).pending.contains(id),
        other != id && c.pending.contains(other) ==> unwaited(c, id).pending.contains(other),
{
    without_id_leaves_the_others(c.pending, id, 0, other);
    if c.pending.contains(other) {
        let k = choose|k: int| 0 <= k < c.pending.len() && c.pending[k] == other;
        assert(0 <= k < c.pending.len() && c.pending[k] == other);
    }
}

/// A target that is named by its browser is that browser where it is alive, and none where it is not.
pub proof fn a_target_by_browser_is_alive(w: World, id: i32, session: Option<Seq<char>>)
    ensures
        (exists|i: int| 0 <= i < w.live@.len() && (#[trigger] w.live@[i]).id == id) ==> by_browser(w, id, session) is Ok,
        by_browser(w, id, session) is Ok ==> {
            &&& by_browser(w, id, session)->Ok_0.browser == id
            &&& by_browser(w, id, session)->Ok_0.session == session
            &&& by_browser(w, id, session)->Ok_0.what == "browser "@ + signed_decimal(id as int)
        },
        w.live@.len() == 0 ==> by_browser(w, id, session) is Err && by_browser(w, id, session)->Err_0.code is NoSuchTarget,
{
}

/// A target that is named by its surface is the browser of the first surface of that name.
pub proof fn a_target_by_surface_is_its_browser(w: World, host: Seq<char>, session: Option<Seq<char>>, k: int)
    requires
        0 <= k < w.surfaces@.len(),
        w.surfaces@[k].host@ == host,
        forall|j: int| 0 <= j < k ==> (#[trigger] w.surfaces@[j]).host@ != host,
    ensures
        w.surfaces@[k].browser is Some ==> by_surface(w, host, session) is Ok && by_surface(w, host, session)->Ok_0.browser == w.surfaces@[k].browser->0
            && by_surface(w, host, session)->Ok_0.session == session && by_surface(w, host, session)->Ok_0.what == "surface "@ + host,
        w.surfaces@[k].browser is None ==> by_surface(w, host, session) is Err && by_surface(w, host, session)->Err_0.code is NoSuchTarget,
{
    the_first_surface_counts(w.surfaces@, host, 0, k);
}

proof fn the_first_surface_counts(surfaces: Seq<SurfaceBrowser>, host: Seq<char>, i: int, k: int)
    requires
        0 <= i <= k < surfaces.len(),
        surfaces[k].host@ == host,
        forall|j: int| i <= j < k ==> (#[trigger] surfaces[j]).host@ != host,
    ensures
        surface_at(surfaces, host, i) == Some(surfaces[k].browser),
    decreases k - i,
{
    if i < k {
        assert(surfaces[i].host@ != host);
        the_first_surface_counts(surfaces, host, i + 1, k);
    }
}

/// A surface that the shell does not have is no target.
pub proof fn an_unknown_surface_is_no_target(w: World, host: Seq<char>, session: Option<Seq<char>>)
    requires
        forall|j: int| 0 <= j < w.surfaces@.len() ==> (#[trigger] w.surfaces@[j]).host@ != host,
    ensures
        by_surface(w, host, session) is Err && by_surface(w, host, session)->Err_0.code is InvalidArguments,
        by_surface(w, host, session)->Err_0.message == "unknown surface "@ + quoted(host),
{
    no_surface_is_found(w.surfaces@, host, 0);
}

proof fn no_surface_is_found(surfaces: Seq<SurfaceBrowser>, host: Seq<char>, i: int)
    requires
        0 <= i,
        forall|j: int| i <= j < surfaces.len() ==> (#[trigger] surfaces[j]).host@ != host,
    ensures
        surface_at(surfaces, host, i) is None,
    decreases surfaces.len() - i,
{
    if i < surfaces.len() {
        no_surface_is_found(surfaces, host, i + 1);
    }
}

/// A target that is named by its tab is the browser of that tab.
pub proof fn a_target_by_tab_is_its_browser(w: World, tab: u64, session: Option<Seq<char>>, k: int)
    requires
        0 <= k < w.tabs@.len(),
        w.tabs@[k].0 == tab,
        forall|j: int| 0 <= j < k ==> (#[trigger] w.tabs@[j]).0 != tab,
    ensures
        by_tab(w, tab, session) is Ok,
        by_tab(w, tab, session)->Ok_0.browser == w.tabs@[k].1,
        by_tab(w, tab, session)->Ok_0.session == session,
        by_tab(w, tab, session)->Ok_0.what == "tab "@ + decimal(tab as nat),
{
    the_first_tab_counts(w.tabs@, tab, 0, k);
}

proof fn the_first_tab_counts(tabs: Seq<(u64, i32)>, tab: u64, i: int, k: int)
    requires
        0 <= i <= k < tabs.len(),
        tabs[k].0 == tab,
        forall|j: int| i <= j < k ==> (#[trigger] tabs[j]).0 != tab,
    ensures
        tab_at(tabs, tab, i) == Some(tabs[k].1),
    decreases k - i,
{
    if i < k {
        assert(tabs[i].0 != tab);
        the_first_tab_counts(tabs, tab, i + 1, k);
    }
}

/// A tab without a browser is no target.
pub proof fn a_tab_without_a_browser_is_no_target(w: World, tab: u64, session: Option<Seq<char>>)
    requires
        forall|j: int| 0 <= j < w.tabs@.len() ==> (#[trigger] w.tabs@[j]).0 != tab,
    ensures
        by_tab(w, tab, session) is Err && by_tab(w, tab, session)->Err_0.code is NoSuchTarget,
{
    no_tab_is_found(w.tabs@, tab, 0);
}

proof fn no_tab_is_found(tabs: Seq<(u64, i32)>, tab: u64, i: int)
    requires
        0 <= i,
        forall|j: int| i <= j < tabs.len() ==> (#[trigger] tabs[j]).0 != tab,
    ensures
        tab_at(tabs, tab, i) is None,
    decreases tabs.len() - i,
{
    if i < tabs.len() {
        no_tab_is_found(tabs, tab, i + 1);
    }
}

/// A target that was attached to has the session that was attached, unless another is named; one that was not
/// goes through the topbar, where a session is named for it.
pub proof fn an_attached_target_keeps_its_session(w: World, sessions: Seq<Session>, id: Seq<char>, session: Option<Seq<char>>, k: int)
    requires
        0 <= k < sessions.len(),
        sessions[k].target@ == id,
        forall|j: int| 0 <= j < k ==> (#[trigger] sessions[j]).target@ != id,
    ensures
        by_target(w, sessions, id, session) is Ok,
        by_target(w, sessions, id, session)->Ok_0.browser == sessions[k].browser,
        by_target(w, sessions, id, None)->Ok_0.session == Some(sessions[k].session@),
        session is Some ==> by_target(w, sessions, id, session)->Ok_0.session == session,
        by_target(w, sessions, id, session)->Ok_0.what == "target "@ + id,
        session is Some && w.topbar is Some ==> by_target(w, Seq::empty(), id, session) is Ok && by_target(w, Seq::empty(), id, session)->Ok_0.browser
            == w.topbar->0 && by_target(w, Seq::empty(), id, session)->Ok_0.session == session,
        session is Some && w.topbar is None ==> by_target(w, Seq::empty(), id, session)->Err_0.code is BrowserNotRunning,
        by_target(w, Seq::empty(), id, None)->Err_0.message == "no session for target "@ + id + ": call test_attach first"@,
{
    the_first_session_counts(sessions, id, 0, k);
}

proof fn the_first_session_counts(sessions: Seq<Session>, id: Seq<char>, i: int, k: int)
    requires
        0 <= i <= k < sessions.len(),
        sessions[k].target@ == id,
        forall|j: int| i <= j < k ==> (#[trigger] sessions[j]).target@ != id,
    ensures
        session_at(sessions, id, i) == Some((sessions[k].browser, sessions[k].session@)),
    decreases k - i,
{
    if i < k {
        assert(sessions[i].target@ != id);
        the_first_session_counts(sessions, id, i + 1, k);
    }
}

/// A target that is named by a part of its address is the first browser whose address has it.
pub proof fn a_target_by_address_is_the_first_that_fits(w: World, needle: Seq<char>, session: Option<Seq<char>>, k: int)
    requires
        0 <= k < w.live@.len(),
        occurs(w.live@[k].url@, needle),
        forall|j: int| 0 <= j < k ==> !occurs((#[trigger] w.live@[j]).url@, needle),
    ensures
        by_address(w, needle, session) is Ok,
        by_address(w, needle, session)->Ok_0.browser == w.live@[k].id,
        by_address(w, needle, session)->Ok_0.session == session,
        by_address(w, needle, session)->Ok_0.what == "match "@ + quoted(needle),
{
    the_first_address_counts(w.live@, needle, 0, k);
}

proof fn the_first_address_counts(live: Seq<LiveBrowser>, needle: Seq<char>, i: int, k: int)
    requires
        0 <= i <= k < live.len(),
        occurs(live[k].url@, needle),
        forall|j: int| i <= j < k ==> !occurs((#[trigger] live[j]).url@, needle),
    ensures
        live_matching(live, needle, i) == Some(live[k].id),
    decreases k - i,
{
    if i < k {
        assert(!occurs(live[i].url@, needle));
        the_first_address_counts(live, needle, i + 1, k);
    }
}

/// An address that no browser has is no target.
pub proof fn an_address_that_nobody_has_is_no_target(w: World, needle: Seq<char>, session: Option<Seq<char>>)
    requires
        forall|j: int| 0 <= j < w.live@.len() ==> !occurs((#[trigger] w.live@[j]).url@, needle),
    ensures
        by_address(w, needle, session) is Err && by_address(w, needle, session)->Err_0.code is NoSuchTarget,
        by_address(w, needle, session)->Err_0.message == "no target whose URL contains "@ + quoted(needle),
{
    no_address_is_found(w.live@, needle, 0);
}

proof fn no_address_is_found(live: Seq<LiveBrowser>, needle: Seq<char>, i: int)
    requires
        0 <= i,
        forall|j: int| i <= j < live.len() ==> !occurs((#[trigger] live[j]).url@, needle),
    ensures
        live_matching(live, needle, i) is None,
    decreases live.len() - i,
{
    if i < live.len() {
        no_address_is_found(live, needle, i + 1);
    }
}

/// Of the ways to name a target the browser comes first, then the surface, the tab, its own name and its
/// address; a target that is named in none of them is refused. The session that is named goes with it.
pub proof fn a_target_is_named_in_this_order(args: Json, w: World, sessions: Seq<Session>)
    ensures
        ({
            let t = args.member("target"@);
            let browser = t is Some && t->0.member("browser"@) is Some && t->0.member("browser"@)->0 is Number && t->0.member("browser"@)->0->signed is Some;
            let surface = t is Some && t->0.member("surface"@) is Some && t->0.member("surface"@)->0 is Text;
            let tab = t is Some && t->0.member("tab"@) is Some && t->0.member("tab"@)->0 is Number && t->0.member("tab"@)->0->unsigned is Some;
            let id = t is Some && t->0.member("targetId"@) is Some && t->0.member("targetId"@)->0 is Text;
            let part = t is Some && t->0.member("match"@) is Some && t->0.member("match"@)->0 is Text;
            let session = text_of_arg(args, "sessionId"@);
            &&& browser ==> resolved(args, w, sessions) == by_browser(w, t->0.member("browser"@)->0->signed->0 as i32, session)
            &&& !browser && surface ==> resolved(args, w, sessions) == by_surface(w, t->0.member("surface"@)->0->Text_0@, session)
            &&& !browser && !surface && tab ==> resolved(args, w, sessions) == by_tab(w, t->0.member("tab"@)->0->unsigned->0, session)
            &&& !browser && !surface && !tab && id ==> resolved(args, w, sessions) == by_target(
                w,
                sessions,
                t->0.member("targetId"@)->0->Text_0@,
                session,
            )
            &&& !browser && !surface && !tab && !id && part ==> resolved(args, w, sessions) == by_address(
                w,
                t->0.member("match"@)->0->Text_0@,
                session,
            )
            &&& !browser && !surface && !tab && !id && !part ==> resolved(args, w, sessions) is Err && resolved(args, w, sessions)->Err_0.code is InvalidArguments
        }),
{
}

/// What a browser is for is told by what it is, and by its tab or host.
pub proof fn a_role_is_told_in_words(host: String, tab: u64)
    ensures
        role_name(Role::Surface { host }) == "surface:"@ + host@,
        role_name(Role::Tab { tab }) == "tab:"@ + decimal(tab as nat),
        role_name(Role::DevTools { tab }) == "devtools:"@ + decimal(tab as nat),
        role_name(Role::ExtensionPopup) == "extensionPopup"@,
        role_name(Role::Other) == "other"@,
{
}

/// A text argument is required beside the target, and the target is looked for first.
pub proof fn a_target_comes_before_its_argument(args: Json, w: World, sessions: Seq<Session>, key: Seq<char>)
    ensures
        resolved(args, w, sessions) is Err ==> targeted(args, w, sessions, key) is Err && targeted(args, w, sessions, key)->Err_0
            == resolved(args, w, sessions)->Err_0,
        resolved(args, w, sessions) is Ok && text_of_arg(args, key) is Some ==> targeted(args, w, sessions, key) is Ok && targeted(args, w, sessions, key)->Ok_0
            == (resolved(args, w, sessions)->Ok_0, text_of_arg(args, key)->0),
        resolved(args, w, sessions) is Ok && text_of_arg(args, key) is None ==> targeted(args, w, sessions, key)->Err_0.message == key + " (a string) is required"@,
{
}

/// An evaluation that threw came to an exception, with the page's description of it where there is one; one
/// without a value came to `undefined` where it says so, and to `null` where it does not.
pub proof fn an_evaluation_comes_to_its_outcome(result: Seq<char>, details: Seq<char>, value: Seq<char>)
    ensures
        member_spelled(result, "exceptionDetails"@) == Some(details) ==> outcome(result) is Threw,
        member_spelled(result, "exceptionDetails"@) is None && inner_string(result, "result"@, "type"@) == Some("undefined"@) ==> outcome(result) is Undefined,
        member_spelled(result, "exceptionDetails"@) is None && inner_string(result, "result"@, "type"@) != Some("undefined"@) ==> outcome(result) is Value,
        outcome(result) is Value && inner_spelled(result, "result"@, "value"@) == Some(value) ==> outcome(result)->value == value,
        outcome(result) is Value && inner_spelled(result, "result"@, "value"@) is None ==> outcome(result)->value == "null"@,
        member_spelled(result, "exceptionDetails"@) == Some(details) && member_spelled(details, "exception"@) is None && string_member(details, "text"@) is None
            ==> outcome(result)->text == "uncaught exception"@,
        member_spelled(result, "exceptionDetails"@) == Some(details) && member_spelled(details, "exception"@) is None && string_member(details, "text"@)
            == Some(value) ==> outcome(result)->text == value,
        member_spelled(result, "exceptionDetails"@) == Some(details) && member_spelled(details, "exception"@) is Some && string_member(
            member_spelled(details, "exception"@)->0,
            "description"@,
        ) == Some(value) ==> outcome(result)->text == value,
        member_spelled(result, "exceptionDetails"@) == Some(details) && member_spelled(details, "stackTrace"@) == Some(value) ==> outcome(result)->stack == value,
        member_spelled(result, "exceptionDetails"@) == Some(details) && member_spelled(details, "stackTrace"@) is None ==> outcome(result)->stack == "null"@,
{
}

/// A call of the bridge that threw is a failure of the script; one that did not is answered with its value.
pub proof fn a_call_that_throws_is_a_failure(command: Seq<char>, what: Seq<char>, text: Seq<char>, stack: Seq<char>, value: Seq<char>)
    ensures
        invoked(command, what, Outcome::Threw { text, stack }) is Err && invoked(command, what, Outcome::Threw { text, stack })->Err_0.code is ScriptError,
        invoked(command, what, Outcome::Value { value }) is Ok,
        invoked(command, what, Outcome::Value { value })->Ok_0.structured == value,
        invoked(command, what, Outcome::Value { value })->Ok_0.text == command + " in "@ + what,
        invoked(command, what, Outcome::Undefined)->Ok_0.structured == "null"@,
        outcome_spelled(Outcome::Undefined) == "{}"@,
        outcome_spelled(Outcome::Value { value }) == "{\"value\":"@ + value + "}"@,
        outcome_spelled(Outcome::Threw { text, stack }) == "{\"error\":"@ + thrown_spelled(text, stack) + "}"@,
{
}

/// The bridge is called with the command as a string and the argument as it is, and tells both how it went.
pub proof fn the_bridge_is_called_by_its_name(command: Seq<char>, payload: Seq<char>)
    ensures
        ("window.sta.invoke("@ + json_quoted(command) + ", "@ + payload + ")"@).is_prefix_of(invocation(command, payload)),
        ".then(function (r) { return { ok: r }; }, function (e) { return { err: e.code, msg: e.message }; })"@.is_suffix_of(invocation(command, payload)),
{
    reveal_strlit(")");
    reveal_strlit(").then(function (r) { return { ok: r }; }, function (e) { return { err: e.code, msg: e.message }; })");
    reveal_strlit(".then(function (r) { return { ok: r }; }, function (e) { return { err: e.code, msg: e.message }; })");
    let head = "window.sta.invoke("@ + json_quoted(command) + ", "@ + payload;
    let end = ").then(function (r) { return { ok: r }; }, function (e) { return { err: e.code, msg: e.message }; })"@;
    let tail = ".then(function (r) { return { ok: r }; }, function (e) { return { err: e.code, msg: e.message }; })"@;
    let all = invocation(command, payload);
    assert(all =~= head + end);
    assert(all.take((head.len() + 1) as int) =~= head + ")"@);
    assert(end.skip(1) =~= tail);
    assert(all.skip((head.len() + 1) as int) =~= tail);
}

/// Attaching gives the session that the answer names, and fails where it names none.
pub proof fn attaching_gives_a_session(target: Seq<char>, browser: i32, answer: Seq<char>, session: Seq<char>)
    ensures
        string_member(answer, "sessionId"@) == Some(session) ==> attached_to(target, browser, answer) is Ok && attached_to(target, browser, answer)->Ok_0.0
            == session && attached_to(target, browser, answer)->Ok_0.1.text == "attached to "@ + target,
        string_member(answer, "sessionId"@) is None ==> attached_to(target, browser, answer) is Err && attached_to(target, browser, answer)->Err_0.code is Internal,
{
}

/// A session is attached by the shell's own browser unless a target is named, and never without a name of what
/// it is attached to.
pub proof fn the_shell_attaches_unless_told_otherwise(args: Json, w: World, sessions: Seq<Session>)
    ensures
        args.member("target"@) is None && w.topbar is Some ==> attaching(args, w, sessions) == Ok::<i32, Failure>(w.topbar->0),
        args.member("target"@) == Some(Json::Null) && w.topbar is Some ==> attaching(args, w, sessions) == Ok::<i32, Failure>(w.topbar->0),
        args.member("target"@) is None && w.topbar is None ==> attaching(args, w, sessions) is Err && attaching(args, w, sessions)->Err_0.code is BrowserNotRunning,
        args.member("target"@) is Some && !(args.member("target"@)->0 is Null) && resolved(args, w, sessions) is Ok ==> attaching(args, w, sessions)
            == Ok::<i32, Failure>(resolved(args, w, sessions)->Ok_0.browser),
        text_of_arg(args, "targetId"@) is None ==> attachment(args, w, sessions) is Err && attachment(args, w, sessions)->Err_0.code is InvalidArguments,
        text_of_arg(args, "targetId"@) is Some && attaching(args, w, sessions) is Ok ==> attachment(args, w, sessions) == Ok::<(Seq<char>, i32), Failure>(
            (text_of_arg(args, "targetId"@)->0, attaching(args, w, sessions)->Ok_0),
        ),
{
}

/// A method without parameters gets an empty object.
pub proof fn a_method_always_has_parameters(args: Seq<char>, p: Seq<char>)
    ensures
        member_spelled(args, "params"@) is None ==> method_params(args) == "{}"@,
        member_spelled(args, "params"@) == Some("null"@) ==> method_params(args) == "{}"@,
        member_spelled(args, "params"@) == Some(p) && p != "null"@ ==> method_params(args) == p,
{
}

/// The number of a message is one more than the last, from the first of the range again behind the last.
pub proof fn messages_are_numbered_in_a_row(c: ClientModel, id: i32)
    ensures
        0x7000_0000 <= id < 0x7FFF_FFFE ==> id_after(id) == id + 1,
        id_after(0x7FFF_FFFE) == 0x7000_0000,
        numbered(c).pending.contains(c.next_id),
        c.pending.contains(id) ==> numbered(c).pending.contains(id),
        numbered(c).events == c.events,
        numbered(c).next_id == id_after(c.next_id),
        new_client().next_id == 0x7000_0000 && new_client().pending.len() == 0 && new_client().events.len() == 0,
{
    if !c.pending.contains(c.next_id) {
        let w = c.pending.push(c.next_id);
        assert(w[c.pending.len() as int] == c.next_id);
        if c.pending.contains(id) {
            let k = choose|k: int| 0 <= k < c.pending.len() && c.pending[k] == id;
            assert(w[k] == id);
        }
    }
}

/// Two hundred events are kept, the newest last, and the oldest gives way; of an event's parameters two
/// thousand bytes are kept.
pub proof fn the_newest_events_are_kept(events: Seq<EventModel>, e: EventModel, method: Seq<char>, params: Seq<char>, session: Seq<char>)
    requires
        events.len() <= 200,
    ensures
        with_event(events, e).len() == (if events.len() < 200 { events.len() + 1 } else { 200 }),
        with_event(events, e).last() == e,
        events.len() < 200 ==> with_event(events, e).drop_last() == events,
        events.len() == 200 ==> with_event(events, e).drop_last() == events.skip(1),
        event_in(method, params, session).method == method,
        event_in(method, params, session).session == session,
        event_in(method, params, session).params == fitting(params, 0, 2000),
{
    if events.len() < 200 {
        assert(events.push(e).drop_last() =~= events);
    } else {
        assert(events.skip(1).push(e).drop_last() =~= events.skip(1));
    }
}

/// The bytes that characters take in UTF-8.
pub open spec fn bytes_taken(s: Seq<char>) -> int {
    encode_utf8(s).len() as int
}

/// What is cut off is the end: the text that is kept is the beginning of the whole, no longer than was asked
/// for, and one more character would not have fit.
pub proof fn a_text_is_cut_where_it_is_full(s: Seq<char>, i: int, left: int)
    requires
        0 <= i <= s.len(),
        left >= 0,
    ensures
        ({
            let kept = fitting(s, i, left);
            &&& kept.len() <= s.len() - i
            &&& s.subrange(i, i + kept.len()) == kept
            &&& bytes_taken(kept) <= left
            &&& i + kept.len() < s.len() ==> bytes_taken(s.subrange(i, i + kept.len() + 1)) > left
        }),
    decreases s.len() - i,
{
    let kept = fitting(s, i, left);
    if i < s.len() {
        let one = seq![s[i]];
        a_character_takes_its_bytes(s[i]);
        if utf8_width(s[i]) <= left {
            a_text_is_cut_where_it_is_full(s, i + 1, left - utf8_width(s[i]));
            let rest = fitting(s, i + 1, left - utf8_width(s[i]));
            assert(kept =~= one + rest);
            assert(kept[0] == s[i]);
            assert(kept.drop_first() =~= rest);
            assert(s.subrange(i, i + kept.len()) =~= one + s.subrange(i + 1, i + 1 + rest.len()));
            if i + kept.len() < s.len() {
                let more = s.subrange(i, i + kept.len() + 1);
                assert(more[0] == s[i]);
                assert(more.drop_first() =~= s.subrange(i + 1, i + 1 + rest.len() + 1));
            }
        } else {
            assert(kept =~= Seq::empty());
            assert(s.subrange(i, i) =~= Seq::empty());
            let more = s.subrange(i, i + 1);
            assert(more[0] == s[i]);
            assert(more.drop_first() =~= Seq::empty());
            assert(encode_utf8(more.drop_first()) =~= Seq::empty());
        }
    } else {
        assert(kept =~= Seq::empty());
        assert(s.subrange(i, i) =~= Seq::empty());
    }
}

proof fn a_character_takes_its_bytes(c: char)
    ensures
        vstd::utf8::encode_scalar(c as u32).len() == utf8_width(c),
{
    vstd::utf8::char_is_scalar(c);
}

/// A digit more makes the number ten times as large and adds the digit, up to where the digits end.
pub proof fn a_number_is_read_digit_by_digit(bytes: Seq<u8>, i: int, end: int, n: nat)
    requires
        0 <= i < end,
        i < bytes.len(),
    ensures
        48 <= bytes[i] <= 57 ==> number_from(bytes, i, end, n) == number_from(bytes, i + 1, end, n * 10 + (bytes[i] - 48) as nat),
        !(48 <= bytes[i] <= 57) ==> number_from(bytes, i, end, n) == n,
        number_from(bytes, end, end, n) == n,
{
}

/// A reply begins with its number, as `{"id":`, and is ours where the number lies in our range; a reply to
/// somebody else is not read, an event is.
pub proof fn only_replies_to_us_are_read(bytes: Seq<u8>)
    ensures
        looks_like_reply(bytes) <==> bytes.len() >= 6 && bytes[0] == '{' as u8 && bytes[1] == '"' as u8 && bytes[2] == 'i' as u8 && bytes[3] == 'd' as u8
            && bytes[4] == '"' as u8 && bytes[5] == ':' as u8,
        is_ours(bytes) ==> looks_like_reply(bytes) && 0x7000_0000 <= number_from(bytes, 6, 32, 0) <= 0x7FFF_FFFE,
        looks_like_reply(bytes) && bytes.len() > 6 && 48 <= bytes[6] <= 57 && 0x7000_0000 <= number_from(bytes, 6, 32, 0) <= 0x7FFF_FFFE ==> is_ours(bytes),
        is_kept(bytes) <==> bytes.len() <= 64 * 1024 * 1024 && (!looks_like_reply(bytes) || is_ours(bytes)),
{
    let start = reply_start();
    assert(start.len() == 6);
    if bytes.len() >= 6 {
        let head = bytes.subrange(0, 6);
        assert(head[0] == bytes[0] && head[1] == bytes[1] && head[2] == bytes[2] && head[3] == bytes[3] && head[4] == bytes[4] && head[5] == bytes[5]);
        if bytes[0] == 0x7B && bytes[1] == 0x22 && bytes[2] == 0x69 && bytes[3] == 0x64 && bytes[4] == 0x22 && bytes[5] == 0x3A {
            assert(head =~= start);
        }
    }
}

/// A reply with an error is a failure, with the error's own words where it has some.
pub proof fn an_error_in_a_reply_is_a_failure(msg: Json)
    ensures
        reply_error(msg) is Some <==> msg.member("error"@) is Some,
        msg.member("error"@) is Some && msg.member("error"@)->0.member("message"@) is None ==> reply_error(msg) == Some("DevTools error"@),
        msg.member("error"@) is Some && msg.member("error"@)->0.member("message"@) is Some && msg.member("error"@)->0.member("message"@)->0 is Text
            ==> reply_error(msg) == Some(msg.member("error"@)->0.member("message"@)->0->Text_0@),
        msg.member("id"@) is Some && msg.member("id"@)->0 is Number ==> reply_id(msg) == msg.member("id"@)->0->signed,
        msg.member("id"@) is None ==> reply_id(msg) is None,
{
}

/// A reply ends the wait for its message, an event is kept, and anything else changes nothing.
pub proof fn a_message_is_taken_for_what_it_is(c: ClientModel, msg: Json, params: Seq<char>, session: Seq<char>)
    ensures
        ({
            let after = delivered(Some(c), msg, params, session);
            let id = reply_id(msg);
            &&& after is Some
            &&& id is Some ==> !after->0.pending.contains(id->0 as i32) && after->0.events == c.events && after->0.next_id == c.next_id
            &&& id is None && text_of_arg(msg, "method"@) is Some ==> after->0.pending == c.pending && after->0.events.len() > 0 && after->0.events.last().method
                == text_of_arg(msg, "method"@)->0 && after->0.events.last().session == session
            &&& id is None && text_of_arg(msg, "method"@) is None ==> after->0 == c
        }),
        delivered(None, msg, params, session) is None,
{
    if reply_id(msg) is Some {
        let id = reply_id(msg)->0 as i32;
        a_message_is_answered_once(c, id, id);
    }
}

/// A browser of the shell is listed as a page under its number; what DevTools found is listed under its own
/// name, and belongs to no browser of the shell.
pub proof fn targets_are_listed_as_what_they_are(l: Listed, b: LiveBrowser, role: Seq<char>, info: Seq<char>)
    ensures
        lists_browser(l, b, role) ==> l.browser == Some(b.id) && l.kind@ == json_quoted("page"@) && l.url@ == b.url@ && l.role@ == role && l.title is None
            && l.id@ == json_quoted("browser:"@ + signed_decimal(b.id as int)),
        lists_found(l, info) ==> l.browser is None && l.role@ == "cdp"@,
        lists_found(l, info) && member_spelled(info, "targetId"@) is Some ==> l.id@ == member_spelled(info, "targetId"@)->0,
        lists_found(l, info) && member_spelled(info, "type"@) is Some ==> l.kind@ == member_spelled(info, "type"@)->0,
        lists_found(l, info) && string_member(info, "url"@) is Some ==> l.url@ == string_member(info, "url"@)->0,
        lists_found(l, info) && member_spelled(info, "title"@) is Some ==> l.title is Some && l.title->0@ == member_spelled(info, "title"@)->0,
{
}

/// What DevTools found is the list in its answer; without an answer or a list it found nothing.
pub proof fn what_devtools_found_is_in_its_answer(answer: Seq<char>, list: Seq<char>)
    ensures
        member_spelled(answer, "targetInfos"@) == Some(list) && items_spelled(list) is Some ==> found_in(Some(answer)) == items_spelled(list)->0,
        member_spelled(answer, "targetInfos"@) is None ==> found_in(Some(answer)).len() == 0,
        found_in(None).len() == 0,
{
}

#[verifier::spinoff_prover]
#[verifier::rlimit(40)]
proof fn an_evaluation_has_its_parameters_in_order(v0: Seq<char>, v1: Seq<char>, v2: Seq<char>, v3: Seq<char>)
    ensures
        "{\"awaitPromise\":"@ + v0 + ",\"expression\":"@ + v1 + ",\"returnByValue\":"@ + v2 + ",\"userGesture\":"@ + v3 + "}"@ == "{"@ + joined_by(
            seq![
                "\"awaitPromise\":"@ + v0,
                "\"expression\":"@ + v1,
                "\"returnByValue\":"@ + v2,
                "\"userGesture\":"@ + v3,
            ],
            ',',
        ) + "}"@,
{
    let p0 = seq!["\"awaitPromise\":"@ + v0];
    let h0 = "{\"awaitPromise\":"@ + v0;
    assert(h0 =~= "{"@ + joined_by(p0, ',')) by {
        reveal_strlit("{");
        reveal_strlit("{\"awaitPromise\":");
        reveal_strlit("\"awaitPromise\":");
    }
    let p1 = p0.push("\"expression\":"@ + v1);
    let h1 = h0 + ",\"expression\":"@ + v1;
    assert(",\"expression\":"@ =~= seq![','] + "\"expression\":"@) by {
        reveal_strlit(",\"expression\":");
        reveal_strlit("\"expression\":");
    }
    one_more_member_follows(h0, p0, ",\"expression\":"@, "\"expression\":"@, v1);
    let p2 = p1.push("\"returnByValue\":"@ + v2);
    let h2 = h1 + ",\"returnByValue\":"@ + v2;
    assert(",\"returnByValue\":"@ =~= seq![','] + "\"returnByValue\":"@) by {
        reveal_strlit(",\"returnByValue\":");
        reveal_strlit("\"returnByValue\":");
    }
    one_more_member_follows(h1, p1, ",\"returnByValue\":"@, "\"returnByValue\":"@, v2);
    let p3 = p2.push("\"userGesture\":"@ + v3);
    let h3 = h2 + ",\"userGesture\":"@ + v3;
    assert(",\"userGesture\":"@ =~= seq![','] + "\"userGesture\":"@) by {
        reveal_strlit(",\"userGesture\":");
        reveal_strlit("\"userGesture\":");
    }
    one_more_member_follows(h2, p2, ",\"userGesture\":"@, "\"userGesture\":"@, v3);
    assert(seq!["\"awaitPromise\":"@ + v0, "\"expression\":"@ + v1, "\"returnByValue\":"@ + v2, "\"userGesture\":"@ + v3] =~= p3);
}

/// An evaluation is asked for with its expression; the promise is awaited and the value returned unless the
/// arguments say otherwise.
pub proof fn an_evaluation_has_its_parameters(args: Json, expression: Seq<char>)
    ensures
        evaluate_params(args, expression) == "{"@ + joined_by(
            seq![
                "\"awaitPromise\":"@ + truth_spelled(truth_of_arg(args, "awaitPromise"@, true)),
                "\"expression\":"@ + json_quoted(expression),
                "\"returnByValue\":"@ + truth_spelled(truth_of_arg(args, "returnByValue"@, true)),
                "\"userGesture\":"@ + truth_spelled(truth_of_arg(args, "userGesture"@, false)),
            ],
            ',',
        ) + "}"@,
{
    an_evaluation_has_its_parameters_in_order(
        truth_spelled(truth_of_arg(args, "awaitPromise"@, true)),
        json_quoted(expression),
        truth_spelled(truth_of_arg(args, "returnByValue"@, true)),
        truth_spelled(truth_of_arg(args, "userGesture"@, false)),
    );
}

#[verifier::spinoff_prover]
#[verifier::rlimit(40)]
proof fn an_exception_has_its_members_in_order(v0: Seq<char>, v1: Seq<char>)
    ensures
        "{\"stack\":"@ + v0 + ",\"text\":"@ + v1 + "}"@ == "{"@ + joined_by(
            seq![
                "\"stack\":"@ + v0,
                "\"text\":"@ + v1,
            ],
            ',',
        ) + "}"@,
{
    let p0 = seq!["\"stack\":"@ + v0];
    let h0 = "{\"stack\":"@ + v0;
    assert(h0 =~= "{"@ + joined_by(p0, ',')) by {
        reveal_strlit("{");
        reveal_strlit("{\"stack\":");
        reveal_strlit("\"stack\":");
    }
    let p1 = p0.push("\"text\":"@ + v1);
    let h1 = h0 + ",\"text\":"@ + v1;
    assert(",\"text\":"@ =~= seq![','] + "\"text\":"@) by {
        reveal_strlit(",\"text\":");
        reveal_strlit("\"text\":");
    }
    one_more_member_follows(h0, p0, ",\"text\":"@, "\"text\":"@, v1);
    assert(seq!["\"stack\":"@ + v0, "\"text\":"@ + v1] =~= p1);
}

/// An exception is told with its stack and its words.
pub proof fn an_exception_has_its_members(text: Seq<char>, stack: Seq<char>)
    ensures
        thrown_spelled(text, stack) == "{"@ + joined_by(
            seq![
                "\"stack\":"@ + stack,
                "\"text\":"@ + json_quoted(text),
            ],
            ',',
        ) + "}"@,
{
    an_exception_has_its_members_in_order(
        stack,
        json_quoted(text),
    );
}

#[verifier::spinoff_prover]
#[verifier::rlimit(40)]
proof fn an_event_has_its_members_in_order(v0: Seq<char>, v1: Seq<char>, v2: Seq<char>)
    ensures
        "{\"method\":"@ + v0 + ",\"params\":"@ + v1 + ",\"sessionId\":"@ + v2 + "}"@ == "{"@ + joined_by(
            seq![
                "\"method\":"@ + v0,
                "\"params\":"@ + v1,
                "\"sessionId\":"@ + v2,
            ],
            ',',
        ) + "}"@,
{
    let p0 = seq!["\"method\":"@ + v0];
    let h0 = "{\"method\":"@ + v0;
    assert(h0 =~= "{"@ + joined_by(p0, ',')) by {
        reveal_strlit("{");
        reveal_strlit("{\"method\":");
        reveal_strlit("\"method\":");
    }
    let p1 = p0.push("\"params\":"@ + v1);
    let h1 = h0 + ",\"params\":"@ + v1;
    assert(",\"params\":"@ =~= seq![','] + "\"params\":"@) by {
        reveal_strlit(",\"params\":");
        reveal_strlit("\"params\":");
    }
    one_more_member_follows(h0, p0, ",\"params\":"@, "\"params\":"@, v1);
    let p2 = p1.push("\"sessionId\":"@ + v2);
    let h2 = h1 + ",\"sessionId\":"@ + v2;
    assert(",\"sessionId\":"@ =~= seq![','] + "\"sessionId\":"@) by {
        reveal_strlit(",\"sessionId\":");
        reveal_strlit("\"sessionId\":");
    }
    one_more_member_follows(h1, p1, ",\"sessionId\":"@, "\"sessionId\":"@, v2);
    assert(seq!["\"method\":"@ + v0, "\"params\":"@ + v1, "\"sessionId\":"@ + v2] =~= p2);
}

/// An event is told with its method, its parameters and its session.
pub proof fn an_event_has_its_members(e: EventModel)
    ensures
        event_spelled(e) == "{"@ + joined_by(
            seq![
                "\"method\":"@ + json_quoted(e.method),
                "\"params\":"@ + json_quoted(e.params),
                "\"sessionId\":"@ + e.session,
            ],
            ',',
        ) + "}"@,
{
    an_event_has_its_members_in_order(
        json_quoted(e.method),
        json_quoted(e.params),
        e.session,
    );
}

#[verifier::spinoff_prover]
#[verifier::rlimit(40)]
proof fn a_listed_browser_has_its_members_in_order(v0: Seq<char>, v1: Seq<char>, v2: Seq<char>, v3: Seq<char>, v4: Seq<char>)
    ensures
        "{\"browser\":"@ + v0 + ",\"id\":"@ + v1 + ",\"role\":"@ + v2 + ",\"type\":"@ + v3 + ",\"url\":"@ + v4 + "}"@ == "{"@ + joined_by(
            seq![
                "\"browser\":"@ + v0,
                "\"id\":"@ + v1,
                "\"role\":"@ + v2,
                "\"type\":"@ + v3,
                "\"url\":"@ + v4,
            ],
            ',',
        ) + "}"@,
{
    let p0 = seq!["\"browser\":"@ + v0];
    let h0 = "{\"browser\":"@ + v0;
    assert(h0 =~= "{"@ + joined_by(p0, ',')) by {
        reveal_strlit("{");
        reveal_strlit("{\"browser\":");
        reveal_strlit("\"browser\":");
    }
    let p1 = p0.push("\"id\":"@ + v1);
    let h1 = h0 + ",\"id\":"@ + v1;
    assert(",\"id\":"@ =~= seq![','] + "\"id\":"@) by {
        reveal_strlit(",\"id\":");
        reveal_strlit("\"id\":");
    }
    one_more_member_follows(h0, p0, ",\"id\":"@, "\"id\":"@, v1);
    let p2 = p1.push("\"role\":"@ + v2);
    let h2 = h1 + ",\"role\":"@ + v2;
    assert(",\"role\":"@ =~= seq![','] + "\"role\":"@) by {
        reveal_strlit(",\"role\":");
        reveal_strlit("\"role\":");
    }
    one_more_member_follows(h1, p1, ",\"role\":"@, "\"role\":"@, v2);
    let p3 = p2.push("\"type\":"@ + v3);
    let h3 = h2 + ",\"type\":"@ + v3;
    assert(",\"type\":"@ =~= seq![','] + "\"type\":"@) by {
        reveal_strlit(",\"type\":");
        reveal_strlit("\"type\":");
    }
    one_more_member_follows(h2, p2, ",\"type\":"@, "\"type\":"@, v3);
    let p4 = p3.push("\"url\":"@ + v4);
    let h4 = h3 + ",\"url\":"@ + v4;
    assert(",\"url\":"@ =~= seq![','] + "\"url\":"@) by {
        reveal_strlit(",\"url\":");
        reveal_strlit("\"url\":");
    }
    one_more_member_follows(h3, p3, ",\"url\":"@, "\"url\":"@, v4);
    assert(seq!["\"browser\":"@ + v0, "\"id\":"@ + v1, "\"role\":"@ + v2, "\"type\":"@ + v3, "\"url\":"@ + v4] =~= p4);
}

/// A browser of the shell is listed with its number, its role, its kind and its address.
pub proof fn a_listed_browser_has_its_members(l: Listed, browser: i32)
    ensures
        listed_spelled(Listed { browser: Some(browser), ..l }) == "{"@ + joined_by(
            seq![
                "\"browser\":"@ + signed_decimal(browser as int),
                "\"id\":"@ + l.id@,
                "\"role\":"@ + json_quoted(l.role@),
                "\"type\":"@ + l.kind@,
                "\"url\":"@ + json_quoted(l.url@),
            ],
            ',',
        ) + "}"@,
{
    a_listed_browser_has_its_members_in_order(
        signed_decimal(browser as int),
        l.id@,
        json_quoted(l.role@),
        l.kind@,
        json_quoted(l.url@),
    );
}

#[verifier::spinoff_prover]
#[verifier::rlimit(40)]
proof fn a_message_has_its_members_in_order(v0: Seq<char>, v1: Seq<char>, v2: Seq<char>, v3: Seq<char>)
    ensures
        "{\"id\":"@ + v0 + ",\"method\":"@ + v1 + ",\"params\":"@ + v2 + ",\"sessionId\":"@ + v3 + "}"@ == "{"@ + joined_by(
            seq![
                "\"id\":"@ + v0,
                "\"method\":"@ + v1,
                "\"params\":"@ + v2,
                "\"sessionId\":"@ + v3,
            ],
            ',',
        ) + "}"@,
{
    let p0 = seq!["\"id\":"@ + v0];
    let h0 = "{\"id\":"@ + v0;
    assert(h0 =~= "{"@ + joined_by(p0, ',')) by {
        reveal_strlit("{");
        reveal_strlit("{\"id\":");
        reveal_strlit("\"id\":");
    }
    let p1 = p0.push("\"method\":"@ + v1);
    let h1 = h0 + ",\"method\":"@ + v1;
    assert(",\"method\":"@ =~= seq![','] + "\"method\":"@) by {
        reveal_strlit(",\"method\":");
        reveal_strlit("\"method\":");
    }
    one_more_member_follows(h0, p0, ",\"method\":"@, "\"method\":"@, v1);
    let p2 = p1.push("\"params\":"@ + v2);
    let h2 = h1 + ",\"params\":"@ + v2;
    assert(",\"params\":"@ =~= seq![','] + "\"params\":"@) by {
        reveal_strlit(",\"params\":");
        reveal_strlit("\"params\":");
    }
    one_more_member_follows(h1, p1, ",\"params\":"@, "\"params\":"@, v2);
    let p3 = p2.push("\"sessionId\":"@ + v3);
    let h3 = h2 + ",\"sessionId\":"@ + v3;
    assert(",\"sessionId\":"@ =~= seq![','] + "\"sessionId\":"@) by {
        reveal_strlit(",\"sessionId\":");
        reveal_strlit("\"sessionId\":");
    }
    one_more_member_follows(h2, p2, ",\"sessionId\":"@, "\"sessionId\":"@, v3);
    assert(seq!["\"id\":"@ + v0, "\"method\":"@ + v1, "\"params\":"@ + v2, "\"sessionId\":"@ + v3] =~= p3);
}

/// A message has its number, its method and its parameters, and the session where there is one.
pub proof fn a_message_has_its_members(id: i32, method: Seq<char>, params: Seq<char>, session: Seq<char>)
    ensures
        message_text(id, method, params, Some(session)) == "{"@ + joined_by(
            seq![
                "\"id\":"@ + signed_decimal(id as int),
                "\"method\":"@ + json_quoted(method),
                "\"params\":"@ + params,
                "\"sessionId\":"@ + json_quoted(session),
            ],
            ',',
        ) + "}"@,
{
    let head = "{\"id\":"@ + signed_decimal(id as int) + ",\"method\":"@ + json_quoted(method) + ",\"params\":"@ + params;
    let named = ",\"sessionId\":"@;
    assert(head + (named + json_quoted(session)) =~= head + named + json_quoted(session));
    a_message_has_its_members_in_order(
        signed_decimal(id as int),
        json_quoted(method),
        params,
        json_quoted(session),
    );
}

#[verifier::spinoff_prover]
#[verifier::rlimit(40)]
proof fn a_message_without_a_session_has_its_members_in_order(v0: Seq<char>, v1: Seq<char>, v2: Seq<char>)
    ensures
        "{\"id\":"@ + v0 + ",\"method\":"@ + v1 + ",\"params\":"@ + v2 + "}"@ == "{"@ + joined_by(
            seq![
                "\"id\":"@ + v0,
                "\"method\":"@ + v1,
                "\"params\":"@ + v2,
            ],
            ',',
        ) + "}"@,
{
    let p0 = seq!["\"id\":"@ + v0];
    let h0 = "{\"id\":"@ + v0;
    assert(h0 =~= "{"@ + joined_by(p0, ',')) by {
        reveal_strlit("{");
        reveal_strlit("{\"id\":");
        reveal_strlit("\"id\":");
    }
    let p1 = p0.push("\"method\":"@ + v1);
    let h1 = h0 + ",\"method\":"@ + v1;
    assert(",\"method\":"@ =~= seq![','] + "\"method\":"@) by {
        reveal_strlit(",\"method\":");
        reveal_strlit("\"method\":");
    }
    one_more_member_follows(h0, p0, ",\"method\":"@, "\"method\":"@, v1);
    let p2 = p1.push("\"params\":"@ + v2);
    let h2 = h1 + ",\"params\":"@ + v2;
    assert(",\"params\":"@ =~= seq![','] + "\"params\":"@) by {
        reveal_strlit(",\"params\":");
        reveal_strlit("\"params\":");
    }
    one_more_member_follows(h1, p1, ",\"params\":"@, "\"params\":"@, v2);
    assert(seq!["\"id\":"@ + v0, "\"method\":"@ + v1, "\"params\":"@ + v2] =~= p2);
}

/// A message to the browser itself names no session.
pub proof fn a_message_without_a_session_has_its_members(id: i32, method: Seq<char>, params: Seq<char>)
    ensures
        message_text(id, method, params, None) == "{"@ + joined_by(
            seq![
                "\"id\":"@ + signed_decimal(id as int),
                "\"method\":"@ + json_quoted(method),
                "\"params\":"@ + params,
            ],
            ',',
        ) + "}"@,
{
    let head = "{\"id\":"@ + signed_decimal(id as int) + ",\"method\":"@ + json_quoted(method) + ",\"params\":"@ + params;
    assert(head + Seq::<char>::empty() =~= head);
    a_message_without_a_session_has_its_members_in_order(
        signed_decimal(id as int),
        json_quoted(method),
        params,
    );
}

/// The limits of the client.
pub proof fn the_limits_of_the_client()
    ensures
        ID_BASE == 0x7000_0000,
        ID_MAX == 0x7FFF_FFFE,
        MAX_EVENTS == 200,
        MAX_PARAMS == 2000,
        MAX_MESSAGE == 64 * 1024 * 1024,
        HEAD == 32,
{
}

/// A message changes the client of its browser alone. A reply that is waited for is handed on with its number, as a
/// failure where it has an error; one that is not is nothing.
pub proof fn a_reply_reaches_who_waits_for_it(before: Clients, after: Clients, browser: i32, msg: Json, params: Seq<char>, result: Seq<char>, session: Seq<char>, r: Delivered, other: i32)
    requires
        takes_message(before, after, browser, msg, params, result, session, r),
    ensures
        other != browser ==> after.client(other) == before.client(other),
        before.client(browser) is None ==> after.client(browser) is None,
        reply_id(msg) is Some && before.client(browser) is Some && before.client(browser)->0.pending.contains(reply_id(msg)->0 as i32) ==> {
            &&& r is Reply && r->id == reply_id(msg)->0 as i32
            &&& reply_error(msg) is None ==> r->answer is Ok && r->answer->Ok_0@ == result
            &&& reply_error(msg) is Some ==> r->answer is Err && r->answer->Err_0@ == reply_error(msg)->0
            &&& !after.client(browser)->0.pending.contains(reply_id(msg)->0 as i32)
        },
        reply_id(msg) is Some && (before.client(browser) is None || !before.client(browser)->0.pending.contains(reply_id(msg)->0 as i32)) ==> r is Nothing,
{
    if other != browser {
        assert(after.clients@.remove(browser).contains_key(other) <==> after.clients@.contains_key(other));
        assert(before.clients@.remove(browser).contains_key(other) <==> before.clients@.contains_key(other));
        assert(after.clients@.remove(browser)[other] == after.clients@[other]);
        assert(before.clients@.remove(browser)[other] == before.clients@[other]);
    }
    if reply_id(msg) is Some && before.client(browser) is Some {
        let id = reply_id(msg)->0 as i32;
        a_message_is_answered_once(before.client(browser)->0, id, id);
    }
}

} // verus!
