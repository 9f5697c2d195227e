//! Remote search suggestions for the command bar.
//!
//! Of the requests of one browser only the newest counts: a new one ends the one in flight, which is
//! answered with no suggestions at once. Whatever goes wrong (a network error, a status other than 200,
//! a body over [`MAX_BODY_BYTES`], no answer within [`TIMEOUT_MS`]) the answer is an empty list.
//!
//! [`Suggest`] is the state; its functions say what has to be done ([`Effect`]). Requests are known by
//! their number; the URL request itself, once it was created, is held outside.
use crate::counter::{bump, next_number};
use crate::json::{json_list, json_quoted, json_string, string_list};
use crate::text::{
    chars_of, copy_text, has_prefix, is_white, lower, replace_text, replaced_from, same_text, text_of, trim_end, trim_start, trim_start_text, trim_text,
    trimmed,
};
use crate::urls::{encode_uri_component, is_letter, letter, scheme, scheme_of, uri_component};
use std::collections::HashMap;
use vstd::prelude::*;

verus! {

broadcast use vstd::std_specs::hash::group_hash_axioms;

/// A request without an answer after this long resolves with no suggestions.
pub const TIMEOUT_MS: i64 = 1500;

/// Largest accepted response body.
pub const MAX_BODY_BYTES: usize = 65536;

/// Longer input is never sent.
pub const MAX_TEXT_CHARS: usize = 256;

// ------------------------------------------------------------------------------ what is sent

/// Schemes that make typed text an address even without `//`.
pub open spec fn is_address_scheme(s: Seq<char>) -> bool {
    ||| s == "http"@
    ||| s == "https"@
    ||| s == "file"@
    ||| s == "sta"@
    ||| s == "about"@
    ||| s == "data"@
    ||| s == "view-source"@
    ||| s == "chrome"@
    ||| s == "chrome-error"@
    ||| s == "devtools"@
    ||| s == "chrome-devtools"@
    ||| s == "javascript"@
    ||| s == "blob"@
    ||| s == "filesystem"@
    ||| s == "mailto"@
    ||| s == "tel"@
    ||| s == "sms"@
    ||| s == "ftp"@
    ||| s == "ws"@
    ||| s == "wss"@
}

fn address_scheme(s: &str) -> (r: bool)
    ensures
        r == is_address_scheme(s@),
{
    same_text(s, "http") || same_text(s, "https") || same_text(s, "file") || same_text(s, "sta") || same_text(s, "about")
        || same_text(s, "data") || same_text(s, "view-source") || same_text(s, "chrome") || same_text(s, "chrome-error")
        || same_text(s, "devtools") || same_text(s, "chrome-devtools") || same_text(s, "javascript") || same_text(s, "blob")
        || same_text(s, "filesystem") || same_text(s, "mailto") || same_text(s, "tel") || same_text(s, "sms") || same_text(s, "ftp")
        || same_text(s, "ws") || same_text(s, "wss")
}

/// `C:\...` or `c:/...`.
pub open spec fn is_drive_path(t: Seq<char>) -> bool {
    t.len() >= 3 && is_letter(t[0]) && t[1] == ':' && (t[2] == '\\' || t[2] == '/')
}

/// The text is an address: a Windows path, or a URL with an explicit scheme.
pub open spec fn is_url_like(t: Seq<char>) -> bool {
    is_drive_path(t) || "\\\\"@.is_prefix_of(t) || match scheme_of(t) {
        Some(name) => name.len() >= 2 && (is_address_scheme(name) || "//"@.is_prefix_of(t.skip(name.len() as int + 1))),
        None => false,
    }
}

/// The text is an address.
pub fn url_like(t: &str) -> (r: bool)
    ensures
        r == is_url_like(t@),
{
    let cs = chars_of(t);
    let drive_path = cs.len() >= 3 && letter(cs[0]) && cs[1] == ':' && (cs[2] == '\\' || cs[2] == '/');
    if drive_path || has_prefix(t, "\\\\") {
        return true;
    }
    match scheme(t) {
        Some(name) => {
            let n: usize = chars_of(name.as_str()).len();
            if n < 2 {
                return false;
            }
            proof {
                crate::urls::scheme_fits(t@, 0);
            }
            let rest = text_of(cs.as_slice(), n + 1, cs.len());
            proof {
                assert(rest@ =~= t@.skip(n + 1));
            }
            address_scheme(name.as_str()) || has_prefix(rest.as_str(), "//")
        },
        None => false,
    }
}

/// The text that is sent to the search engine for what was typed.
pub open spec fn query_of(text: Seq<char>) -> Option<Seq<char>> {
    let t = trim_start(text);
    let forced = t.len() > 0 && t[0] == '?';
    let query = if forced { trim_start(t.skip(1)) } else { t };
    if text.len() > MAX_TEXT_CHARS || (!forced && is_url_like(t)) || trimmed(query).len() == 0 {
        None
    } else {
        Some(query)
    }
}

/// The text sent to the search engine for `text`: `None` when it is blank, longer than
/// [`MAX_TEXT_CHARS`], or URL-like with an explicit scheme (`https://...`, `mailto:...`) or a Windows
/// path. A leading `?` (forced search) is stripped, and whatever follows it is a search, so it is sent.
/// Trailing white space is kept.
pub fn fetch_query(text: &str) -> (r: Option<String>)
    ensures
        match r {
            Some(q) => query_of(text@) == Some(q@),
            None => query_of(text@) is None,
        },
{
    let typed = chars_of(text);
    if typed.len() > MAX_TEXT_CHARS {
        return None;
    }
    let t = trim_start_text(text);
    let cs = chars_of(t.as_str());
    let query = if cs.len() > 0 && cs[0] == '?' {
        let rest = text_of(cs.as_slice(), 1, cs.len());
        proof {
            assert(rest@ =~= t@.skip(1));
        }
        trim_start_text(rest.as_str())
    } else {
        if url_like(t.as_str()) {
            return None;
        }
        t
    };
    let bare = trim_text(query.as_str());
    if bare.as_str().is_empty() {
        None
    } else {
        Some(query)
    }
}

/// The endpoint that replaces the engine's in a test run: what the environment variable holds, unless
/// that is blank.
pub fn test_endpoint(variable: Option<String>) -> (r: Option<String>)
    ensures
        r == (if variable is Some && trimmed(variable->0@).len() > 0 { variable } else { None }),
{
    match variable {
        Some(v) => {
            let bare = trim_text(v.as_str());
            if bare.as_str().is_empty() { None } else { Some(v) }
        },
        None => None,
    }
}

/// The URL to fetch and the query that it carries, or `None` when nothing may be sent. `engine_url` is
/// the engine's URL for the query, where it has a suggestion endpoint; `template` replaces it, with the
/// encoded query in place of `{q}`.
pub fn endpoint(enabled: bool, text: &str, engine_url: Option<String>, template: Option<&str>) -> (r: Option<(String, String)>)
    ensures
        r is Some <==> enabled && query_of(text@) is Some && engine_url is Some,
        match r {
            Some(sent) => {
                &&& query_of(text@) == Some(sent.1@)
                &&& sent.0@ == match template {
                    Some(t) => replaced_from(t@, "{q}"@, uri_component(sent.1@), 0),
                    None => engine_url->0@,
                }
            },
            None => true,
        },
{
    if !enabled {
        return None;
    }
    match (fetch_query(text), engine_url) {
        (Some(query), Some(url)) => match template {
            Some(t) => {
                let encoded = encode_uri_component(query.as_str());
                proof {
                    reveal_strlit("{q}");
                }
                Some((replace_text(t, "{q}", encoded.as_str()), query))
            },
            None => Some((url, query)),
        },
        _ => None,
    }
}

// ------------------------------------------------------------------------------ the requests

/// A request in flight.
pub struct Pending {
    pub id: u64,
    /// The text as the page sent it (echoed in the reply).
    pub text: String,
    /// The text sent to the engine.
    pub query: String,
    pub body: Vec<u8>,
    /// The URL request was created.
    pub requested: bool,
}

/// How many requests went which way.
#[derive(Debug, Clone, Copy, PartialEq, Eq, Structural)]
pub struct Stats {
    pub started: u64,
    pub succeeded: u64,
    pub failed: u64,
    pub superseded: u64,
    pub timed_out: u64,
    pub skipped: u64,
}

/// Why a request ended without suggestions.
#[derive(Debug, Clone, Copy, PartialEq, Eq, Structural)]
pub enum Failure {
    Network,
    Status(i32),
    TooLarge,
    TimedOut,
    Superseded,
}

/// What has to be done.
pub enum Effect {
    /// Answer request `id` with the suggestions that `body` holds for `query`.
    Suggest { id: u64, text: String, body: Vec<u8>, query: String },
    /// Answer request `id` with no suggestions.
    Nothing { id: u64, text: String },
    /// Answer the caller, who has no request, with no suggestions.
    Skip { text: String },
    /// Create the URL request of request `id`.
    Fetch { id: u64, url: String },
    /// Let go of the URL request, and cancel it first if it is still running and `cancel` says so.
    Release { id: u64, cancel: bool },
    /// Time the request out later.
    TimeOutLater { id: u64, after_ms: i64 },
}

/// The requests in flight, one per calling browser.
pub struct Suggest {
    pub pending: HashMap<i32, Pending>,
    pub next_id: u64,
    pub stats: Stats,
}

/// What ends a request that has left the map.
pub open spec fn concluded(p: Pending, ok: bool) -> Seq<Effect> {
    seq![
        if ok {
            (Effect::Suggest { id: p.id, text: p.text, body: p.body, query: p.query })
        } else {
            (Effect::Nothing { id: p.id, text: p.text })
        },
    ] + (if p.requested {
        seq![(Effect::Release { id: p.id, cancel: !ok })]
    } else {
        Seq::empty()
    })
}

/// The number of the request of a browser.
pub open spec fn is_current(pending: Map<i32, Pending>, browser: i32, id: u64) -> bool {
    pending.contains_key(browser) && pending[browser].id == id
}

/// The requests and the effects after request `id` of `browser` ended.
pub open spec fn finished(pending: Map<i32, Pending>, browser: i32, id: u64, ok: bool) -> (Map<i32, Pending>, Seq<Effect>) {
    if is_current(pending, browser, id) {
        (pending.remove(browser), concluded(pending[browser], ok))
    } else {
        (pending, Seq::empty())
    }
}

/// The counters after request `id` of `browser` ended.
pub open spec fn counted(stats: Stats, result: Result<(), Failure>) -> Stats {
    match result {
        Ok(_) => (Stats { succeeded: next_number(stats.succeeded), ..stats }),
        Err(Failure::TimedOut) => (Stats { timed_out: next_number(stats.timed_out), ..stats }),
        Err(_) => (Stats { failed: next_number(stats.failed), ..stats }),
    }
}

/// A request that just began.
pub open spec fn is_fresh(p: Pending, id: u64, text: Seq<char>, query: Seq<char>) -> bool {
    p.id == id && p.text@ == text && p.query@ == query && p.body@.len() == 0 && !p.requested
}

fn conclude(p: Pending, ok: bool, out: &mut Vec<Effect>)
    ensures
        final(out)@ == old(out)@ + concluded(p, ok),
{
    let id: u64 = p.id;
    let requested = p.requested;
    if ok {
        out.push(Effect::Suggest { id, text: p.text, body: p.body, query: p.query });
    } else {
        out.push(Effect::Nothing { id, text: p.text });
    }
    if requested {
        out.push(Effect::Release { id, cancel: !ok });
    }
    proof {
        assert(out@ =~= old(out)@ + concluded(p, ok));
    }
}

impl Suggest {
    /// Nothing in flight.
    pub fn new() -> (r: Suggest)
        ensures
            r.pending@ == Map::<i32, Pending>::empty(),
            r.next_id == 1,
            r.stats == (Stats { started: 0, succeeded: 0, failed: 0, superseded: 0, timed_out: 0, skipped: 0 }),
    {
        Suggest {
            pending: HashMap::new(),
            next_id: 1,
            stats: Stats { started: 0, succeeded: 0, failed: 0, superseded: 0, timed_out: 0, skipped: 0 },
        }
    }
}

/// A request of `browser`: supersedes the one in flight, then either answers right away or asks for
/// a URL request that answers later. `endpoint` is what [`endpoint`] said for `text`.
pub fn start(state: &mut Suggest, browser: i32, text: String, endpoint: Option<(String, String)>) -> (r: Vec<Effect>)
    ensures
        ({
            let before = old(state).pending@;
            let busy = before.contains_key(browser);
            let ended = if busy { concluded(before[browser], false) } else { Seq::empty() };
            let stats = if busy {
                (Stats { superseded: next_number(old(state).stats.superseded), ..old(state).stats })
            } else {
                old(state).stats
            };
            match endpoint {
                None => {
                    &&& r@ == ended + seq![(Effect::Skip { text })]
                    &&& final(state).pending@ == before.remove(browser)
                    &&& final(state).next_id == old(state).next_id
                    &&& final(state).stats == (Stats { skipped: next_number(stats.skipped), ..stats })
                },
                Some(sent) => {
                    &&& r@ == ended + seq![(Effect::Fetch { id: old(state).next_id, url: sent.0 })]
                    &&& final(state).pending@.contains_key(browser)
                    &&& is_fresh(final(state).pending@[browser], old(state).next_id, text@, sent.1@)
                    &&& final(state).pending@.remove(browser) == before.remove(browser)
                    &&& final(state).next_id == next_number(old(state).next_id)
                    &&& final(state).stats == (Stats { started: next_number(stats.started), ..stats })
                },
            }
        }),
{
    let mut out: Vec<Effect> = Vec::new();
    match state.pending.remove(&browser) {
        Some(previous) => {
            state.stats.superseded = bump(state.stats.superseded);
            conclude(previous, false, &mut out);
        },
        None => {},
    }
    proof {
        let before = old(state).pending@;
        assert(state.pending@ =~= before.remove(browser));
        assert(out@ =~= (if before.contains_key(browser) { concluded(before[browser], false) } else { Seq::empty() }));
    }
    let ghost rest = state.pending@;
    match endpoint {
        None => {
            state.stats.skipped = bump(state.stats.skipped);
            out.push(Effect::Skip { text });
        },
        Some(sent) => {
            let id: u64 = state.next_id;
            state.next_id = bump(id);
            state.pending.insert(browser, Pending { id, text, query: sent.1, body: Vec::new(), requested: false });
            state.stats.started = bump(state.stats.started);
            out.push(Effect::Fetch { id, url: sent.0 });
            proof {
                assert(state.pending@.remove(browser) =~= rest);
            }
        },
    }
    out
}

/// Ends request `id` of `browser` if it is still the pending one (otherwise a no-op).
pub fn finish(state: &mut Suggest, browser: i32, id: u64, result: Result<(), Failure>) -> (r: Vec<Effect>)
    ensures
        (final(state).pending@, r@) == finished(old(state).pending@, browser, id, result is Ok),
        final(state).next_id == old(state).next_id,
        final(state).stats == (if is_current(old(state).pending@, browser, id) {
            counted(old(state).stats, result)
        } else {
            old(state).stats
        }),
{
    let mut out: Vec<Effect> = Vec::new();
    let current = match state.pending.get(&browser) {
        Some(p) => p.id == id,
        None => false,
    };
    if current {
        match state.pending.remove(&browser) {
            Some(p) => {
                match result {
                    Ok(_) => {
                        state.stats.succeeded = bump(state.stats.succeeded);
                    },
                    Err(Failure::TimedOut) => {
                        state.stats.timed_out = bump(state.stats.timed_out);
                    },
                    Err(_) => {
                        state.stats.failed = bump(state.stats.failed);
                    },
                }
                conclude(p, result.is_ok(), &mut out);
            },
            None => {},
        }
    }
    proof {
        let f = finished(old(state).pending@, browser, id, result is Ok);
        assert(state.pending@ =~= f.0);
        assert(out@ =~= f.1);
    }
    out
}

/// The URL request of request `id` was created, or could not be. (It may have ended the request
/// already.)
pub fn on_created(state: &mut Suggest, browser: i32, id: u64, created: bool) -> (r: Vec<Effect>)
    ensures
        final(state).next_id == old(state).next_id,
        !created ==> (final(state).pending@, r@) == finished(old(state).pending@, browser, id, false),
        !created ==> final(state).stats == (if is_current(old(state).pending@, browser, id) {
            counted(old(state).stats, Err(Failure::Network))
        } else {
            old(state).stats
        }),
        created ==> final(state).stats == old(state).stats,
        created && !is_current(old(state).pending@, browser, id) ==> final(state).pending@ == old(state).pending@ && r@ == seq![
            (Effect::Release { id, cancel: false }),
            (Effect::TimeOutLater { id, after_ms: TIMEOUT_MS }),
        ],
        created && is_current(old(state).pending@, browser, id) ==> final(state).pending@ == old(state).pending@.insert(
            browser,
            (Pending { requested: true, ..old(state).pending@[browser] }),
        ) && r@ == seq![(Effect::TimeOutLater { id, after_ms: TIMEOUT_MS })],
{
    if !created {
        return finish(state, browser, id, Err(Failure::Network));
    }
    let mut out: Vec<Effect> = Vec::new();
    let current = match state.pending.get(&browser) {
        Some(p) => p.id == id,
        None => false,
    };
    if current {
        match state.pending.remove(&browser) {
            Some(mut p) => {
                p.requested = true;
                state.pending.insert(browser, p);
            },
            None => {},
        }
    } else {
        out.push(Effect::Release { id, cancel: false });
    }
    out.push(Effect::TimeOutLater { id, after_ms: TIMEOUT_MS });
    proof {
        if current {
            assert(state.pending@ =~= old(state).pending@.insert(browser, (Pending { requested: true, ..old(state).pending@[browser] })));
        }
    }
    out
}

/// A piece of the body of request `id` arrived.
pub fn on_data(state: &mut Suggest, browser: i32, id: u64, chunk: &[u8]) -> (r: Vec<Effect>)
    ensures
        final(state).next_id == old(state).next_id,
        !is_current(old(state).pending@, browser, id) ==> r@.len() == 0 && final(state).pending@ == old(state).pending@
            && final(state).stats == old(state).stats,
        is_current(old(state).pending@, browser, id) ==> ({
            let p = old(state).pending@[browser];
            if p.body@.len() + chunk@.len() > MAX_BODY_BYTES {
                &&& (final(state).pending@, r@) == finished(old(state).pending@, browser, id, false)
                &&& final(state).stats == counted(old(state).stats, Err(Failure::TooLarge))
            } else {
                let q = final(state).pending@[browser];
                &&& r@.len() == 0
                &&& final(state).stats == old(state).stats
                &&& is_current(final(state).pending@, browser, id)
                &&& final(state).pending@.remove(browser) == old(state).pending@.remove(browser)
                &&& q.body@ == p.body@ + chunk@
                &&& q == (Pending { body: q.body, ..p })
            }
        }),
{
    let large = match state.pending.get(&browser) {
        Some(p) => {
            if p.id != id {
                return Vec::new();
            }
            p.body.len() > MAX_BODY_BYTES || chunk.len() > MAX_BODY_BYTES - p.body.len()
        },
        None => {
            return Vec::new();
        },
    };
    if large {
        return finish(state, browser, id, Err(Failure::TooLarge));
    }
    match state.pending.remove(&browser) {
        Some(mut p) => {
            crate::bytes::push_range(&mut p.body, chunk, 0, chunk.len());
            proof {
                assert(chunk@.subrange(0, chunk@.len() as int) =~= chunk@);
            }
            state.pending.insert(browser, p);
        },
        None => {},
    }
    proof {
        assert(state.pending@.remove(browser) =~= old(state).pending@.remove(browser));
    }
    Vec::new()
}

/// The URL request of request `id` is complete. `success`: it went through; `status`: the status of
/// its response, where there is one.
pub fn on_request_complete(state: &mut Suggest, browser: i32, id: u64, success: bool, status: Option<i32>) -> (r: Vec<Effect>)
    ensures
        (final(state).pending@, r@) == finished(old(state).pending@, browser, id, success && status == Some(200i32)),
        final(state).next_id == old(state).next_id,
        final(state).stats == (if is_current(old(state).pending@, browser, id) {
            counted(old(state).stats, request_result(success, status))
        } else {
            old(state).stats
        }),
{
    let result = match (success, status) {
        (true, Some(code)) => if code == 200 {
            Ok(())
        } else {
            Err(Failure::Status(code))
        },
        _ => Err(Failure::Network),
    };
    finish(state, browser, id, result)
}

/// Request `id` had no answer in time.
pub fn on_timeout(state: &mut Suggest, browser: i32, id: u64) -> (r: Vec<Effect>)
    ensures
        (final(state).pending@, r@) == finished(old(state).pending@, browser, id, false),
        final(state).next_id == old(state).next_id,
        final(state).stats == (if is_current(old(state).pending@, browser, id) {
            counted(old(state).stats, Err(Failure::TimedOut))
        } else {
            old(state).stats
        }),
{
    finish(state, browser, id, Err(Failure::TimedOut))
}

/// Drops every pending request.
pub fn clear(state: &mut Suggest)
    ensures
        final(state).pending@ == Map::<i32, Pending>::empty(),
        final(state).next_id == old(state).next_id,
        final(state).stats == old(state).stats,
{
    state.pending.clear();
}

/// How many requests are in flight, and the counters.
pub fn debug_snapshot(state: &Suggest) -> (r: (usize, Stats))
    ensures
        r == (state.pending@.len() as usize, state.stats),
        r.0 == state.pending@.len(),
{
    (state.pending.len(), state.stats)
}

/// How a URL request ended.
pub open spec fn request_result(success: bool, status: Option<i32>) -> Result<(), Failure> {
    match (success, status) {
        (true, Some(code)) => if code == 200 {
            Ok(())
        } else {
            Err(Failure::Status(code))
        },
        _ => Err(Failure::Network),
    }
}

/// The answer: an object with the suggestions and the text that they are for.
pub fn reply(text: &str, suggestions: &Vec<String>) -> (r: String)
    ensures
        r@ == "{\"suggestions\":"@ + json_list(suggestions@) + ",\"text\":"@ + json_quoted(text@) + "}"@,
{
    let mut out = copy_text("{\"suggestions\":");
    let list = string_list(suggestions);
    out.append(list.as_str());
    out.append(",\"text\":");
    let quoted = json_string(text);
    out.append(quoted.as_str());
    out.append("}");
    out
}

/// A request is answered once: after it ended, in whatever way, the same number ends nothing any more.
pub proof fn a_request_is_answered_once(pending: Map<i32, Pending>, browser: i32, id: u64, ok: bool, again: bool)
    ensures
        ({
            let after = finished(pending, browser, id, ok).0;
            &&& !is_current(after, browser, id)
            &&& finished(after, browser, id, again) == (after, Seq::<Effect>::empty())
        }),
{
}

/// Only the newest request of a browser counts: once another number took its place, nothing that comes
/// in for the old one has an effect, and other browsers' requests are left alone.
pub proof fn only_the_newest_request_counts(pending: Map<i32, Pending>, browser: i32, newest: Pending, id: u64, ok: bool)
    requires
        newest.id != id,
    ensures
        finished(pending.insert(browser, newest), browser, id, ok) == (pending.insert(browser, newest), Seq::<Effect>::empty()),
{
}

// ------------------------------------------------------------------------------ what holds

/// One of the schemes that make typed text an address.
pub open spec fn names_an_address(name: Seq<char>) -> bool {
    seq![
        "http"@,
        "https"@,
        "file"@,
        "sta"@,
        "about"@,
        "data"@,
        "view-source"@,
        "chrome"@,
        "chrome-error"@,
        "devtools"@,
        "chrome-devtools"@,
        "javascript"@,
        "blob"@,
        "filesystem"@,
        "mailto"@,
        "tel"@,
        "sms"@,
        "ftp"@,
        "ws"@,
        "wss"@,
    ].contains(name)
}

proof fn address_names_are_schemes(name: Seq<char>)
    requires
        names_an_address(name),
    ensures
        is_address_scheme(name),
        name.len() >= 2,
        'a' <= name[0] <= 'z',
        forall|k: int| 0 <= k < name.len() ==> 'a' <= #[trigger] name[k] <= 'z' || name[k] == '-',
        lower(name) == name,
{
    reveal_strlit("http");
    reveal_strlit("https");
    reveal_strlit("file");
    reveal_strlit("sta");
    reveal_strlit("about");
    reveal_strlit("data");
    reveal_strlit("view-source");
    reveal_strlit("chrome");
    reveal_strlit("chrome-error");
    reveal_strlit("devtools");
    reveal_strlit("chrome-devtools");
    reveal_strlit("javascript");
    reveal_strlit("blob");
    reveal_strlit("filesystem");
    reveal_strlit("mailto");
    reveal_strlit("tel");
    reveal_strlit("sms");
    reveal_strlit("ftp");
    reveal_strlit("ws");
    reveal_strlit("wss");
    assert(forall|k: int| 0 <= k < name.len() ==> 'a' <= #[trigger] name[k] <= 'z' || name[k] == '-');
    assert(lower(name) =~= name);
}

/// An address is never sent to the search engine: nothing behind one of the known schemes, nothing behind
/// another scheme and two slashes, no path with a drive and none with two backslashes.
pub proof fn an_address_is_never_sent(name: Seq<char>, rest: Seq<char>, other: Seq<char>)
    requires
        names_an_address(name),
        other.len() >= 2,
        'a' <= other[0] <= 'z' || 'A' <= other[0] <= 'Z',
        forall|k: int|
            0 <= k < other.len() ==> 'a' <= #[trigger] other[k] <= 'z' || 'A' <= other[k] <= 'Z' || '0' <= other[k] <= '9' || other[k] == '+' || other[k]
                == '-' || other[k] == '.',
    ensures
        query_of(name + seq![':'] + rest) is None,
        query_of(other + seq![':', '/', '/'] + rest) is None,
        query_of(seq![other[0], ':', '\\'] + rest) is None && query_of(seq![other[0], ':', '/'] + rest) is None,
        query_of(seq!['\\', '\\'] + rest) is None,
{
    address_names_are_schemes(name);
    let a = name + seq![':'] + rest;
    crate::urls::a_scheme_stands_before_the_colon(name, rest);
    assert(a[0] == name[0]);
    let b = other + seq![':', '/', '/'] + rest;
    let tail = seq!['/', '/'] + rest;
    crate::urls::a_scheme_stands_before_the_colon(other, tail);
    assert(b =~= other + seq![':'] + tail);
    assert(b[0] == other[0]);
    assert(lower(other).len() == other.len());
    assert("//"@.is_prefix_of(b.skip(other.len() as int + 1))) by {
        reveal_strlit("//");
        let t = b.skip(other.len() as int + 1);
        assert(t =~= tail);
        assert("//"@ =~= t.subrange(0, 2));
    }
    let c = seq![other[0], ':', '\\'] + rest;
    assert(c[0] == other[0] && c[1] == ':' && c[2] == '\\');
    let d = seq![other[0], ':', '/'] + rest;
    assert(d[0] == other[0] && d[1] == ':' && d[2] == '/');
    let e = seq!['\\', '\\'] + rest;
    assert("\\\\"@.is_prefix_of(e)) by {
        reveal_strlit("\\\\");
        assert("\\\\"@ =~= e.subrange(0, 2));
    }
    assert(e[0] == '\\');
}

proof fn a_scheme_has_a_colon(s: Seq<char>)
    requires
        scheme_of(s) is Some,
    ensures
        s.contains(':'),
{
    crate::urls::scheme_fits(s, 0);
    let end = crate::urls::scheme_end(s, 0);
    assert(s[end] == ':');
}

/// Whatever else was typed is sent as it was typed, up to 256 characters; behind a question mark also what
/// would be an address, without the mark. Nothing longer is sent, and nothing blank.
pub proof fn a_search_is_sent_as_it_was_typed(text: Seq<char>)
    requires
        text.len() > 0,
        !is_white(text[0]),
    ensures
        text.len() > 256 ==> query_of(text) is None,
        text.len() <= 256 && !text.contains(':') && text[0] != '?' && text[0] != '\\' ==> query_of(text) == Some(text),
        text.len() < 256 ==> query_of(seq!['?'] + text) == Some(text),
        text.len() < 256 && !text.contains(':') && text[0] != '?' && text[0] != '\\' ==> query_of(seq![' '] + text) == Some(text),
        query_of(Seq::empty()) is None && query_of(seq!['?']) is None && query_of(seq![' ', '\t']) is None,
{
    crate::text::trimming_takes_the_white_space_off(text);
    assert(trim_start(text) == text);
    assert(trimmed(text).len() > 0) by {
        if trimmed(text).len() == 0 {
            let from = choose|from: int|
                {
                    &&& 0 <= from <= from + trimmed(text).len() <= text.len()
                    &&& #[trigger] text.subrange(from, from + trimmed(text).len()) == trimmed(text)
                    &&& forall|k: int| 0 <= k < from || from + trimmed(text).len() <= k < text.len() ==> is_white(#[trigger] text[k])
                };
            assert(is_white(text[0]));
        }
    }
    if !text.contains(':') && text[0] != '\\' {
        if scheme_of(text) is Some {
            a_scheme_has_a_colon(text);
        }
        assert(!is_drive_path(text)) by {
            if text.len() >= 3 && text[1] == ':' {
                assert(text.contains(text[1]));
            }
        }
        assert(!"\\\\"@.is_prefix_of(text)) by {
            reveal_strlit("\\\\");
            if "\\\\"@.is_prefix_of(text) {
                assert("\\\\"@[0] == text.subrange(0, 2)[0]);
            }
        }
    }
    let forced = seq!['?'] + text;
    assert(forced[0] == '?');
    assert(trim_start(forced) == forced);
    assert(forced.skip(1) =~= text);
    let spaced = seq![' '] + text;
    assert(spaced[0] == ' ');
    assert(spaced.skip(1) =~= text);
    assert(trim_start(spaced) == trim_start(text));
    let none = Seq::<char>::empty();
    assert(trim_start(none) == none);
    assert(trim_end(none) == none);
    let mark = seq!['?'];
    assert(trim_start(mark) == mark);
    assert(mark.skip(1) =~= none);
    let blank = seq![' ', '\t'];
    assert(blank.skip(1) =~= seq!['\t']);
    assert(seq!['\t'].skip(1) =~= none);
    assert(trim_start(seq!['\t']) == trim_start(none));
    assert(trim_start(blank) == trim_start(seq!['\t']));
}

/// A request ends with one answer: the suggestions of its body where it went well, none where it did not;
/// the URL request is let go of exactly if there is one, and cancelled where the request did not end well.
pub proof fn a_request_ends_with_one_answer(p: Pending, ok: bool)
    ensures
        concluded(p, ok).len() == (if p.requested { 2int } else { 1 }),
        ok ==> concluded(p, ok)[0] == (Effect::Suggest { id: p.id, text: p.text, body: p.body, query: p.query }),
        !ok ==> concluded(p, ok)[0] == (Effect::Nothing { id: p.id, text: p.text }),
        p.requested && ok ==> concluded(p, ok)[1] == (Effect::Release { id: p.id, cancel: false }),
        p.requested && !ok ==> concluded(p, ok)[1] == (Effect::Release { id: p.id, cancel: true }),
{
}

/// A request that ends leaves its browser's place, and only if it is the one that stands there.
pub proof fn a_request_leaves_its_place(pending: Map<i32, Pending>, browser: i32, id: u64, ok: bool)
    ensures
        pending.contains_key(browser) && pending[browser].id == id ==> finished(pending, browser, id, ok).0 == pending.remove(browser) && finished(
            pending,
            browser,
            id,
            ok,
        ).1.len() > 0,
        !pending.contains_key(browser) || pending[browser].id != id ==> finished(pending, browser, id, ok) == (pending, Seq::<Effect>::empty()),
{
}

/// Only an answer with status 200 is one; what came instead is counted as it was.
pub proof fn only_status_200_is_an_answer(success: bool, status: Option<i32>, stats: Stats, code: i32)
    ensures
        request_result(success, status) is Ok <==> success && status == Some(200i32),
        success && code != 200 ==> request_result(success, Some(code)) == Result::<(), Failure>::Err(Failure::Status(code)),
        !success ==> request_result(success, status) == Result::<(), Failure>::Err(Failure::Network),
        counted(stats, Ok(())) == (Stats { succeeded: next_number(stats.succeeded), ..stats }),
        counted(stats, Err(Failure::TimedOut)) == (Stats { timed_out: next_number(stats.timed_out), ..stats }),
        counted(stats, Err(Failure::Network)) == (Stats { failed: next_number(stats.failed), ..stats }),
        counted(stats, Err(Failure::TooLarge)) == (Stats { failed: next_number(stats.failed), ..stats }),
        counted(stats, Err(Failure::Status(code))) == (Stats { failed: next_number(stats.failed), ..stats }),
{
}

/// A request that begins has no data, and no URL request yet.
pub proof fn a_request_begins_empty(p: Pending, id: u64, text: Seq<char>, query: Seq<char>)
    requires
        is_fresh(p, id, text, query),
    ensures
        p.id == id && p.text@ == text && p.query@ == query && p.body@.len() == 0 && !p.requested,
{
}

/// The limits: an answer within 1.5 s, of at most 64 KiB, to at most 256 characters.
pub proof fn the_limits_of_a_request()
    ensures
        TIMEOUT_MS == 1_500,
        MAX_BODY_BYTES == 64 * 1024,
        MAX_TEXT_CHARS == 256,
{
}

} // verus!
