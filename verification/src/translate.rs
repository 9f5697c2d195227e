//! "Translate page".
//!
//! The page hands back every piece of its prose in document order; the strings are translated in
//! batches, one batch at a time, and go back in the same order. Running it again on a translated page
//! restores the original.
//!
//! [`Jobs`] is the state; its functions say what has to be done ([`Effect`]). Batches are known by the
//! tab and a number; the URL request itself, once it was created, is held outside.
use crate::counter::{bump, next_number};
use crate::json::{holds, is_json, json_list, json_quoted, json_string, parse, string_list, Json, MAX_DEPTH};
use crate::keys::{keys_u64, lists_keys_u64};
use crate::text::{
    chars_of, copy_text, join2, join3, joined_by, joined_texts_split_back, one_more_is_joined_behind, signed_decimal, signed_text, split, text_views,
    the_first_part_ends_at_the_separator, utf8_text,
};
use crate::urls::{a_component_is_inert, component, encode_uri_component, uri_component};
use std::collections::HashMap;
use vstd::prelude::*;
use vstd::utf8::{decode_utf8, encode_utf8, valid_utf8};

verus! {

broadcast use vstd::std_specs::hash::group_hash_axioms;

/// Free endpoint: repeated `q`, answers in input order.
pub const ENDPOINT: &'static str = "https://translate.googleapis.com/translate_a/t";

/// A batch stops growing at this URL length.
pub const MAX_URL_BYTES: usize = 7000;

/// A batch stops growing at this many strings.
pub const MAX_BATCH: usize = 80;

/// The largest accepted response.
pub const MAX_BODY_BYTES: usize = 1048576;

pub const REQUEST_TIMEOUT_MS: i64 = 20000;

pub const EVAL_TIMEOUT_MS: i64 = 10000;

/// A page with more prose than this is translated down to here.
pub const MAX_STRINGS: usize = 4000;

// ------------------------------------------------------------------------------ batches

/// The URL without any string.
pub open spec fn bare_url(target: Seq<char>) -> Seq<char> {
    ENDPOINT@ + "?client=gtx&sl=auto&tl="@ + uri_component(target)
}

/// What a string adds to the URL.
pub open spec fn url_part(text: Seq<char>) -> Seq<char> {
    "&q="@ + uri_component(text)
}

/// A URL that holds `count` strings, grown by the strings that still fit, and how many it holds then.
/// The first string is taken however long it is. (A URL is ASCII: its characters are its bytes.)
pub open spec fn grown(url: Seq<char>, texts: Seq<Seq<char>>, at: int, count: int) -> (Seq<char>, int)
    decreases texts.len() - at - count,
{
    if count < 0 || count >= MAX_BATCH || at + count >= texts.len() {
        (url, count)
    } else {
        let part = url_part(texts[at + count]);
        if count > 0 && url.len() + part.len() > MAX_URL_BYTES {
            (url, count)
        } else {
            grown(url + part, texts, at, count + 1)
        }
    }
}

/// The URL for the strings that start at `at`, and how many it took.
pub fn batch_url(target: &str, texts: &Vec<String>, at: usize) -> (r: (String, usize))
    requires
        at <= texts@.len(),
    ensures
        (r.0@, r.1 as int) == grown(bare_url(target@), text_views(texts@), at as int, 0),
        r.1 <= texts@.len() - at,
{
    let encoded = encode_uri_component(target);
    let mut url = join3(ENDPOINT, "?client=gtx&sl=auto&tl=", encoded.as_str());
    let mut length: usize = chars_of(url.as_str()).len();
    let mut count: usize = 0;
    let ghost whole = grown(bare_url(target@), text_views(texts@), at as int, 0);
    while count < MAX_BATCH && count < texts.len() - at
        invariant
            at <= texts@.len(),
            count <= texts@.len() - at,
            count <= MAX_BATCH,
            length == url@.len(),
            whole == grown(url@, text_views(texts@), at as int, count as int),
            whole == grown(bare_url(target@), text_views(texts@), at as int, 0),
        decreases MAX_BATCH - count,
    {
        let encoded = encode_uri_component(texts[at + count].as_str());
        let part = join2("&q=", encoded.as_str());
        let more: usize = chars_of(part.as_str()).len();
        proof {
            assert(text_views(texts@)[at + count] == texts@[at + count]@);
        }
        if count > 0 && (length > MAX_URL_BYTES || more > MAX_URL_BYTES - length) {
            return (url, count);
        }
        url.append(part.as_str());
        length = chars_of(url.as_str()).len();
        count = count + 1;
    }
    (url, count)
}

/// A batch takes at least one string where there is one, at most [`MAX_BATCH`], and never more than
/// there are; and with more than one string its URL is no longer than the limit.
pub proof fn a_batch_makes_progress(target: Seq<char>, texts: Seq<Seq<char>>, at: int)
    requires
        0 <= at < texts.len(),
    ensures
        ({
            let taken = grown(bare_url(target), texts, at, 0);
            &&& 1 <= taken.1 <= MAX_BATCH
            &&& taken.1 <= texts.len() - at
            &&& taken.1 > 1 ==> taken.0.len() <= MAX_URL_BYTES
        }),
{
    let url = bare_url(target);
    let first = url + url_part(texts[at]);
    assert(grown(url, texts, at, 0) == grown(first, texts, at, 1));
    batch_grows(first, texts, at, 1);
}

proof fn batch_grows(url: Seq<char>, texts: Seq<Seq<char>>, at: int, count: int)
    requires
        0 <= at,
        1 <= count <= MAX_BATCH,
        at + count <= texts.len(),
    ensures
        count <= grown(url, texts, at, count).1 <= MAX_BATCH,
        grown(url, texts, at, count).1 <= texts.len() - at,
        grown(url, texts, at, count).1 > count ==> grown(url, texts, at, count).0.len() <= MAX_URL_BYTES,
        grown(url, texts, at, count).1 == count ==> grown(url, texts, at, count).0 == url,
    decreases texts.len() - at - count,
{
    if count < MAX_BATCH && at + count < texts.len() {
        let part = url_part(texts[at + count]);
        if url.len() + part.len() <= MAX_URL_BYTES {
            batch_grows(url + part, texts, at, count + 1);
        }
    }
}

/// The parameters of a batch: what every request has, then one for each of `n` strings.
spec fn parameters(target: Seq<char>, texts: Seq<Seq<char>>, at: int, n: nat) -> Seq<Seq<char>> {
    seq!["client=gtx"@, "sl=auto"@, "tl="@ + uri_component(target)] + Seq::new(n, |i: int| "q="@ + uri_component(texts[at + i]))
}

/// The URL of the service with these parameters.
spec fn asking(parts: Seq<Seq<char>>) -> Seq<char> {
    "https://translate.googleapis.com/translate_a/t"@ + "?"@ + joined_by(parts, '&')
}

proof fn bare_is_asking(target: Seq<char>, texts: Seq<Seq<char>>, at: int)
    ensures
        bare_url(target) == asking(parameters(target, texts, at, 0)),
{
    reveal_strlit("?client=gtx&sl=auto&tl=");
    reveal_strlit("?");
    reveal_strlit("client=gtx");
    reveal_strlit("sl=auto");
    reveal_strlit("tl=");
    let a = seq!["client=gtx"@];
    let b = a.push("sl=auto"@);
    let c = b.push("tl="@ + uri_component(target));
    one_more_is_joined_behind(a, '&', "sl=auto"@);
    one_more_is_joined_behind(b, '&', "tl="@ + uri_component(target));
    assert(parameters(target, texts, at, 0) =~= c);
    assert(bare_url(target) =~= asking(c));
}

proof fn grown_is_asking(target: Seq<char>, texts: Seq<Seq<char>>, at: int, count: int)
    requires
        0 <= at,
        0 <= count,
        at + count <= texts.len(),
    ensures
        ({
            let taken = grown(asking(parameters(target, texts, at, count as nat)), texts, at, count);
            &&& count <= taken.1 <= texts.len() - at
            &&& taken.0 == asking(parameters(target, texts, at, taken.1 as nat))
        }),
    decreases texts.len() - at - count,
{
    let parts = parameters(target, texts, at, count as nat);
    let url = asking(parts);
    if count < MAX_BATCH && at + count < texts.len() {
        let part = url_part(texts[at + count]);
        if !(count > 0 && url.len() + part.len() > MAX_URL_BYTES) {
            let text = "q="@ + uri_component(texts[at + count]);
            let more = parameters(target, texts, at, (count + 1) as nat);
            assert(more =~= parts.push(text));
            one_more_is_joined_behind(parts, '&', text);
            reveal_strlit("&q=");
            reveal_strlit("q=");
            assert(url + part =~= asking(more));
            grown_is_asking(target, texts, at, count + 1);
        }
    }
}

/// What a request asks, read from the text of its URL: the service, and behind the question mark, between
/// ampersands, the client `gtx`, a source language that the service finds out itself, the target language,
/// and then the strings that were taken, in order, each escaped.
pub proof fn a_batch_asks_for_its_strings(target: Seq<char>, texts: Seq<Seq<char>>, at: int)
    requires
        0 <= at <= texts.len(),
    ensures
        ({
            let (url, taken) = grown(bare_url(target), texts, at, 0);
            let halves = split(url, '?');
            let parts = split(halves[1], '&');
            &&& halves.len() == 2
            &&& halves[0] == "https://translate.googleapis.com/translate_a/t"@
            &&& parts.len() == 3 + taken
            &&& split(parts[0], '=') == seq!["client"@, "gtx"@]
            &&& split(parts[1], '=') == seq!["sl"@, "auto"@]
            &&& split(parts[2], '=') == seq!["tl"@, uri_component(target)]
            &&& forall|i: int| 0 <= i < taken ==> split(#[trigger] parts[3 + i], '=') == seq!["q"@, uri_component(texts[at + i])]
        }),
{
    bare_is_asking(target, texts, at);
    grown_is_asking(target, texts, at, 0);
    let (url, taken) = grown(bare_url(target), texts, at, 0);
    let parts = parameters(target, texts, at, taken as nat);
    reveal_strlit("client=gtx");
    reveal_strlit("sl=auto");
    reveal_strlit("tl=");
    reveal_strlit("q=");
    reveal_strlit("client");
    reveal_strlit("gtx");
    reveal_strlit("sl");
    reveal_strlit("auto");
    reveal_strlit("tl");
    reveal_strlit("q");
    a_component_is_inert(encode_utf8(target));
    let goal = uri_component(target);
    assert forall|n: int| 0 <= n < parts.len() implies !(#[trigger] parts[n]).contains('&') && !parts[n].contains('?') by {
        if n == 2 {
            let c = "tl="@ + goal;
            assert forall|k: int| 0 <= k < c.len() implies #[trigger] c[k] != '&' && c[k] != '?' by {
                if k >= 3 {
                    assert(c[k] == component(encode_utf8(target))[k - 3]);
                }
            }
        } else if n >= 3 {
            let text = texts[at + n - 3];
            a_component_is_inert(encode_utf8(text));
            let c = "q="@ + uri_component(text);
            assert(parts[n] == c);
            assert forall|k: int| 0 <= k < c.len() implies #[trigger] c[k] != '&' && c[k] != '?' by {
                if k >= 2 {
                    assert(c[k] == component(encode_utf8(text))[k - 2]);
                }
            }
        }
    }
    joined_texts_split_back(parts, '&');
    let query = joined_by(parts, '&');
    let service = "https://translate.googleapis.com/translate_a/t"@;
    assert(!service.contains('?')) by {
        reveal_strlit("https://translate.googleapis.com/translate_a/t");
    }
    assert(!query.contains('?')) by {
        nothing_joined_in(parts, '&', '?');
    }
    reveal_strlit("?");
    assert(service + "?"@ + query =~= service + seq!['?'] + query);
    the_first_part_ends_at_the_separator(service, '?', query);
    the_first_part_ends_at_the_separator(query, '?', Seq::empty());
    let halves = split(url, '?');
    assert(halves =~= seq![service, query]);
    assert("client=gtx"@ =~= "client"@ + seq!['='] + "gtx"@);
    one_value("client"@, "gtx"@);
    assert("sl=auto"@ =~= "sl"@ + seq!['='] + "auto"@);
    one_value("sl"@, "auto"@);
    assert("tl="@ + goal =~= "tl"@ + seq!['='] + goal);
    assert(!goal.contains('='));
    one_value("tl"@, goal);
    assert forall|i: int| 0 <= i < taken implies split(#[trigger] parts[3 + i], '=') == seq!["q"@, uri_component(texts[at + i])] by {
        let text = uri_component(texts[at + i]);
        a_component_is_inert(encode_utf8(texts[at + i]));
        assert(parts[3 + i] == "q="@ + text);
        assert("q="@ + text =~= "q"@ + seq!['='] + text);
        assert(!text.contains('='));
        one_value("q"@, text);
    }
}

proof fn one_value(name: Seq<char>, value: Seq<char>)
    requires
        !name.contains('='),
        !value.contains('='),
    ensures
        split(name + seq!['='] + value, '=') == seq![name, value],
{
    the_first_part_ends_at_the_separator(name, '=', value);
    the_first_part_ends_at_the_separator(value, '=', Seq::empty());
    assert(seq![name] + seq![value] =~= seq![name, value]);
}

proof fn nothing_joined_in(parts: Seq<Seq<char>>, sep: char, c: char)
    requires
        c != sep,
        forall|n: int| 0 <= n < parts.len() ==> !(#[trigger] parts[n]).contains(c),
    ensures
        !joined_by(parts, sep).contains(c),
    decreases parts.len(),
{
    if parts.len() > 1 {
        let rest = parts.skip(1);
        assert forall|n: int| 0 <= n < rest.len() implies !(#[trigger] rest[n]).contains(c) by {
            assert(rest[n] == parts[n + 1]);
        }
        nothing_joined_in(rest, sep, c);
        let all = joined_by(parts, sep);
        let first = parts[0];
        assert(!first.contains(c));
        if all.contains(c) {
            let k = choose|k: int| 0 <= k < all.len() && all[k] == c;
            if k < first.len() {
                assert(first[k] == c);
            } else if k > first.len() {
                assert(joined_by(rest, sep)[k - first.len() - 1] == c);
            }
        }
    } else if parts.len() == 1 {
        assert(!parts[0].contains(c));
    }
}

/// A batch takes what fits: at most 80 strings, at least one where there is one, no more than one once the
/// URL is over 7000 characters, and no fewer than fit in them.
pub proof fn a_batch_takes_what_fits(target: Seq<char>, texts: Seq<Seq<char>>, at: int)
    requires
        0 <= at < texts.len(),
    ensures
        ({
            let (url, taken) = grown(bare_url(target), texts, at, 0);
            &&& 1 <= taken <= 80
            &&& taken <= texts.len() - at
            &&& taken > 1 ==> url.len() <= 7000
            &&& taken < 80 && at + taken < texts.len() ==> url.len() + 3 + uri_component(texts[at + taken]).len() > 7000
        }),
{
    let url = bare_url(target);
    let first = url + url_part(texts[at]);
    assert(grown(url, texts, at, 0) == grown(first, texts, at, 1));
    batch_grows(first, texts, at, 1);
    batch_stops(first, texts, at, 1);
}

proof fn batch_stops(url: Seq<char>, texts: Seq<Seq<char>>, at: int, count: int)
    requires
        0 <= at,
        1 <= count <= 80,
        at + count <= texts.len(),
    ensures
        ({
            let (end, taken) = grown(url, texts, at, count);
            taken < 80 && at + taken < texts.len() ==> end.len() + 3 + uri_component(texts[at + taken]).len() > 7000
        }),
    decreases texts.len() - at - count,
{
    reveal_strlit("&q=");
    if count < MAX_BATCH && at + count < texts.len() {
        let part = url_part(texts[at + count]);
        if url.len() + part.len() <= MAX_URL_BYTES {
            batch_stops(url + part, texts, at, count + 1);
        }
    }
}

// ------------------------------------------------------------------------------ answers

/// The translation that an entry of the answer holds: a string, or the first string of a list.
pub open spec fn translation_in(entry: Json) -> Seq<char> {
    match entry {
        Json::Text(s) => s@,
        Json::List(pair) => if pair@.len() > 0 && pair@[0] is Text {
            pair@[0]->Text_0@
        } else {
            Seq::empty()
        },
        _ => Seq::empty(),
    }
}

/// The translations that an answer holds: one for each entry of the list that it is.
pub fn read_batch(value: &Json) -> (r: Result<Vec<String>, String>)
    ensures
        match r {
            Ok(out) => *value is List && out@.len() == value->List_0@.len() && forall|i: int|
                0 <= i < out@.len() ==> (#[trigger] out@[i])@ == translation_in(value->List_0@[i]),
            Err(e) => !(*value is List) && e@ == "the answer was not a list"@,
        },
{
    match value {
        Json::List(entries) => {
            let mut out: Vec<String> = Vec::new();
            let mut i: usize = 0;
            while i < entries.len()
                invariant
                    i <= entries@.len(),
                    out@.len() == i,
                    forall|k: int| 0 <= k < i ==> (#[trigger] out@[k])@ == translation_in(entries@[k]),
                decreases entries@.len() - i,
            {
                let text = match &entries[i] {
                    Json::Text(s) => copy_text(s.as_str()),
                    Json::List(pair) => if pair.len() > 0 {
                        match &pair[0] {
                            Json::Text(s) => copy_text(s.as_str()),
                            _ => String::new(),
                        }
                    } else {
                        String::new()
                    },
                    _ => String::new(),
                };
                out.push(text);
                i = i + 1;
            }
            Ok(out)
        },
        _ => Err(copy_text("the answer was not a list")),
    }
}

/// The outcome of reading a response body.
pub open spec fn is_batch_of(body: Seq<u8>, r: Result<Vec<String>, String>) -> bool {
    if !valid_utf8(body) {
        r is Err && r->Err_0@ == "the answer was not text"@
    } else if !is_json(decode_utf8(body), MAX_DEPTH as nat) {
        r is Err && r->Err_0@ == "the answer could not be read"@
    } else {
        exists|value: Json| #[trigger] holds(value, decode_utf8(body), MAX_DEPTH as nat) && match r {
            Ok(out) => value is List && out@.len() == value->List_0@.len() && forall|i: int|
                0 <= i < out@.len() ==> (#[trigger] out@[i])@ == translation_in(value->List_0@[i]),
            Err(e) => !(value is List) && e@ == "the answer was not a list"@,
        }
    }
}

/// `[[translated, detected], ...]`, and defensively also a flat `[translated, ...]`.
pub fn parse_batch(body: &[u8]) -> (r: Result<Vec<String>, String>)
    ensures
        is_batch_of(body@, r),
{
    match utf8_text(body) {
        None => Err(copy_text("the answer was not text")),
        Some(text) => match parse(text.as_str()) {
            None => Err(copy_text("the answer could not be read")),
            Some(value) => {
                let r = read_batch(&value);
                proof {
                    assert(holds(value, decode_utf8(body@), MAX_DEPTH as nat));
                }
                r
            },
        },
    }
}

// ------------------------------------------------------------------------------ the page script

/// Installs the page script and asks in one round trip whether the page is translated.
pub fn install_expression(script: &str) -> (r: String)
    ensures
        r@ == script@ + ";globalThis.__staTranslate.translated()"@,
{
    join2(script, ";globalThis.__staTranslate.translated()")
}

/// The value that an evaluation in the page gave, where there is one; an exception in the page is a
/// failure.
pub open spec fn evaluated(reply: Json) -> Result<Option<Json>, Seq<char>> {
    match reply.member("exceptionDetails"@) {
        Some(details) => Err(
            match details.member("text"@) {
                Some(Json::Text(s)) => s@,
                _ => "the page refused the script"@,
            },
        ),
        None => Ok(
            match reply.member("result"@) {
                Some(result) => result.member("value"@),
                None => None,
            },
        ),
    }
}

/// The value that an evaluation in the page gave (`None`: no value, which counts as null).
pub fn evaluation(reply: &Json) -> (r: Result<Option<&Json>, String>)
    ensures
        match r {
            Ok(Some(v)) => evaluated(*reply) == Result::<Option<Json>, Seq<char>>::Ok(Some(*v)),
            Ok(None) => evaluated(*reply) == Result::<Option<Json>, Seq<char>>::Ok(None),
            Err(e) => evaluated(*reply) == Result::<Option<Json>, Seq<char>>::Err(e@),
        },
{
    match reply.get("exceptionDetails") {
        Some(details) => {
            let text = match details.get("text") {
                Some(t) => match t.as_text() {
                    Some(s) => copy_text(s),
                    None => copy_text("the page refused the script"),
                },
                None => copy_text("the page refused the script"),
            };
            Err(text)
        },
        None => Ok(
            match reply.get("result") {
                Some(result) => result.get("value"),
                None => None,
            },
        ),
    }
}

/// The strings of a list from position `i` on; what is no string is left out.
pub open spec fn strings_from(items: Seq<Json>, i: int) -> Seq<Seq<char>>
    decreases items.len() - i,
{
    if i < 0 || i >= items.len() {
        Seq::empty()
    } else {
        match items[i] {
            Json::Text(s) => seq![s@] + strings_from(items, i + 1),
            _ => strings_from(items, i + 1),
        }
    }
}

/// The prose that the page collected.
pub open spec fn collected(value: Option<Json>) -> Seq<Seq<char>> {
    match value {
        Some(v) => match v.member("texts"@) {
            Some(Json::List(items)) => strings_from(items@, 0),
            _ => Seq::empty(),
        },
        None => Seq::empty(),
    }
}

/// What a reference holds.
pub open spec fn owned(value: Option<&Json>) -> Option<Json> {
    match value {
        Some(v) => Some(*v),
        None => None,
    }
}

/// The prose that the page collected, in document order.
pub fn collected_texts(value: Option<&Json>) -> (r: Vec<String>)
    ensures
        text_views(r@) == collected(owned(value)),
{
    let mut out: Vec<String> = Vec::new();
    proof {
        assert(text_views(out@) =~= Seq::<Seq<char>>::empty());
    }
    let value = match value {
        Some(v) => v,
        None => {
            return out;
        },
    };
    match value.get("texts") {
        Some(Json::List(items)) => {
            let mut i: usize = 0;
            let ghost whole = strings_from(items@, 0);
            proof {
                assert(text_views(out@) + whole =~= whole);
            }
            while i < items.len()
                invariant
                    i <= items@.len(),
                    whole == text_views(out@) + strings_from(items@, i as int),
                decreases items@.len() - i,
            {
                let ghost before = out@;
                match &items[i] {
                    Json::Text(s) => {
                        out.push(copy_text(s.as_str()));
                        proof {
                            assert(text_views(out@) =~= text_views(before).push(s@));
                            assert(text_views(before) + (seq![s@] + strings_from(items@, i + 1)) =~= text_views(out@) + strings_from(
                                items@,
                                i + 1,
                            ));
                        }
                    },
                    _ => {},
                }
                i = i + 1;
            }
            proof {
                assert(text_views(out@) + Seq::<Seq<char>>::empty() =~= text_views(out@));
            }
            out
        },
        _ => out,
    }
}

// ------------------------------------------------------------------------------ jobs

/// One page being translated.
pub struct Job {
    pub browser_id: i32,
    pub target: String,
    /// Every string, in the order the page collected them.
    pub texts: Vec<String>,
    /// Translations so far, same order and length as `texts`.
    pub out: Vec<String>,
    /// Where the batch in flight starts in `texts`.
    pub at: usize,
    /// The response of the batch in flight.
    pub body: Vec<u8>,
    /// The batch in flight has a URL request.
    pub requested: bool,
    /// The number of the batch in flight, so that a late callback of another is ignored.
    pub batch: u64,
    pub timed_out: bool,
}

/// At most one job per tab; a second request on a busy tab is ignored, not queued.
pub struct Jobs {
    pub jobs: HashMap<u64, Job>,
}

/// What has to be done.
pub enum Effect {
    /// Evaluate the page script and whether the page is translated.
    AskPage { tab: u64, browser_id: i32, target: String },
    /// Have the page restore the original.
    RestorePage { tab: u64, browser_id: i32 },
    /// Have the page collect its prose.
    CollectPage { tab: u64, browser_id: i32, target: String },
    /// Have the page apply the translations.
    ApplyPage { tab: u64, browser_id: i32, expression: String },
    /// Create the URL request of a batch.
    Fetch { tab: u64, batch: u64, url: String },
    /// Let go of the URL request of a batch; cancel it first if it is still running.
    Release { tab: u64, batch: u64 },
    /// Time the batch out later.
    TimeOutLater { tab: u64, batch: u64, after_ms: i64 },
    /// Report the outcome.
    Finish { tab: u64, strings: u32, images: u32, restored: bool, error: Option<String> },
}

/// A [`Effect::Finish`] that reports a failure.
pub open spec fn is_failure(e: Effect, tab: u64, reason: Seq<char>) -> bool {
    match e {
        Effect::Finish { tab: t, strings, images, restored, error } => t == tab && strings == 0 && images == 0 && !restored
            && error is Some && error->0@ == reason,
        _ => false,
    }
}

/// What letting go of a job's URL request takes.
pub open spec fn released(tab: u64, job: Job) -> Seq<Effect> {
    if job.requested {
        seq![(Effect::Release { tab, batch: job.batch })]
    } else {
        Seq::empty()
    }
}

/// What dropping the job of a tab takes.
pub open spec fn dropped(jobs: Map<u64, Job>, tab: u64) -> Seq<Effect> {
    if jobs.contains_key(tab) {
        released(tab, jobs[tab])
    } else {
        Seq::empty()
    }
}

/// The job of `tab` failed: it is gone, its request is let go, and the failure is reported.
pub open spec fn has_failed(before: Map<u64, Job>, after: Map<u64, Job>, r: Seq<Effect>, tab: u64, reason: Seq<char>) -> bool {
    &&& after == before.remove(tab)
    &&& r.len() == dropped(before, tab).len() + 1
    &&& r.drop_last() == dropped(before, tab)
    &&& is_failure(r.last(), tab, reason)
}

/// The batch that comes next for a job.
pub open spec fn batch_of(job: Job) -> (Seq<char>, int) {
    grown(bare_url(job.target@), text_views(job.texts@), job.at as int, 0)
}

/// The next batch of `tab` was asked for, or the translations were handed to the page.
pub open spec fn went_on(before: Map<u64, Job>, after: Map<u64, Job>, r: Seq<Effect>, tab: u64) -> bool {
    if !before.contains_key(tab) {
        after == before && r.len() == 0
    } else {
        let job = before[tab];
        if job.at >= job.texts@.len() {
            &&& after == before
            &&& r.len() == 1
            &&& r[0] is ApplyPage
            &&& r[0]->ApplyPage_tab == tab
            &&& r[0]->ApplyPage_browser_id == job.browser_id
            &&& r[0]->expression@ == "globalThis.__staTranslate.apply("@ + json_list(job.out@) + ")"@
        } else {
            &&& after.contains_key(tab)
            &&& after.remove(tab) == before.remove(tab)
            &&& after[tab].body@.len() == 0
            &&& after[tab] == (Job { batch: next_number(job.batch), body: after[tab].body, timed_out: false, ..job })
            &&& r.len() == 1
            &&& r[0] is Fetch
            &&& r[0]->Fetch_tab == tab
            &&& r[0]->Fetch_batch == next_number(job.batch)
            &&& r[0]->url@ == batch_of(job).0
        }
    }
}

impl Jobs {
    /// Every job has a place for each translation.
    pub open spec fn valid(self) -> bool {
        forall|tab: u64| #[trigger] self.jobs@.contains_key(tab) ==> self.jobs@[tab].out@.len() == self.jobs@[tab].texts@.len()
    }

    /// No page is being translated.
    pub fn new() -> (r: Jobs)
        ensures
            r.jobs@ == Map::<u64, Job>::empty(),
            r.valid(),
    {
        Jobs { jobs: HashMap::new() }
    }
}

fn failure(tab: u64, reason: String) -> (r: Effect)
    ensures
        is_failure(r, tab, reason@),
{
    Effect::Finish { tab, strings: 0, images: 0, restored: false, error: Some(reason) }
}

/// Entry point: asks the page, unless the tab is busy. `browser` is the tab's browser, if it has one.
pub fn translate(state: &Jobs, tab: u64, browser: Option<i32>, target: String) -> (r: Vec<Effect>)
    ensures
        state.jobs@.contains_key(tab) ==> r@.len() == 0,
        !state.jobs@.contains_key(tab) ==> r@.len() == 1 && match browser {
            Some(browser_id) => r@[0] == (Effect::AskPage { tab, browser_id, target }),
            None => is_failure(r@[0], tab, "the tab is gone"@),
        },
{
    let mut out: Vec<Effect> = Vec::new();
    if !state.jobs.contains_key(&tab) {
        match browser {
            Some(browser_id) => out.push(Effect::AskPage { tab, browser_id, target }),
            None => out.push(failure(tab, copy_text("the tab is gone"))),
        }
    }
    out
}

/// The page said whether it is translated: a translated page is restored, another is collected.
pub fn on_asked(tab: u64, browser_id: i32, target: String, result: Result<Option<&Json>, String>) -> (r: Effect)
    ensures
        match result {
            Ok(value) => if value is Some && *value->0 == Json::Bool(true) {
                r == (Effect::RestorePage { tab, browser_id })
            } else {
                r == (Effect::CollectPage { tab, browser_id, target })
            },
            Err(e) => is_failure(r, tab, e@),
        },
{
    match result {
        Ok(Some(Json::Bool(true))) => Effect::RestorePage { tab, browser_id },
        Ok(_) => Effect::CollectPage { tab, browser_id, target },
        Err(e) => failure(tab, e),
    }
}

/// The page restored the original.
pub fn on_restored(tab: u64, result: Result<Option<&Json>, String>) -> (r: Effect)
    ensures
        match result {
            Ok(_) => r == (Effect::Finish { tab, strings: 0, images: 0, restored: true, error: None }),
            Err(e) => is_failure(r, tab, e@),
        },
{
    match result {
        Ok(_) => Effect::Finish { tab, strings: 0, images: 0, restored: true, error: None },
        Err(e) => failure(tab, e),
    }
}

/// The job that collecting a page begins.
pub open spec fn is_new_job(job: Job, browser_id: i32, target: Seq<char>, texts: Seq<Seq<char>>) -> bool {
    &&& job.browser_id == browser_id
    &&& job.target@ == target
    &&& text_views(job.texts@) == (if texts.len() > MAX_STRINGS { texts.take(MAX_STRINGS as int) } else { texts })
    &&& job.out@.len() == job.texts@.len()
    &&& forall|i: int| 0 <= i < job.out@.len() ==> (#[trigger] job.out@[i])@ == Seq::<char>::empty()
    &&& job.at == 0
    &&& job.body@.len() == 0
    &&& !job.requested
    &&& job.batch == 0
    &&& !job.timed_out
}

/// A job for `texts` began, and its first batch was asked for.
pub open spec fn began(
    before: Map<u64, Job>,
    after: Map<u64, Job>,
    r: Seq<Effect>,
    tab: u64,
    browser_id: i32,
    target: Seq<char>,
    texts: Seq<Seq<char>>,
) -> bool {
    exists|job: Job| #[trigger] is_new_job(job, browser_id, target, texts) && went_on(before.insert(tab, job), after, r, tab)
}

/// The page handed its prose over: a job begins and its first batch is asked for.
pub fn on_collected(state: &mut Jobs, tab: u64, browser_id: i32, target: String, result: Result<Option<&Json>, String>) -> (r: Vec<Effect>)
    requires
        old(state).valid(),
    ensures
        final(state).valid(),
        match result {
            Err(e) => final(state).jobs@ == old(state).jobs@ && r@.len() == 1 && is_failure(r@[0], tab, e@),
            Ok(value) => ({
                let texts = collected(owned(value));
                if texts.len() == 0 {
                    final(state).jobs@ == old(state).jobs@ && r@ == seq![
                        (Effect::Finish { tab, strings: 0, images: 0, restored: false, error: None }),
                    ]
                } else {
                    began(old(state).jobs@, final(state).jobs@, r@, tab, browser_id, target@, texts)
                }
            }),
        },
{
    let mut out: Vec<Effect> = Vec::new();
    let value = match result {
        Err(e) => {
            out.push(failure(tab, e));
            return out;
        },
        Ok(value) => value,
    };
    let mut texts = collected_texts(value);
    let ghost all = text_views(texts@);
    if texts.len() == 0 {
        out.push(Effect::Finish { tab, strings: 0, images: 0, restored: false, error: None });
        return out;
    }
    texts.truncate(MAX_STRINGS);
    proof {
        if all.len() > MAX_STRINGS {
            assert(text_views(texts@) =~= all.take(MAX_STRINGS as int));
        } else {
            assert(text_views(texts@) =~= all);
        }
    }
    let mut empty: Vec<String> = Vec::new();
    while empty.len() < texts.len()
        invariant
            empty@.len() <= texts@.len(),
            forall|i: int| 0 <= i < empty@.len() ==> (#[trigger] empty@[i])@ == Seq::<char>::empty(),
        decreases texts@.len() - empty@.len(),
    {
        empty.push(String::new());
    }
    let job = Job {
        browser_id,
        target,
        texts,
        out: empty,
        at: 0,
        body: Vec::new(),
        requested: false,
        batch: 0,
        timed_out: false,
    };
    let ghost new_job = job;
    proof {
        assert(is_new_job(new_job, browser_id, target@, all));
    }
    state.jobs.insert(tab, job);
    let out = next_batch(state, tab);
    proof {
        assert(went_on(old(state).jobs@.insert(tab, new_job), state.jobs@, out@, tab));
        assert(began(old(state).jobs@, state.jobs@, out@, tab, browser_id, target@, all));
    }
    out
}

/// Asks for the next batch of a tab, or hands the translations to the page when every batch is in.
pub fn next_batch(state: &mut Jobs, tab: u64) -> (r: Vec<Effect>)
    requires
        old(state).valid(),
    ensures
        final(state).valid(),
        went_on(old(state).jobs@, final(state).jobs@, r@, tab),
{
    let mut out: Vec<Effect> = Vec::new();
    let done = match state.jobs.get(&tab) {
        None => {
            return out;
        },
        Some(job) => job.at >= job.texts.len(),
    };
    if done {
        apply(state, tab, &mut out);
        return out;
    }
    match state.jobs.remove(&tab) {
        Some(mut job) => {
            let made = batch_url(job.target.as_str(), &job.texts, job.at);
            job.batch = bump(job.batch);
            job.body = Vec::new();
            job.timed_out = false;
            out.push(Effect::Fetch { tab, batch: job.batch, url: made.0 });
            state.jobs.insert(tab, job);
        },
        None => {},
    }
    proof {
        assert(state.jobs@.remove(tab) =~= old(state).jobs@.remove(tab));
    }
    out
}

/// Hands the translations to the page.
fn apply(state: &Jobs, tab: u64, out: &mut Vec<Effect>)
    requires
        state.jobs@.contains_key(tab),
        old(out)@.len() == 0,
    ensures
        final(out)@.len() == 1,
        final(out)@[0] is ApplyPage,
        final(out)@[0]->ApplyPage_tab == tab,
        final(out)@[0]->ApplyPage_browser_id == state.jobs@[tab].browser_id,
        final(out)@[0]->expression@ == "globalThis.__staTranslate.apply("@ + json_list(state.jobs@[tab].out@) + ")"@,
{
    match state.jobs.get(&tab) {
        Some(job) => {
            let payload = string_list(&job.out);
            let expression = join3("globalThis.__staTranslate.apply(", payload.as_str(), ")");
            out.push(Effect::ApplyPage { tab, browser_id: job.browser_id, expression });
        },
        None => {},
    }
}

/// The page applied the translations and said how many landed.
pub fn on_applied(state: &mut Jobs, tab: u64, result: Result<Option<&Json>, String>) -> (r: Vec<Effect>)
    requires
        old(state).valid(),
    ensures
        final(state).valid(),
        match result {
            Ok(value) => final(state).jobs@ == old(state).jobs@.remove(tab) && r@ == dropped(old(state).jobs@, tab).push(
                (Effect::Finish {
                    tab,
                    strings: landed(owned(value)),
                    images: 0,
                    restored: false,
                    error: None,
                }),
            ),
            Err(e) => has_failed(old(state).jobs@, final(state).jobs@, r@, tab, e@),
        },
{
    match result {
        Ok(value) => {
            let mut out: Vec<Effect> = Vec::new();
            drop_job(state, tab, &mut out);
            let count: u64 = match value {
                Some(v) => match v.as_u64() {
                    Some(n) => n,
                    None => 0,
                },
                None => 0,
            };
            let strings: u32 = (count % 0x1_0000_0000) as u32;
            out.push(Effect::Finish { tab, strings, images: 0, restored: false, error: None });
            proof {
                assert(out@ =~= dropped(old(state).jobs@, tab).push(out@.last()));
            }
            out
        },
        Err(e) => fail(state, tab, e),
    }
}

/// The number of strings that landed, as the page said it.
pub open spec fn landed(value: Option<Json>) -> u32 {
    match value {
        Some(v) => match v.unsigned_number() {
            Some(n) => (n % 0x1_0000_0000) as u32,
            None => 0,
        },
        None => 0,
    }
}

/// The job of a tab failed.
pub fn fail(state: &mut Jobs, tab: u64, reason: String) -> (r: Vec<Effect>)
    requires
        old(state).valid(),
    ensures
        final(state).valid(),
        has_failed(old(state).jobs@, final(state).jobs@, r@, tab, reason@),
{
    let mut out: Vec<Effect> = Vec::new();
    drop_job(state, tab, &mut out);
    out.push(failure(tab, reason));
    proof {
        assert(out@.drop_last() =~= dropped(old(state).jobs@, tab));
    }
    out
}

/// Drops the job of a tab and lets go of its request.
fn drop_job(state: &mut Jobs, tab: u64, out: &mut Vec<Effect>)
    requires
        old(state).valid(),
    ensures
        final(state).valid(),
        final(state).jobs@ == old(state).jobs@.remove(tab),
        final(out)@ == old(out)@ + dropped(old(state).jobs@, tab),
{
    match state.jobs.remove(&tab) {
        Some(job) => {
            if job.requested {
                out.push(Effect::Release { tab, batch: job.batch });
            }
        },
        None => {},
    }
    proof {
        assert(state.jobs@ =~= old(state).jobs@.remove(tab));
        assert(out@ =~= old(out)@ + dropped(old(state).jobs@, tab));
    }
}

/// The URL request of a batch was created, or could not be.
pub fn on_created(state: &mut Jobs, tab: u64, batch: u64, created: bool) -> (r: Vec<Effect>)
    requires
        old(state).valid(),
    ensures
        final(state).valid(),
        created && old(state).jobs@.contains_key(tab) ==> final(state).jobs@ == old(state).jobs@.insert(
            tab,
            (Job { requested: true, ..old(state).jobs@[tab] }),
        ) && r@ == seq![(Effect::TimeOutLater { tab, batch, after_ms: REQUEST_TIMEOUT_MS })],
        !old(state).jobs@.contains_key(tab) ==> has_failed(
            old(state).jobs@,
            final(state).jobs@,
            r@,
            tab,
            "the request could not be started"@,
        ),
        !created && old(state).jobs@.contains_key(tab) ==> has_failed(
            old(state).jobs@.insert(tab, (Job { requested: false, ..old(state).jobs@[tab] })),
            final(state).jobs@,
            r@,
            tab,
            "the request could not be started"@,
        ),
{
    let known = match state.jobs.remove(&tab) {
        Some(mut job) => {
            job.requested = created;
            state.jobs.insert(tab, job);
            true
        },
        None => false,
    };
    proof {
        if known {
            assert(state.jobs@ =~= old(state).jobs@.insert(tab, (Job { requested: created, ..old(state).jobs@[tab] })));
        } else {
            assert(state.jobs@ =~= old(state).jobs@);
        }
    }
    if !(known && created) {
        return fail(state, tab, copy_text("the request could not be started"));
    }
    vec![Effect::TimeOutLater { tab, batch, after_ms: REQUEST_TIMEOUT_MS }]
}

/// `batch` is the batch in flight of `tab`.
pub open spec fn in_flight(jobs: Map<u64, Job>, tab: u64, batch: u64) -> bool {
    jobs.contains_key(tab) && jobs[tab].batch == batch
}

/// A batch had no answer in time.
pub fn on_timeout(state: &mut Jobs, tab: u64, batch: u64) -> (r: Vec<Effect>)
    requires
        old(state).valid(),
    ensures
        final(state).valid(),
        if in_flight(old(state).jobs@, tab, batch) {
            has_failed(old(state).jobs@, final(state).jobs@, r@, tab, "the translation service did not answer"@)
        } else {
            final(state).jobs@ == old(state).jobs@ && r@.len() == 0
        },
{
    let current = match state.jobs.get(&tab) {
        Some(job) => job.batch == batch,
        None => false,
    };
    if current {
        fail(state, tab, copy_text("the translation service did not answer"))
    } else {
        Vec::new()
    }
}

/// A piece of the response of a batch arrived.
pub fn on_data(state: &mut Jobs, tab: u64, batch: u64, chunk: &[u8]) -> (r: Vec<Effect>)
    requires
        old(state).valid(),
    ensures
        final(state).valid(),
        if !in_flight(old(state).jobs@, tab, batch) {
            final(state).jobs@ == old(state).jobs@ && r@.len() == 0
        } else {
            let job = old(state).jobs@[tab];
            if job.body@.len() + chunk@.len() > MAX_BODY_BYTES {
                has_failed(old(state).jobs@, final(state).jobs@, r@, tab, "the answer was too large"@)
            } else {
                let after = final(state).jobs@[tab];
                &&& r@.len() == 0
                &&& final(state).jobs@.contains_key(tab)
                &&& final(state).jobs@.remove(tab) == old(state).jobs@.remove(tab)
                &&& after.body@ == job.body@ + chunk@
                &&& after == (Job { body: after.body, ..job })
            }
        },
{
    let large = match state.jobs.get(&tab) {
        Some(job) => {
            if job.batch != batch {
                return Vec::new();
            }
            job.body.len() > MAX_BODY_BYTES || chunk.len() > MAX_BODY_BYTES - job.body.len()
        },
        None => {
            return Vec::new();
        },
    };
    if large {
        return fail(state, tab, copy_text("the answer was too large"));
    }
    match state.jobs.remove(&tab) {
        Some(mut job) => {
            crate::bytes::push_range(&mut job.body, chunk, 0, chunk.len());
            proof {
                assert(chunk@.subrange(0, chunk@.len() as int) =~= chunk@);
            }
            state.jobs.insert(tab, job);
        },
        None => {},
    }
    proof {
        assert(state.jobs@.remove(tab) =~= old(state).jobs@.remove(tab));
    }
    Vec::new()
}

/// The translations with a batch put in its place: the batch starts at `at`, and what does not fit is
/// dropped.
pub open spec fn placed(out: Seq<Seq<char>>, at: int, batch: Seq<Seq<char>>) -> Seq<Seq<char>> {
    Seq::new(out.len(), |k: int| if at <= k < at + batch.len() { batch[k - at] } else { out[k] })
}

/// `job` with the translations of the batch in flight put in their place, and the next batch due.
pub open spec fn advanced(job: Job, translations: Seq<String>, after: Job) -> bool {
    let n = translations.len();
    &&& text_views(after.out@) == placed(text_views(job.out@), job.at as int, text_views(translations))
    &&& after.at == (if n == 0 {
        job.texts@.len() as int
    } else if job.at + n > usize::MAX {
        usize::MAX as int
    } else {
        job.at + n
    })
    &&& after == (Job { out: after.out, at: after.at, requested: false, ..job })
}

fn place(job: &mut Job, translations: &Vec<String>)
    requires
        old(job).out@.len() == old(job).texts@.len(),
    ensures
        advanced(*old(job), translations@, *final(job)),
{
    let at: usize = job.at;
    let mut i: usize = 0;
    let ghost start = text_views(job.out@);
    let ghost views = text_views(translations@);
    proof {
        assert(placed(start, at as int, views.take(0)) =~= start);
    }
    while i < translations.len() && at < job.out.len() && i < job.out.len() - at
        invariant
            i <= translations@.len(),
            start == text_views(old(job).out@),
            views == text_views(translations@),
            at == old(job).at,
            text_views(job.out@) == placed(start, at as int, views.take(i as int)),
            job.out@.len() == old(job).out@.len(),
            *job == (Job { out: job.out, ..*old(job) }),
        decreases translations@.len() - i,
    {
        let text = copy_text(translations[i].as_str());
        let ghost before = text_views(job.out@);
        job.out.set(at + i, text);
        proof {
            assert(text_views(job.out@) =~= before.update(at + i, views[i as int]));
            assert(text_views(job.out@) =~= placed(start, at as int, views.take(i + 1)));
        }
        i = i + 1;
    }
    proof {
        assert(placed(start, at as int, views.take(i as int)) =~= placed(start, at as int, views));
    }
    let n: usize = translations.len();
    job.at = if n == 0 {
        job.texts.len()
    } else if n > usize::MAX - at {
        usize::MAX
    } else {
        at + n
    };
    job.requested = false;
}

/// The URL request of a batch is complete. `status`: the status of its response, where it went through
/// and has one.
pub fn on_batch_complete(state: &mut Jobs, tab: u64, batch: u64, status: Option<i32>) -> (r: Vec<Effect>)
    requires
        old(state).valid(),
    ensures
        final(state).valid(),
        if !in_flight(old(state).jobs@, tab, batch) || old(state).jobs@[tab].timed_out {
            final(state).jobs@ == old(state).jobs@ && r@.len() == 0
        } else {
            match status {
                None => has_failed(old(state).jobs@, final(state).jobs@, r@, tab, "the translation service could not be reached"@),
                Some(code) => if code != 200 {
                    has_failed(
                        old(state).jobs@,
                        final(state).jobs@,
                        r@,
                        tab,
                        "the translation service answered "@ + signed_decimal(code as int),
                    )
                } else {
                    completed(old(state).jobs@, final(state).jobs@, r@, tab)
                },
            }
        },
{
    match state.jobs.get(&tab) {
        Some(job) => {
            if job.batch != batch || job.timed_out {
                return Vec::new();
            }
        },
        None => {
            return Vec::new();
        },
    }
    match status {
        None => {
            return fail(state, tab, copy_text("the translation service could not be reached"));
        },
        Some(code) => {
            if code != 200 {
                let number = signed_text(code as i64);
                return fail(state, tab, join2("the translation service answered ", number.as_str()));
            }
        },
    }
    let mut out: Vec<Effect> = Vec::new();
    match state.jobs.remove(&tab) {
        Some(mut job) => {
            let ghost before = job;
            let parsed = parse_batch(job.body.as_slice());
            match parsed {
                Err(e) => {
                    state.jobs.insert(tab, job);
                    proof {
                        assert(state.jobs@ =~= old(state).jobs@);
                    }
                    let failed = fail(state, tab, e);
                    proof {
                        assert(is_batch_of(before.body@, parsed));
                    }
                    return failed;
                },
                Ok(translations) => {
                    let requested = job.requested;
                    place(&mut job, &translations);
                    proof {
                        assert(text_views(job.out@).len() == text_views(before.out@).len());
                    }
                    if requested {
                        out.push(Effect::Release { tab, batch });
                    }
                    let ghost placed_job = job;
                    state.jobs.insert(tab, job);
                    let ghost middle = state.jobs@;
                    proof {
                        assert(middle =~= old(state).jobs@.insert(tab, placed_job));
                    }
                    let mut more = next_batch(state, tab);
                    let ghost later = more@;
                    out.append(&mut more);
                    proof {
                        assert(out@ =~= released(tab, before) + later);
                        assert(out@.skip(released(tab, before).len() as int) =~= later);
                        assert(out@.take(released(tab, before).len() as int) =~= released(tab, before));
                        assert(is_batch_of(before.body@, parsed) && advanced(before, parsed->Ok_0@, placed_job));
                    }
                },
            }
        },
        None => {},
    }
    out
}

/// A batch was answered: what it holds was put in its place, its request let go, and the next batch
/// asked for; or it could not be read, and the job failed.
pub open spec fn completed(before: Map<u64, Job>, after: Map<u64, Job>, r: Seq<Effect>, tab: u64) -> bool {
    let job = before[tab];
    let first = released(tab, job);
    exists|parsed: Result<Vec<String>, String>| #[trigger] is_batch_of(job.body@, parsed) && match parsed {
        Err(e) => has_failed(before, after, r, tab, e@),
        Ok(translations) => exists|next: Job|
            #![trigger advanced(job, translations@, next)]
            advanced(job, translations@, next) && r.len() >= first.len() && r.take(first.len() as int) == first && went_on(
                before.insert(tab, next),
                after,
                r.skip(first.len() as int),
                tab,
            ),
    }
}

/// The jobs that do not belong to `browser_id`.
pub open spec fn without_browser(jobs: Map<u64, Job>, browser_id: i32) -> Map<u64, Job> {
    jobs.restrict(Set::new(|tab: u64| jobs.contains_key(tab) && jobs[tab].browser_id != browser_id))
}

/// A tab whose browser went away stops translating.
pub fn on_browser_closed(state: &mut Jobs, browser_id: i32) -> (r: Vec<Effect>)
    requires
        old(state).valid(),
    ensures
        final(state).valid(),
        final(state).jobs@ == without_browser(old(state).jobs@, browser_id),
        forall|e: Effect| #[trigger] r@.contains(e) <==> exists|tab: u64|
            old(state).jobs@.contains_key(tab) && (#[trigger] old(state).jobs@[tab]).browser_id == browser_id
                && old(state).jobs@[tab].requested && e == (Effect::Release { tab, batch: old(state).jobs@[tab].batch }),
{
    let mut out: Vec<Effect> = Vec::new();
    let tabs = keys_u64(&state.jobs);
    let ghost all = old(state).jobs@;
    let mut i: usize = 0;
    while i < tabs.len()
        invariant
            i <= tabs@.len(),
            all == old(state).jobs@,
            lists_keys_u64(tabs@, all),
            old(state).valid(),
            state.valid(),
            forall|tab: u64| #[trigger] state.jobs@.contains_key(tab) ==> all.contains_key(tab) && state.jobs@[tab] == all[tab],
            forall|tab: u64| #[trigger]
                all.contains_key(tab) ==> (state.jobs@.contains_key(tab) <==> !(all[tab].browser_id == browser_id && exists|k: int|
                    0 <= k < i && tabs@[k] == tab)),
            forall|e: Effect| #[trigger] out@.contains(e) <==> exists|k: int|
                0 <= k < i && (#[trigger] all[tabs@[k]]).browser_id == browser_id && all[tabs@[k]].requested && e == (Effect::Release {
                    tab: tabs@[k],
                    batch: all[tabs@[k]].batch,
                }),
        decreases tabs@.len() - i,
    {
        let tab: u64 = tabs[i];
        proof {
            assert(tabs@.contains(tab));
            assert(all.contains_key(tab));
            assert(state.jobs@.contains_key(tab));
        }
        let ghost jobs_before = state.jobs@;
        let ghost out_before = out@;
        let mine = match state.jobs.get(&tab) {
            Some(job) => job.browser_id == browser_id,
            None => false,
        };
        if mine {
            drop_job(state, tab, &mut out);
        }
        proof {
            assert forall|other: u64| #[trigger] all.contains_key(other) implies (state.jobs@.contains_key(other) <==> !(
            all[other].browser_id == browser_id && exists|k: int| 0 <= k < i + 1 && tabs@[k] == other)) by {
                if other == tab {
                    assert(tabs@[i as int] == other);
                } else {
                    assert((exists|k: int| 0 <= k < i + 1 && tabs@[k] == other) <==> (exists|k: int| 0 <= k < i && tabs@[k] == other));
                }
            }
            let fresh = if mine { released(tab, all[tab]) } else { Seq::empty() };
            assert(out@ =~= out_before + fresh);
            assert forall|e: Effect| #[trigger] out@.contains(e) <==> exists|k: int|
                0 <= k < i + 1 && (#[trigger] all[tabs@[k]]).browser_id == browser_id && all[tabs@[k]].requested && e == (Effect::Release {
                    tab: tabs@[k],
                    batch: all[tabs@[k]].batch,
                }) by {
                if out@.contains(e) {
                    let at = choose|at: int| 0 <= at < out@.len() && out@[at] == e;
                    if at < out_before.len() {
                        assert(out_before[at] == e);
                        assert(out_before.contains(e));
                    } else {
                        assert(tabs@[i as int] == tab);
                        assert(all[tabs@[i as int]].browser_id == browser_id);
                    }
                }
                if exists|k: int|
                    0 <= k < i + 1 && (#[trigger] all[tabs@[k]]).browser_id == browser_id && all[tabs@[k]].requested && e == (
                    Effect::Release { tab: tabs@[k], batch: all[tabs@[k]].batch }) {
                    let k = choose|k: int|
                        0 <= k < i + 1 && (#[trigger] all[tabs@[k]]).browser_id == browser_id && all[tabs@[k]].requested && e == (
                        Effect::Release { tab: tabs@[k], batch: all[tabs@[k]].batch });
                    if k < i {
                        assert(out_before.contains(e));
                        let at = choose|at: int| 0 <= at < out_before.len() && out_before[at] == e;
                        assert(out@[at] == e);
                    } else {
                        assert(out@.last() == e);
                        assert(out@[out@.len() - 1] == e);
                    }
                }
            }
        }
        i = i + 1;
    }
    proof {
        assert forall|tab: u64| all.contains_key(tab) implies exists|k: int| 0 <= k < i && tabs@[k] == tab by {
            assert(tabs@.contains(tab));
        }
        assert(state.jobs@ =~= without_browser(all, browser_id)) by {
            assert forall|tab: u64| state.jobs@.contains_key(tab) <==> #[trigger] without_browser(all, browser_id).contains_key(tab) by {
                if all.contains_key(tab) {
                    assert(exists|k: int| 0 <= k < i && tabs@[k] == tab);
                }
            }
        }
        assert forall|e: Effect| #[trigger] out@.contains(e) <==> exists|tab: u64|
            old(state).jobs@.contains_key(tab) && (#[trigger] old(state).jobs@[tab]).browser_id == browser_id
                && old(state).jobs@[tab].requested && e == (Effect::Release { tab, batch: old(state).jobs@[tab].batch }) by {
            if out@.contains(e) {
                let k = choose|k: int|
                    0 <= k < i && (#[trigger] all[tabs@[k]]).browser_id == browser_id && all[tabs@[k]].requested && e == (
                    Effect::Release { tab: tabs@[k], batch: all[tabs@[k]].batch });
                assert(tabs@.contains(tabs@[k]));
                assert(all.contains_key(tabs@[k]));
            }
            if exists|tab: u64|
                all.contains_key(tab) && (#[trigger] all[tab]).browser_id == browser_id && all[tab].requested && e == (Effect::Release {
                    tab,
                    batch: all[tab].batch,
                }) {
                let tab = choose|tab: u64|
                    all.contains_key(tab) && (#[trigger] all[tab]).browser_id == browser_id && all[tab].requested && e == (
                    Effect::Release { tab, batch: all[tab].batch });
                let k = choose|k: int| 0 <= k < i && tabs@[k] == tab;
                assert(all[tabs@[k]].browser_id == browser_id);
            }
        }
    }
    out
}

/// Drops every job.
pub fn clear(state: &mut Jobs)
    ensures
        final(state).jobs@ == Map::<u64, Job>::empty(),
        final(state).valid(),
{
    state.jobs.clear();
}

/// What a job looks like from outside.
pub struct JobState {
    pub tab: u64,
    pub target: String,
    pub strings: usize,
    pub done: usize,
}

/// Every job, in the order of the tabs.
pub fn debug_snapshot(state: &Jobs) -> (r: Vec<JobState>)
    ensures
        exists|tabs: Seq<u64>| #[trigger] lists_keys_u64(tabs, state.jobs@) && r@.len() == tabs.len() && forall|i: int|
            0 <= i < r@.len() ==> {
                let job = state.jobs@[tabs[i]];
                &&& (#[trigger] r@[i]).tab == tabs[i]
                &&& r@[i].target@ == job.target@
                &&& r@[i].strings == job.texts@.len()
                &&& r@[i].done == job.at
            },
{
    let tabs = keys_u64(&state.jobs);
    let mut out: Vec<JobState> = Vec::new();
    let mut i: usize = 0;
    while i < tabs.len()
        invariant
            i <= tabs@.len(),
            lists_keys_u64(tabs@, state.jobs@),
            out@.len() == i,
            forall|k: int| 0 <= k < i ==> {
                let job = state.jobs@[tabs@[k]];
                &&& (#[trigger] out@[k]).tab == tabs@[k]
                &&& out@[k].target@ == job.target@
                &&& out@[k].strings == job.texts@.len()
                &&& out@[k].done == job.at
            },
        decreases tabs@.len() - i,
    {
        let tab: u64 = tabs[i];
        proof {
            assert(tabs@.contains(tab));
            assert(state.jobs@.contains_key(tab));
        }
        match state.jobs.get(&tab) {
            Some(job) => {
                out.push(JobState { tab, target: copy_text(job.target.as_str()), strings: job.texts.len(), done: job.at });
            },
            None => {},
        }
        i = i + 1;
    }
    out
}

/// A finished batch never moves a job back, and moves it on: after a batch was put in its place, the
/// next batch starts later, or every string was sent.
pub proof fn a_job_moves_on(job: Job, translations: Seq<String>, after: Job)
    requires
        advanced(job, translations, after),
        job.at < job.texts@.len(),
        job.texts@.len() <= usize::MAX,
    ensures
        after.at > job.at,
        after.texts == job.texts,
        after.out@.len() == job.out@.len(),
{
    assert(text_views(after.out@).len() == text_views(job.out@).len());
}

/// Translations keep their places: what was translated before the batch stays, and the batch's own
/// strings land where they came from.
pub proof fn translations_keep_their_places(out: Seq<Seq<char>>, at: int, batch: Seq<Seq<char>>, k: int)
    requires
        0 <= k < out.len(),
        0 <= at,
    ensures
        placed(out, at, batch).len() == out.len(),
        k < at ==> placed(out, at, batch)[k] == out[k],
        at <= k < at + batch.len() ==> placed(out, at, batch)[k] == batch[k - at],
{
}

// ------------------------------------------------------------------------------ scripts

/// Has the page show its own texts again.
pub const RESTORE_SCRIPT: &'static str = "globalThis.__staTranslate.restore()";

/// Has the page hand out its texts.
pub const COLLECT_SCRIPT: &'static str = "globalThis.__staTranslate.collect()";

/// The parameters of `Runtime.evaluate` for a script in the page: its value is awaited and handed back.
pub fn evaluate_params(expression: &str) -> (r: String)
    ensures
        r@ == "{\"awaitPromise\":true,\"expression\":"@ + json_quoted(expression@) + ",\"returnByValue\":true}"@,
{
    join3("{\"awaitPromise\":true,\"expression\":", json_string(expression).as_str(), ",\"returnByValue\":true}")
}

/// What an answer says of one string: the text itself, or the first of a pair; of anything else nothing.
pub proof fn an_answer_is_a_text_or_a_pair(entry: Json)
    ensures
        entry is Text ==> translation_in(entry) == entry->Text_0@,
        entry is List && entry->List_0@.len() > 0 && entry->List_0@[0] is Text ==> translation_in(entry) == entry->List_0@[0]->Text_0@,
        entry is List && (entry->List_0@.len() == 0 || !(entry->List_0@[0] is Text)) ==> translation_in(entry).len() == 0,
        !(entry is Text) && !(entry is List) ==> translation_in(entry).len() == 0,
{
}

/// An exception in the page is a failure, with the page's own words where it has some; else the value of the
/// result counts.
pub proof fn an_exception_in_the_page_is_a_failure(reply: Json)
    ensures
        evaluated(reply) is Err <==> reply.member("exceptionDetails"@) is Some,
        ({
            let details = reply.member("exceptionDetails"@);
            &&& details is Some && details->0.member("text"@) is Some && details->0.member("text"@)->0 is Text ==> evaluated(reply)->Err_0
                == details->0.member("text"@)->0->Text_0@
            &&& details is Some && details->0.member("text"@) is None ==> evaluated(reply)->Err_0 == "the page refused the script"@
        }),
        ({
            let result = reply.member("result"@);
            &&& evaluated(reply) is Ok && result is Some ==> evaluated(reply)->Ok_0 == result->0.member("value"@)
            &&& evaluated(reply) is Ok && result is None ==> evaluated(reply)->Ok_0 is None
        }),
{
}

/// What a page collected is every string of its list, in order, and nothing else of it.
pub proof fn every_string_is_collected(items: Seq<Json>, i: int)
    requires
        0 <= i <= items.len(),
    ensures
        (forall|k: int| i <= k < items.len() ==> (#[trigger] items[k]) is Text) ==> {
            &&& strings_from(items, i).len() == items.len() - i
            &&& forall|k: int| 0 <= k < items.len() - i ==> #[trigger] strings_from(items, i)[k] == items[i + k]->Text_0@
        },
        (forall|k: int| i <= k < items.len() ==> !((#[trigger] items[k]) is Text)) ==> strings_from(items, i).len() == 0,
        i < items.len() && !(items[i] is Text) ==> strings_from(items, i) == strings_from(items, i + 1),
        i < items.len() && items[i] is Text ==> strings_from(items, i).len() > 0 && strings_from(items, i)[0] == items[i]->Text_0@
            && strings_from(items, i).skip(1) == strings_from(items, i + 1),
    decreases items.len() - i,
{
    if i < items.len() {
        every_string_is_collected(items, i + 1);
        let rest = strings_from(items, i + 1);
        if items[i] is Text {
            assert(strings_from(items, i) =~= seq![items[i]->Text_0@] + rest);
            assert(strings_from(items, i).skip(1) =~= rest);
        }
    }
}

/// The page hands its strings over under `texts`; where there is no such list it has none.
pub proof fn a_page_hands_its_texts_over(value: Json)
    ensures
        ({
            let texts = value.member("texts"@);
            &&& texts is Some && texts->0 is List ==> collected(Some(value)) == strings_from(texts->0->List_0@, 0)
            &&& texts is None || !(texts->0 is List) ==> collected(Some(value)).len() == 0
        }),
        collected(None).len() == 0,
{
}

/// A failure ends the job of its tab and no other, lets its request go where there is one, and is reported
/// last, with its reason and without a success.
pub proof fn a_failure_ends_its_job(before: Map<u64, Job>, after: Map<u64, Job>, r: Seq<Effect>, tab: u64, reason: Seq<char>, other: u64)
    requires
        has_failed(before, after, r, tab, reason),
    ensures
        !after.contains_key(tab),
        other != tab ==> (after.contains_key(other) <==> before.contains_key(other)) && (before.contains_key(other) ==> after[other] == before[other]),
        r.len() > 0,
        r.last() is Finish && r.last()->Finish_tab == tab && !r.last()->restored && r.last()->strings == 0 && r.last()->images == 0,
        r.last()->error is Some && r.last()->error->0@ == reason,
        before.contains_key(tab) && before[tab].requested ==> r.len() == 2 && r[0] == (Effect::Release { tab, batch: before[tab].batch }),
        !before.contains_key(tab) || !before[tab].requested ==> r.len() == 1,
{
    if before.contains_key(tab) && before[tab].requested {
        assert(r.drop_last()[0] == r[0]);
    }
}

/// A job with strings left asks for its next batch, under a new number and with nothing of the last answer
/// left; one that has sent them all hands its translations to the page.
pub proof fn a_job_asks_for_what_is_left(before: Map<u64, Job>, after: Map<u64, Job>, r: Seq<Effect>, tab: u64)
    requires
        went_on(before, after, r, tab),
        before.contains_key(tab),
        before[tab].batch < u64::MAX,
    ensures
        ({
            let job = before[tab];
            let done = job.at >= job.texts@.len();
            &&& r.len() == 1
            &&& done ==> r[0] is ApplyPage && r[0]->ApplyPage_tab == tab && r[0]->ApplyPage_browser_id == job.browser_id && r[0]->expression@
                == "globalThis.__staTranslate.apply("@ + json_list(job.out@) + ")"@ && after == before
            &&& !done ==> {
                &&& r[0] is Fetch && r[0]->Fetch_tab == tab && r[0]->Fetch_batch == job.batch + 1
                &&& after.contains_key(tab) && after[tab].batch == job.batch + 1
                &&& after[tab].body@.len() == 0 && !after[tab].timed_out
                &&& after[tab].texts == job.texts && after[tab].out == job.out && after[tab].at == job.at && after[tab].target == job.target
                    && after[tab].browser_id == job.browser_id
            }
        }),
        forall|other: u64| other != tab && before.contains_key(other) ==> #[trigger] after.contains_key(other) && after[other] == before[other],
{
    assert forall|other: u64| other != tab && before.contains_key(other) implies #[trigger] after.contains_key(other) && after[other] == before[other] by {
        assert(before.remove(tab).contains_key(other));
        assert(before.remove(tab)[other] == before[other]);
        if before[tab].at < before[tab].texts@.len() {
            assert(after.remove(tab).contains_key(other));
            assert(after.remove(tab)[other] == after[other]);
        }
    }
}

/// A job begins with the first four thousand strings at most, none of them translated, and nothing in flight.
pub proof fn a_job_begins_with_its_strings(job: Job, browser_id: i32, target: Seq<char>, texts: Seq<Seq<char>>)
    requires
        is_new_job(job, browser_id, target, texts),
    ensures
        job.texts@.len() == (if texts.len() > 4000 { 4000 } else { texts.len() }),
        forall|i: int| 0 <= i < job.texts@.len() ==> (#[trigger] job.texts@[i])@ == texts[i],
        job.out@.len() == job.texts@.len(),
        forall|i: int| 0 <= i < job.out@.len() ==> (#[trigger] job.out@[i])@.len() == 0,
        job.at == 0 && !job.requested && !job.timed_out && job.body@.len() == 0 && job.batch == 0,
        job.browser_id == browser_id && job.target@ == target,
{
    let views = text_views(job.texts@);
    assert(views.len() == job.texts@.len());
    assert forall|i: int| 0 <= i < job.texts@.len() implies (#[trigger] job.texts@[i])@ == texts[i] by {
        assert(views[i] == job.texts@[i]@);
    }
}

/// A batch moves its job on by as many strings as it has, puts each where it belongs, and leaves what came
/// before; a batch that holds nothing ends the job.
pub proof fn a_batch_lands_where_it_belongs(job: Job, translations: Seq<String>, after: Job, k: int)
    requires
        advanced(job, translations, after),
        job.out@.len() == job.texts@.len(),
        job.at + translations.len() <= usize::MAX,
        0 <= k < job.out@.len(),
    ensures
        after.out@.len() == job.out@.len(),
        translations.len() > 0 ==> after.at == job.at + translations.len(),
        translations.len() == 0 ==> after.at == job.texts@.len(),
        k < job.at || k >= job.at + translations.len() ==> after.out@[k]@ == job.out@[k]@,
        job.at <= k < job.at + translations.len() ==> after.out@[k]@ == translations[k - job.at]@,
        !after.requested && after.texts == job.texts && after.batch == job.batch && after.target == job.target && after.browser_id == job.browser_id,
{
    let (was, now, new) = (text_views(job.out@), text_views(after.out@), text_views(translations));
    assert(now.len() == was.len());
    assert(now[k] == after.out@[k]@ && was[k] == job.out@[k]@);
    if job.at <= k < job.at + translations.len() {
        assert(new[k - job.at] == translations[k - job.at]@);
    }
}

/// With its browser a job goes, and no other does.
pub proof fn a_job_goes_with_its_browser(jobs: Map<u64, Job>, browser_id: i32, tab: u64)
    ensures
        without_browser(jobs, browser_id).contains_key(tab) <==> jobs.contains_key(tab) && jobs[tab].browser_id != browser_id,
        without_browser(jobs, browser_id).contains_key(tab) ==> without_browser(jobs, browser_id)[tab] == jobs[tab],
{
}

/// A batch counts only under its own number.
pub proof fn a_late_answer_is_not_in_flight(jobs: Map<u64, Job>, tab: u64, batch: u64)
    ensures
        in_flight(jobs, tab, batch) ==> jobs.contains_key(tab) && jobs[tab].batch == batch,
        jobs.contains_key(tab) ==> in_flight(jobs, tab, jobs[tab].batch),
        jobs.contains_key(tab) && jobs[tab].batch != batch ==> !in_flight(jobs, tab, batch),
        !jobs.contains_key(tab) ==> !in_flight(jobs, tab, batch),
{
}

/// The number of strings that landed is the page's own, and none where it gave none.
pub proof fn what_landed_is_what_the_page_counts(value: Json, n: u64)
    ensures
        value is Number && value->unsigned == Some(n) && n <= u32::MAX ==> landed(Some(value)) == n,
        !(value is Number) ==> landed(Some(value)) == 0,
        landed(None) == 0,
{
}

/// The limits of translating, and what the page is asked with.
pub proof fn the_limits_of_translating()
    ensures
        ENDPOINT@ == "https://translate.googleapis.com/translate_a/t"@,
        MAX_URL_BYTES == 7000,
        MAX_BATCH == 80,
        MAX_BODY_BYTES == 1024 * 1024,
        REQUEST_TIMEOUT_MS == 20000,
        EVAL_TIMEOUT_MS == 10000,
        MAX_STRINGS == 4000,
        RESTORE_SCRIPT@ == "globalThis.__staTranslate.restore()"@,
        COLLECT_SCRIPT@ == "globalThis.__staTranslate.collect()"@,
{
}

/// What a batch was answered is a list of as many translations as the answer has entries, each read from its own;
/// what is no text, no JSON or no list is refused, each for its own reason.
pub proof fn an_answer_is_read_entry_by_entry(body: Seq<u8>, r: Result<Vec<String>, String>)
    requires
        is_batch_of(body, r),
    ensures
        !valid_utf8(body) ==> r is Err && r->Err_0@ == "the answer was not text"@,
        valid_utf8(body) && !is_json(decode_utf8(body), MAX_DEPTH as nat) ==> r is Err && r->Err_0@ == "the answer could not be read"@,
        r is Ok ==> exists|value: Json| #[trigger] holds(value, decode_utf8(body), MAX_DEPTH as nat) && value is List && r->Ok_0@.len() == value->List_0@.len()
            && forall|i: int| 0 <= i < r->Ok_0@.len() ==> (#[trigger] r->Ok_0@[i])@ == translation_in(value->List_0@[i]),
        r is Err && valid_utf8(body) && is_json(decode_utf8(body), MAX_DEPTH as nat) ==> r->Err_0@ == "the answer was not a list"@,
{
}

/// An answered batch lets its request go and leads on to the next; one that cannot be read ends the job.
pub proof fn an_answered_batch_leads_on(before: Map<u64, Job>, after: Map<u64, Job>, r: Seq<Effect>, tab: u64)
    requires
        completed(before, after, r, tab),
        before.contains_key(tab),
        before[tab].requested,
    ensures
        r.len() >= 1,
        r[0] == (Effect::Release { tab, batch: before[tab].batch }),
        !after.contains_key(tab) ==> r.last() is Finish && r.last()->error is Some,
        after.contains_key(tab) ==> after[tab].texts == before[tab].texts && after[tab].target == before[tab].target,
{
    let job = before[tab];
    let first = released(tab, job);
    let parsed = choose|parsed: Result<Vec<String>, String>| #[trigger] is_batch_of(job.body@, parsed) && match parsed {
        Err(e) => has_failed(before, after, r, tab, e@),
        Ok(translations) => exists|next: Job|
            #![trigger advanced(job, translations@, next)]
            advanced(job, translations@, next) && r.len() >= first.len() && r.take(first.len() as int) == first && went_on(
                before.insert(tab, next),
                after,
                r.skip(first.len() as int),
                tab,
            ),
    };
    match parsed {
        Err(e) => {
            assert(r.drop_last()[0] == r[0]);
        },
        Ok(translations) => {
            let next = choose|next: Job|
                #![trigger advanced(job, translations@, next)]
                advanced(job, translations@, next) && r.len() >= first.len() && r.take(first.len() as int) == first && went_on(
                    before.insert(tab, next),
                    after,
                    r.skip(first.len() as int),
                    tab,
                );
            assert(r.take(first.len() as int)[0] == r[0]);
            assert(before.insert(tab, next).contains_key(tab));
        },
    }
}

} // verus!
