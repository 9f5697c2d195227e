//! The `sta://` scheme: which asset a URL asks for, and the response that carries it.
//!
//! `sta://<host>/<path>?q#f` maps to `common/<rest>` for a path below `common/`, to
//! `<host>/index.html` for an empty path or one without an extension, else to `<host>/<path>`; an
//! unknown host is a 404. Every response carries the same security headers.
use crate::text::{
    ascii_lower, chars_of, copy_text, find_first, find_last, first_index, has_char, has_prefix, has_suffix, join3, last_index, lower, lower_char, same_text, split,
    split_chars, text_of, text_views, the_last_position_is_the_last, utf8_text,
};
use crate::urls::{a_component_is_inert, component, is_kept, upper_hex, uri_component};
use vstd::prelude::*;
use vstd::utf8::{decode_utf8, encode_utf8, valid_utf8};

verus! {

pub const SCHEME: &'static str = "sta";

pub const ORIGIN_PREFIX: &'static str = "sta://";

/// How the scheme is treated: like `http` in its syntax.
pub const SCHEME_STANDARD: i32 = 1;

/// Only pages of the same scheme may show its pages.
pub const SCHEME_DISPLAY_ISOLATED: i32 = 4;

/// As secure as `https`.
pub const SCHEME_SECURE: i32 = 8;

/// It can be sent requests across origins.
pub const SCHEME_CORS_ENABLED: i32 = 16;

/// `fetch` can load it.
pub const SCHEME_FETCH_ENABLED: i32 = 64;

/// Content-Security-Policy for every UI response.
pub const CSP: &'static str = "default-src 'none'; script-src 'self'; style-src 'self' 'unsafe-inline'; img-src 'self' data: https:; font-src 'self' data:; connect-src 'self'; base-uri 'none'; form-action 'none'; frame-ancestors 'none'";

/// The path under which two hosts serve extension icons.
pub const ICON_PATH_PREFIX: &'static str = "__ext-icon/";

/// A host that is served. Anything else is a 404.
pub open spec fn served(host: Seq<char>) -> bool {
    ||| host == "sidebar"@
    ||| host == "topbar"@
    ||| host == "command"@
    ||| host == "empty"@
    ||| host == "peek"@
    ||| host == "find"@
    ||| host == "permission"@
    ||| host == "switcher"@
    ||| host == "toast"@
    ||| host == "settings"@
    ||| host == "archive"@
    ||| host == "history"@
    ||| host == "boosts"@
    ||| host == "agent"@
    ||| host == "extension"@
}

/// A host that serves extension icons.
pub open spec fn serves_icons(host: Seq<char>) -> bool {
    host == "command"@ || host == "settings"@
}

/// An overlay host that gets the built-in placeholder page when its own is missing.
pub open spec fn has_placeholder(host: Seq<char>) -> bool {
    ||| host == "find"@
    ||| host == "permission"@
    ||| host == "switcher"@
    ||| host == "toast"@
    ||| host == "peek"@
    ||| host == "extension"@
}

/// How the scheme is treated, in one number.
pub fn scheme_options() -> (r: i32)
    ensures
        r == SCHEME_STANDARD + SCHEME_SECURE + SCHEME_CORS_ENABLED + SCHEME_FETCH_ENABLED + SCHEME_DISPLAY_ISOLATED,
        r == 93,
{
    SCHEME_STANDARD + SCHEME_SECURE + SCHEME_CORS_ENABLED + SCHEME_FETCH_ENABLED + SCHEME_DISPLAY_ISOLATED
}

/// A host that is served.
pub fn is_served_host(host: &str) -> (r: bool)
    ensures
        r == served(host@),
{
    same_text(host, "sidebar") || same_text(host, "topbar") || same_text(host, "command") || same_text(host, "empty") || same_text(host, "peek")
        || same_text(host, "find") || same_text(host, "permission") || same_text(host, "switcher") || same_text(host, "toast")
        || same_text(host, "settings") || same_text(host, "archive") || same_text(host, "history") || same_text(host, "boosts")
        || same_text(host, "agent") || same_text(host, "extension")
}

fn is_icon_host(host: &str) -> (r: bool)
    ensures
        r == serves_icons(host@),
{
    same_text(host, "command") || same_text(host, "settings")
}

fn is_placeholder_host(host: &str) -> (r: bool)
    ensures
        r == has_placeholder(host@),
{
    same_text(host, "find") || same_text(host, "permission") || same_text(host, "switcher") || same_text(host, "toast") || same_text(host, "peek")
        || same_text(host, "extension")
}

// ------------------------------------------------------------------------------ urls

/// `sta://...`, whatever the case of the scheme.
pub open spec fn is_internal(url: Seq<char>) -> bool {
    url.len() >= 6 && lower(url.take(6)) == "sta://"@
}

/// `true` for `sta://...` (case-insensitive scheme).
pub fn is_sta_url(url: &str) -> (r: bool)
    ensures
        r == is_internal(url@),
{
    let cs = chars_of(url);
    if cs.len() < 6 {
        return false;
    }
    let head = text_of(cs.as_slice(), 0, 6);
    proof {
        assert(head@ =~= url@.take(6));
    }
    same_text(ascii_lower(head.as_str()).as_str(), "sta://")
}

/// Where the host of a URL ends: at the first `/`, `?` or `#` from `i` on, or at the end.
pub open spec fn host_end(url: Seq<char>, i: int) -> int
    decreases url.len() - i,
{
    if i < 0 || i >= url.len() {
        url.len() as int
    } else if url[i] == '/' || url[i] == '?' || url[i] == '#' {
        i
    } else {
        host_end(url, i + 1)
    }
}

/// Where the path of a URL ends: at the first `?` or `#` from `i` on, or at the end.
pub open spec fn path_end(url: Seq<char>, i: int) -> int
    decreases url.len() - i,
{
    if i < 0 || i >= url.len() {
        url.len() as int
    } else if url[i] == '?' || url[i] == '#' {
        i
    } else {
        path_end(url, i + 1)
    }
}

/// Where the path of a URL begins: after the slashes from `i` on.
pub open spec fn path_start(url: Seq<char>, i: int, end: int) -> int
    decreases end - i,
{
    if i < 0 || i >= end || url[i] != '/' {
        i
    } else {
        path_start(url, i + 1, end)
    }
}

/// The host of a `sta://` URL.
pub open spec fn host(url: Seq<char>) -> Option<Seq<char>> {
    if is_internal(url) {
        Some(url.subrange(6, host_end(url, 6)))
    } else {
        None
    }
}

/// The path of a `sta://` URL as it is written, without the slashes before it.
pub open spec fn written_path(url: Seq<char>) -> Seq<char> {
    let from = host_end(url, 6);
    let to = path_end(url, from);
    url.subrange(path_start(url, from, to), to)
}

fn find_host_end(cs: &Vec<char>) -> (r: usize)
    requires
        cs@.len() >= 6,
    ensures
        r == host_end(cs@, 6),
        6 <= r <= cs@.len(),
{
    let mut i: usize = 6;
    while i < cs.len()
        invariant
            6 <= i <= cs@.len(),
            host_end(cs@, 6) == host_end(cs@, i as int),
        decreases cs@.len() - i,
    {
        if cs[i] == '/' || cs[i] == '?' || cs[i] == '#' {
            return i;
        }
        i = i + 1;
    }
    i
}

fn find_path(cs: &Vec<char>, from: usize) -> (r: (usize, usize))
    requires
        from <= cs@.len(),
    ensures
        r.1 == path_end(cs@, from as int),
        r.0 == path_start(cs@, from as int, r.1 as int),
        r.0 <= r.1 <= cs@.len(),
{
    let mut to: usize = from;
    while to < cs.len() && cs[to] != '?' && cs[to] != '#'
        invariant
            from <= to <= cs@.len(),
            path_end(cs@, from as int) == path_end(cs@, to as int),
        decreases cs@.len() - to,
    {
        to = to + 1;
    }
    let mut start: usize = from;
    while start < to && cs[start] == '/'
        invariant
            from <= start <= to <= cs@.len(),
            path_start(cs@, from as int, to as int) == path_start(cs@, start as int, to as int),
        decreases to - start,
    {
        start = start + 1;
    }
    (start, to)
}

/// Host of a `sta://` URL (`sta://sidebar/x` is `sidebar`).
pub fn host_of(url: &str) -> (r: Option<String>)
    ensures
        match r {
            Some(h) => host(url@) == Some(h@),
            None => host(url@) is None,
        },
{
    if !is_sta_url(url) {
        return None;
    }
    let cs = chars_of(url);
    let end: usize = find_host_end(&cs);
    Some(text_of(cs.as_slice(), 6, end))
}

// ------------------------------------------------------------------------------ percent encoding

/// The value of a hexadecimal digit, if the byte is one.
pub open spec fn nibble(b: u8) -> Option<u8> {
    if 0x30 <= b <= 0x39 {
        Some((b - 0x30) as u8)
    } else if 0x41 <= b <= 0x46 {
        Some((b - 0x37) as u8)
    } else if 0x61 <= b <= 0x66 {
        Some((b - 0x57) as u8)
    } else {
        None
    }
}

/// The byte that the two characters after a percent sign stand for: two hexadecimal digits, or a plus
/// sign and one.
pub open spec fn escaped(a: u8, b: u8) -> Option<u8> {
    match (nibble(a), nibble(b)) {
        (Some(x), Some(y)) => Some((x * 16 + y) as u8),
        (None, Some(y)) => if a == 0x2B { Some(y) } else { None },
        _ => None,
    }
}

/// The bytes from `i` on with their percent escapes replaced; `None` where one is malformed.
pub open spec fn unescaped(bytes: Seq<u8>, i: int) -> Option<Seq<u8>>
    decreases bytes.len() - i,
{
    if i < 0 || i >= bytes.len() {
        Some(Seq::empty())
    } else if bytes[i] != 0x25 {
        match unescaped(bytes, i + 1) {
            Some(rest) => Some(seq![bytes[i]] + rest),
            None => None,
        }
    } else if i + 3 > bytes.len() {
        None
    } else {
        match (escaped(bytes[i + 1], bytes[i + 2]), unescaped(bytes, i + 3)) {
            (Some(b), Some(rest)) => Some(seq![b] + rest),
            _ => None,
        }
    }
}

/// A text with its percent escapes replaced; `None` where one is malformed or the result is not UTF-8.
pub open spec fn decoded(s: Seq<char>) -> Option<Seq<char>> {
    if !s.contains('%') {
        Some(s)
    } else {
        match unescaped(encode_utf8(s), 0) {
            Some(b) => if valid_utf8(b) { Some(decode_utf8(b)) } else { None },
            None => None,
        }
    }
}

fn hex_value(b: u8) -> (r: Option<u8>)
    ensures
        r == nibble(b),
        r is Some ==> r->0 < 16,
{
    if 0x30 <= b && b <= 0x39 {
        Some(b - 0x30)
    } else if 0x41 <= b && b <= 0x46 {
        Some(b - 0x37)
    } else if 0x61 <= b && b <= 0x66 {
        Some(b - 0x57)
    } else {
        None
    }
}

fn escape_value(a: u8, b: u8) -> (r: Option<u8>)
    ensures
        r == escaped(a, b),
{
    match (hex_value(a), hex_value(b)) {
        (Some(x), Some(y)) => Some(x * 16 + y),
        (None, Some(y)) => if a == 0x2B { Some(y) } else { None },
        _ => None,
    }
}

/// `done` before what follows it.
spec fn joined(done: Seq<u8>, rest: Option<Seq<u8>>) -> Option<Seq<u8>> {
    match rest {
        Some(r) => Some(done + r),
        None => None,
    }
}

fn unescape(bytes: &[u8]) -> (r: Option<Vec<u8>>)
    ensures
        match r {
            Some(v) => unescaped(bytes@, 0) == Some(v@),
            None => unescaped(bytes@, 0) is None,
        },
{
    let total: usize = bytes.len();
    let mut out: Vec<u8> = Vec::new();
    let mut i: usize = 0;
    let ghost whole = unescaped(bytes@, 0);
    proof {
        if whole is Some {
            assert(out@ + whole->0 =~= whole->0);
        }
    }
    while i < total
        invariant
            total == bytes@.len(),
            i <= total,
            whole == unescaped(bytes@, 0),
            whole == joined(out@, unescaped(bytes@, i as int)),
        decreases total - i,
    {
        let ghost before = out@;
        if bytes[i] != 0x25 {
            out.push(bytes[i]);
            proof {
                let rest = unescaped(bytes@, i + 1);
                if rest is Some {
                    assert(before + (seq![bytes@[i as int]] + rest->0) =~= out@ + rest->0);
                }
            }
            i = i + 1;
        } else {
            if total - i < 3 {
                return None;
            }
            match escape_value(bytes[i + 1], bytes[i + 2]) {
                None => {
                    return None;
                },
                Some(b) => {
                    out.push(b);
                    proof {
                        let rest = unescaped(bytes@, i + 3);
                        if rest is Some {
                            assert(before + (seq![b] + rest->0) =~= out@ + rest->0);
                        }
                    }
                },
            }
            i = i + 3;
        }
    }
    proof {
        assert(out@ + Seq::<u8>::empty() =~= out@);
    }
    Some(out)
}

/// The text with its percent escapes replaced.
pub fn percent_decode(s: &str) -> (r: Option<String>)
    ensures
        match r {
            Some(t) => decoded(s@) == Some(t@),
            None => decoded(s@) is None,
        },
{
    if !has_char(s, '%') {
        return Some(copy_text(s));
    }
    match unescape(s.as_bytes()) {
        Some(b) => utf8_text(b.as_slice()),
        None => None,
    }
}

// ------------------------------------------------------------------------------ assets

/// A path segment that could lead out of the folder.
pub open spec fn is_dots(segment: Seq<char>) -> bool {
    segment == "."@ || segment == ".."@
}

/// A path that could lead out of the folder: a dot segment, a backslash or a colon.
pub open spec fn leads_out(path: Seq<char>) -> bool {
    ||| path.contains('\\')
    ||| path.contains(':')
    ||| exists|k: int| 0 <= k < split(path, '/').len() && is_dots(#[trigger] split(path, '/')[k])
}

/// The last segment of a path.
pub open spec fn last_segment(path: Seq<char>) -> Seq<char> {
    match last_index(path, '/') {
        Some(i) => path.skip(i + 1),
        None => path,
    }
}

/// The asset that a decoded path of a served host names.
pub open spec fn asset_at(host: Seq<char>, path: Seq<char>) -> Result<Seq<char>, u16> {
    if leads_out(path) {
        Err(400)
    } else if "common/"@.is_prefix_of(path) {
        if path.len() == 7 { Err(404) } else { Ok(path) }
    } else if ICON_PATH_PREFIX@.is_prefix_of(path) {
        if serves_icons(host) { Ok(host + "/"@ + path) } else { Err(404) }
    } else if path.len() == 0 || !last_segment(path).contains('.') {
        Ok(host + "/index.html"@)
    } else {
        Ok(host + "/"@ + path)
    }
}

/// The asset that a URL asks for, or the status that refuses it.
pub open spec fn asset_of(url: Seq<char>) -> Result<Seq<char>, u16> {
    match host(url) {
        None => Err(400),
        Some(h) => if !served(h) {
            Err(404)
        } else {
            match decoded(written_path(url)) {
                None => Err(400),
                Some(path) => asset_at(h, path),
            }
        },
    }
}

fn refuses(path: &str) -> (r: bool)
    ensures
        r == leads_out(path@),
{
    if has_char(path, '\\') || has_char(path, ':') {
        return true;
    }
    let segments = split_chars(&chars_of(path), '/');
    let ghost views = split(path@, '/');
    let mut k: usize = 0;
    while k < segments.len()
        invariant
            k <= segments@.len(),
            views == split(path@, '/'),
            text_views(segments@) == views,
            !path@.contains('\\'),
            !path@.contains(':'),
            forall|j: int| 0 <= j < k ==> !is_dots(#[trigger] views[j]),
        decreases segments@.len() - k,
    {
        proof {
            assert(views[k as int] == segments@[k as int]@);
        }
        if same_text(segments[k].as_str(), "..") || same_text(segments[k].as_str(), ".") {
            proof {
                assert(is_dots(split(path@, '/')[k as int]));
            }
            return true;
        }
        k = k + 1;
    }
    false
}

fn has_extension(path: &str) -> (r: bool)
    ensures
        r == last_segment(path@).contains('.'),
{
    let cs = chars_of(path);
    let total: usize = cs.len();
    let from: usize = match find_last(&cs, '/') {
        Some(i) => i + 1,
        None => 0,
    };
    let last = text_of(cs.as_slice(), from, total);
    proof {
        assert(last@ =~= last_segment(path@));
    }
    has_char(last.as_str(), '.')
}

/// The asset that a decoded path of a served host names, or the status that refuses it.
pub fn asset_path(host: &str, path: &str) -> (r: Result<String, u16>)
    ensures
        match r {
            Ok(p) => asset_at(host@, path@) == Result::<Seq<char>, u16>::Ok(p@),
            Err(e) => asset_at(host@, path@) == Result::<Seq<char>, u16>::Err(e),
        },
{
    if refuses(path) {
        return Err(400);
    }
    if has_prefix(path, "common/") {
        proof {
            reveal_strlit("common/");
        }
        let cs = chars_of(path);
        return if cs.len() == 7 { Err(404) } else { Ok(copy_text(path)) };
    }
    if has_prefix(path, ICON_PATH_PREFIX) {
        return if is_icon_host(host) { Ok(join3(host, "/", path)) } else { Err(404) };
    }
    if path.is_empty() || !has_extension(path) {
        return Ok(crate::text::join2(host, "/index.html"));
    }
    Ok(join3(host, "/", path))
}

/// Maps a request URL to a path inside the UI folder. `Err(status)` for rejected requests.
pub fn resolve_asset(url: &str) -> (r: Result<String, u16>)
    ensures
        match r {
            Ok(p) => asset_of(url@) == Result::<Seq<char>, u16>::Ok(p@),
            Err(e) => asset_of(url@) == Result::<Seq<char>, u16>::Err(e),
        },
{
    let name = match host_of(url) {
        Some(h) => h,
        None => {
            return Err(400);
        },
    };
    if !is_served_host(name.as_str()) {
        return Err(404);
    }
    let cs = chars_of(url);
    let end: usize = find_host_end(&cs);
    let span = find_path(&cs, end);
    let written = text_of(cs.as_slice(), span.0, span.1);
    match percent_decode(written.as_str()) {
        None => Err(400),
        Some(path) => asset_path(name.as_str(), path.as_str()),
    }
}

/// Whatever the URL says, an asset lies inside the UI folder: it is a page of a served host, or what a
/// path without dot segments, backslashes and colons names below `common` or below the host.
pub proof fn assets_stay_inside(url: Seq<char>)
    requires
        asset_of(url) is Ok,
    ensures
        ({
            let h = host(url)->0;
            let path = decoded(written_path(url))->0;
            let asset = asset_of(url)->Ok_0;
            &&& served(h)
            &&& !leads_out(path)
            &&& asset == h + "/index.html"@ || asset == h + "/"@ + path || (asset == path && "common/"@.is_prefix_of(path))
        }),
{
}

/// The part of an asset path after its host, for an extension icon of a host that serves them.
pub open spec fn icon_path(path: Seq<char>) -> Option<Seq<char>> {
    match first_index(path, '/', 0) {
        None => None,
        Some(i) => if serves_icons(path.take(i)) && ICON_PATH_PREFIX@.is_prefix_of(path.skip(i + 1)) {
            Some(path.skip(i + 1))
        } else {
            None
        },
    }
}

/// `<host>/__ext-icon/<id>/<px>` for a host that serves extension icons: the part after the host.
pub fn extension_icon_path(path: &str) -> (r: Option<String>)
    ensures
        match r {
            Some(p) => icon_path(path@) == Some(p@),
            None => icon_path(path@) is None,
        },
{
    let cs = chars_of(path);
    let total: usize = cs.len();
    let i: usize = match find_first(&cs, '/') {
        Some(i) => i,
        None => {
            return None;
        },
    };
    let name = text_of(cs.as_slice(), 0, i);
    let rest = text_of(cs.as_slice(), i + 1, total);
    proof {
        assert(name@ =~= path@.take(i as int));
        assert(rest@ =~= path@.skip(i + 1));
    }
    if is_icon_host(name.as_str()) && has_prefix(rest.as_str(), ICON_PATH_PREFIX) {
        Some(rest)
    } else {
        None
    }
}

/// The two files of the built-in fallback page.
#[derive(Debug, Clone, Copy, PartialEq, Eq, Structural)]
pub enum Placeholder {
    Html,
    Script,
}

pub open spec fn placeholder_of(path: Seq<char>) -> Option<Placeholder> {
    match first_index(path, '/', 0) {
        None => None,
        Some(i) => if !has_placeholder(path.take(i)) {
            None
        } else if path.skip(i + 1) == "index.html"@ {
            Some(Placeholder::Html)
        } else if path.skip(i + 1) == "__shell_placeholder.js"@ {
            Some(Placeholder::Script)
        } else {
            None
        },
    }
}

/// Built-in fallback for a missing overlay page: which of its files `<host>/index.html` and
/// `<host>/__shell_placeholder.js` stand for.
pub fn placeholder_asset(path: &str) -> (r: Option<Placeholder>)
    ensures
        r == placeholder_of(path@),
{
    let cs = chars_of(path);
    let total: usize = cs.len();
    let i: usize = match find_first(&cs, '/') {
        Some(i) => i,
        None => {
            return None;
        },
    };
    let name = text_of(cs.as_slice(), 0, i);
    let file = text_of(cs.as_slice(), i + 1, total);
    proof {
        assert(name@ =~= path@.take(i as int));
        assert(file@ =~= path@.skip(i + 1));
        reveal_strlit("index.html");
        reveal_strlit("__shell_placeholder.js");
        assert("index.html"@.len() != "__shell_placeholder.js"@.len());
    }
    if !is_placeholder_host(name.as_str()) {
        None
    } else if same_text(file.as_str(), "index.html") {
        Some(Placeholder::Html)
    } else if same_text(file.as_str(), "__shell_placeholder.js") {
        Some(Placeholder::Script)
    } else {
        None
    }
}

impl Placeholder {
    pub open spec fn type_of(self) -> Seq<char> {
        match self {
            Placeholder::Html => "text/html"@,
            Placeholder::Script => "text/javascript"@,
        }
    }

    /// The MIME type of the file.
    pub fn mime(self) -> (r: &'static str)
        ensures
            r@ == self.type_of(),
    {
        match self {
            Placeholder::Html => "text/html",
            Placeholder::Script => "text/javascript",
        }
    }
}

/// The lower-case extension of a path: what follows its last dot, or nothing.
pub open spec fn extension(path: Seq<char>) -> Seq<char> {
    match last_index(path, '.') {
        Some(i) => lower(path.skip(i + 1)),
        None => Seq::empty(),
    }
}

/// The MIME type of a file extension.
pub open spec fn mime_of(ext: Seq<char>) -> Seq<char> {
    if ext == "html"@ || ext == "htm"@ {
        "text/html"@
    } else if ext == "js"@ || ext == "mjs"@ {
        "text/javascript"@
    } else if ext == "css"@ {
        "text/css"@
    } else if ext == "json"@ || ext == "map"@ {
        "application/json"@
    } else if ext == "svg"@ {
        "image/svg+xml"@
    } else if ext == "png"@ {
        "image/png"@
    } else if ext == "jpg"@ || ext == "jpeg"@ {
        "image/jpeg"@
    } else if ext == "gif"@ {
        "image/gif"@
    } else if ext == "webp"@ {
        "image/webp"@
    } else if ext == "ico"@ {
        "image/x-icon"@
    } else if ext == "woff2"@ {
        "font/woff2"@
    } else if ext == "woff"@ {
        "font/woff"@
    } else if ext == "ttf"@ {
        "font/ttf"@
    } else if ext == "txt"@ {
        "text/plain"@
    } else {
        "application/octet-stream"@
    }
}

/// MIME type by file extension.
pub fn mime_for(path: &str) -> (r: &'static str)
    ensures
        r@ == mime_of(extension(path@)),
{
    let cs = chars_of(path);
    let ext = match find_last(&cs, '.') {
        Some(i) => {
            let tail = text_of(cs.as_slice(), i + 1, cs.len());
            proof {
                assert(tail@ =~= path@.skip(i + 1));
            }
            ascii_lower(tail.as_str())
        },
        None => String::new(),
    };
    let e = ext.as_str();
    if same_text(e, "html") || same_text(e, "htm") {
        "text/html"
    } else if same_text(e, "js") || same_text(e, "mjs") {
        "text/javascript"
    } else if same_text(e, "css") {
        "text/css"
    } else if same_text(e, "json") || same_text(e, "map") {
        "application/json"
    } else if same_text(e, "svg") {
        "image/svg+xml"
    } else if same_text(e, "png") {
        "image/png"
    } else if same_text(e, "jpg") || same_text(e, "jpeg") {
        "image/jpeg"
    } else if same_text(e, "gif") {
        "image/gif"
    } else if same_text(e, "webp") {
        "image/webp"
    } else if same_text(e, "ico") {
        "image/x-icon"
    } else if same_text(e, "woff2") {
        "font/woff2"
    } else if same_text(e, "woff") {
        "font/woff"
    } else if same_text(e, "ttf") {
        "font/ttf"
    } else if same_text(e, "txt") {
        "text/plain"
    } else {
        "application/octet-stream"
    }
}

// ------------------------------------------------------------------------------ responses

/// An in-memory response.
pub struct Resp {
    pub status: i32,
    pub mime: String,
    pub body: Vec<u8>,
    /// How much of the body was handed out.
    pub pos: usize,
}

impl Resp {
    /// Nothing beyond the body was handed out.
    pub open spec fn valid(self) -> bool {
        self.pos <= self.body@.len()
    }

    /// A fresh response.
    pub open spec fn is_new(self, status: int, mime: Seq<char>, body: Seq<u8>) -> bool {
        self.status == status && self.mime@ == mime && self.body@ == body && self.pos == 0
    }

    /// What is still to be handed out.
    pub open spec fn left(self) -> Seq<u8> {
        self.body@.skip(self.pos as int)
    }
}

/// A response that carries `body`.
pub fn respond(status: i32, mime: &str, body: Vec<u8>) -> (r: Resp)
    ensures
        r.is_new(status as int, mime@, body@),
        r.valid(),
{
    Resp { status, mime: copy_text(mime), body, pos: 0 }
}

/// The text of an error response.
pub open spec fn error_text(status: int) -> Seq<u8> {
    encode_utf8(
        if status == 400 {
            "bad request"@
        } else if status == 404 {
            "not found"@
        } else if status == 405 {
            "method not allowed"@
        } else {
            "error"@
        },
    )
}

/// The response to a rejected request.
pub fn error_response(status: u16) -> (r: Resp)
    ensures
        r.is_new(status as int, "text/plain"@, error_text(status as int)),
        r.valid(),
{
    let text = if status == 400 {
        "bad request"
    } else if status == 404 {
        "not found"
    } else if status == 405 {
        "method not allowed"
    } else {
        "error"
    };
    let bytes = text.as_bytes();
    let body = crate::bytes::copy_range(bytes, 0, bytes.len());
    proof {
        assert(body@ =~= encode_utf8(text@));
    }
    respond(status as i32, "text/plain", body)
}

/// The headers of every response, in order.
pub fn security_headers() -> (r: Vec<(&'static str, &'static str)>)
    ensures
        r@.len() == 4,
        r@[0].0@ == "Content-Security-Policy"@ && r@[0].1@ == CSP@,
        r@[1].0@ == "Cache-Control"@ && r@[1].1@ == "no-store"@,
        r@[2].0@ == "X-Content-Type-Options"@ && r@[2].1@ == "nosniff"@,
        r@[3].0@ == "Referrer-Policy"@ && r@[3].1@ == "no-referrer"@,
{
    vec![
        ("Content-Security-Policy", CSP),
        ("Cache-Control", "no-store"),
        ("X-Content-Type-Options", "nosniff"),
        ("Referrer-Policy", "no-referrer"),
    ]
}

/// The type is text, and gets a character set.
pub open spec fn is_text_type(mime: Seq<char>) -> bool {
    "text/"@.is_prefix_of(mime) || "json"@.is_suffix_of(mime) || mime == "image/svg+xml"@
}

/// What a response is announced with.
pub struct Announced {
    pub status: i32,
    pub mime: String,
    /// The character set is UTF-8 (else none is named).
    pub utf8: bool,
    pub length: u64,
}

/// What a response is announced with, besides the security headers.
pub fn response_headers(resp: &Resp) -> (r: Announced)
    ensures
        r.status == resp.status,
        r.mime@ == resp.mime@,
        r.utf8 == is_text_type(resp.mime@),
        r.length == resp.body@.len(),
{
    let mime = resp.mime.as_str();
    Announced {
        status: resp.status,
        mime: copy_text(mime),
        utf8: has_prefix(mime, "text/") || has_suffix(mime, "json") || same_text(mime, "image/svg+xml"),
        length: resp.body.len() as u64,
    }
}

/// How much of `left` bytes a request for `wanted` gets.
pub open spec fn granted(left: int, wanted: int) -> int {
    if wanted <= 0 {
        0
    } else if left < wanted {
        left
    } else {
        wanted
    }
}

/// Skips bytes: `None` when there is nothing to skip.
pub fn skip(resp: &mut Resp, wanted: i64) -> (r: Option<u64>)
    requires
        old(resp).valid(),
    ensures
        final(resp).valid(),
        final(resp).status == old(resp).status && final(resp).mime == old(resp).mime && final(resp).body == old(resp).body,
        ({
            let n = granted(old(resp).left().len() as int, wanted as int);
            &&& final(resp).pos == old(resp).pos + n
            &&& r == (if n == 0 { None } else { Some(n as u64) })
        }),
{
    let left: u64 = (resp.body.len() - resp.pos) as u64;
    let n: u64 = if wanted <= 0 {
        0
    } else if left < wanted as u64 {
        left
    } else {
        wanted as u64
    };
    if n == 0 {
        return None;
    }
    resp.pos = resp.pos + n as usize;
    Some(n)
}

/// Reads bytes: none when the response is complete.
pub fn read(resp: &mut Resp, wanted: i32) -> (r: Vec<u8>)
    requires
        old(resp).valid(),
    ensures
        final(resp).valid(),
        final(resp).status == old(resp).status && final(resp).mime == old(resp).mime && final(resp).body == old(resp).body,
        r@ == old(resp).left().take(granted(old(resp).left().len() as int, wanted as int)),
        r@ + final(resp).left() == old(resp).left(),
{
    let left: usize = resp.body.len() - resp.pos;
    let n: usize = if wanted <= 0 {
        0
    } else if (left as u64) < wanted as u64 {
        left
    } else {
        wanted as usize
    };
    let out = crate::bytes::copy_range(resp.body.as_slice(), resp.pos, resp.pos + n);
    resp.pos = resp.pos + n;
    proof {
        assert(out@ =~= old(resp).left().take(n as int));
        assert(out@ + resp.left() =~= old(resp).left());
    }
    out
}

/// Drops the rest of a response.
pub fn cancel(resp: &mut Resp)
    ensures
        final(resp).valid(),
        final(resp).left() == Seq::<u8>::empty(),
        final(resp).status == old(resp).status && final(resp).mime == old(resp).mime && final(resp).body == old(resp).body,
{
    resp.pos = resp.body.len();
    proof {
        assert(resp.left() =~= Seq::<u8>::empty());
    }
}

/// Reads as much as is asked for each time hand the whole body out, in order: what a read returns,
/// followed by what is left after it, is what was left before it, and a read of a positive size that
/// returns nothing means that nothing is left.
pub proof fn an_empty_read_means_complete(left: Seq<u8>, wanted: int)
    requires
        wanted > 0,
        left.take(granted(left.len() as int, wanted)).len() == 0,
    ensures
        left.len() == 0,
{
}

// ------------------------------------------------------------------------------ requests

/// What has to be looked up for a request.
pub enum Lookup {
    /// Nothing: this is the answer.
    Refused(Resp),
    /// The extension icon at this path.
    Icon(String),
    /// The asset at this path.
    Asset(String),
}

/// What a request asks for. (An extension icon is looked up first, then the assets.)
pub open spec fn asks_for(method: Seq<char>, url: Seq<char>, r: Lookup) -> bool {
    if method != "GET"@ && method != "HEAD"@ {
        r is Refused && r->Refused_0.is_new(405, "text/plain"@, error_text(405))
    } else {
        match asset_of(url) {
            Err(status) => r is Refused && r->Refused_0.is_new(status as int, "text/plain"@, error_text(status as int)),
            Ok(path) => match icon_path(path) {
                Some(icon) => r is Icon && r->Icon_0@ == icon,
                None => r is Asset && r->Asset_0@ == path,
            },
        }
    }
}

/// What a request asks for: nothing but GET and HEAD, and only what a URL can name.
pub fn create(method: &str, url: &str) -> (r: Lookup)
    ensures
        asks_for(method@, url@, r),
{
    if !same_text(method, "GET") && !same_text(method, "HEAD") {
        return Lookup::Refused(error_response(405));
    }
    match resolve_asset(url) {
        Err(status) => Lookup::Refused(error_response(status)),
        Ok(path) => match extension_icon_path(path.as_str()) {
            Some(icon) => Lookup::Icon(icon),
            None => Lookup::Asset(path),
        },
    }
}

/// The answer to a request for an icon: its type and bytes, or not found.
pub fn icon_answer(icon: Option<(String, Vec<u8>)>) -> (r: Resp)
    ensures
        match icon {
            Some(found) => r.is_new(200, found.0@, found.1@),
            None => r.is_new(404, "text/plain"@, error_text(404)),
        },
        r.valid(),
{
    match icon {
        Some(found) => respond(200, found.0.as_str(), found.1),
        None => error_response(404),
    }
}

/// The answer to a request for an asset: the file, else the placeholder of an overlay page, else not
/// found. The real page always wins.
pub fn asset_answer(path: &str, file: Option<Vec<u8>>, html: Vec<u8>, script: Vec<u8>) -> (r: Resp)
    ensures
        match file {
            Some(data) => r.is_new(200, mime_of(extension(path@)), data@),
            None => match placeholder_of(path@) {
                Some(Placeholder::Html) => r.is_new(200, "text/html"@, html@),
                Some(Placeholder::Script) => r.is_new(200, "text/javascript"@, script@),
                None => r.is_new(404, "text/plain"@, error_text(404)),
            },
        },
        r.valid(),
{
    match file {
        Some(data) => respond(200, mime_for(path), data),
        None => match placeholder_asset(path) {
            Some(Placeholder::Html) => respond(200, "text/html", html),
            Some(Placeholder::Script) => respond(200, "text/javascript", script),
            None => error_response(404),
        },
    }
}

// ------------------------------------------------------------------------------ what holds

/// The text ends in `tail`, whatever the case of its letters (`tail` is written in small ones).
pub open spec fn ends_in(text: Seq<char>, tail: Seq<char>) -> bool {
    let from = text.len() - tail.len();
    &&& from >= 0
    &&& forall|k: int|
        0 <= k < tail.len() ==> #[trigger] text[from + k] == tail[k] || ('a' <= tail[k] <= 'z' && text[from + k] as int == tail[k] as int - 32)
}

/// What follows the last dot is the extension, in small letters.
proof fn ending_is_the_extension(path: Seq<char>, tail: Seq<char>)
    requires
        tail.len() > 0,
        tail[0] == '.',
        forall|k: int| 1 <= k < tail.len() ==> 'a' <= #[trigger] tail[k] <= 'z' || '0' <= tail[k] <= '9',
        ends_in(path, tail),
    ensures
        extension(path) == tail.skip(1),
{
    let from = path.len() - tail.len();
    assert(path[from + 0] == '.');
    assert forall|k: int| from < k < path.len() implies #[trigger] path[k] != '.' by {
        let j = k - from;
        assert(path[from + j] == tail[j] || ('a' <= tail[j] <= 'z' && path[from + j] as int == tail[j] as int - 32));
        assert('a' <= tail[j] <= 'z' || '0' <= tail[j] <= '9');
    }
    the_last_position_is_the_last(path, '.');
    assert(last_index(path, '.') == Some(from));
    let rest = path.skip(from + 1);
    assert forall|k: int| 0 <= k < rest.len() implies #[trigger] lower(rest)[k] == tail.skip(1)[k] by {
        assert(rest[k] == path[from + (k + 1)]);
        assert('a' <= tail[k + 1] <= 'z' || '0' <= tail[k + 1] <= '9');
    }
    assert(lower(rest) =~= tail.skip(1));
}

/// The extensions are different texts.
proof fn extensions_differ()
    ensures
        mime_of("html"@) == "text/html"@ && mime_of("htm"@) == "text/html"@,
        mime_of("js"@) == "text/javascript"@ && mime_of("mjs"@) == "text/javascript"@,
        mime_of("css"@) == "text/css"@,
        mime_of("json"@) == "application/json"@ && mime_of("map"@) == "application/json"@,
        mime_of("svg"@) == "image/svg+xml"@,
        mime_of("png"@) == "image/png"@,
        mime_of("jpg"@) == "image/jpeg"@ && mime_of("jpeg"@) == "image/jpeg"@,
        mime_of("gif"@) == "image/gif"@,
        mime_of("webp"@) == "image/webp"@,
        mime_of("ico"@) == "image/x-icon"@,
        mime_of("woff2"@) == "font/woff2"@ && mime_of("woff"@) == "font/woff"@ && mime_of("ttf"@) == "font/ttf"@,
        mime_of("txt"@) == "text/plain"@,
{
    reveal_strlit("html");
    reveal_strlit("htm");
    reveal_strlit("js");
    reveal_strlit("mjs");
    reveal_strlit("css");
    reveal_strlit("json");
    reveal_strlit("map");
    reveal_strlit("svg");
    reveal_strlit("png");
    reveal_strlit("jpg");
    reveal_strlit("jpeg");
    reveal_strlit("gif");
    reveal_strlit("webp");
    reveal_strlit("ico");
    reveal_strlit("woff2");
    reveal_strlit("woff");
    reveal_strlit("ttf");
    reveal_strlit("txt");
    assert("html"@[0] == 'h' && "htm"@[0] == 'h' && "js"@[0] == 'j' && "mjs"@[0] == 'm' && "css"@[0] == 'c' && "json"@[0] == 'j' && "map"@[0] == 'm');
    assert("svg"@[0] == 's' && "png"@[0] == 'p' && "jpg"@[0] == 'j' && "jpeg"@[0] == 'j' && "gif"@[0] == 'g' && "webp"@[0] == 'w' && "ico"@[0] == 'i');
    assert("woff2"@[0] == 'w' && "woff"@[0] == 'w' && "ttf"@[0] == 't' && "txt"@[0] == 't');
    assert("mjs"@[1] == 'j' && "map"@[1] == 'a' && "json"@[1] == 's' && "jpeg"@[1] == 'p' && "webp"@[1] == 'e' && "woff"@[1] == 'o');
    assert("ttf"@[1] == 't' && "txt"@[1] == 'x' && "jpg"@[1] == 'p');
    assert("js"@.len() == 2 && "json"@.len() == 4 && "jpg"@.len() == 3 && "jpeg"@.len() == 4);
    assert("html"@.len() == 4 && "htm"@.len() == 3 && "woff"@.len() == 4 && "woff2"@.len() == 5);
}

/// A file is announced by the ending of its name, whatever its case: pages, scripts, styles, data, pictures
/// and fonts each by their own type.
pub proof fn files_are_announced_by_their_ending(path: Seq<char>)
    ensures
        ends_in(path, ".html"@) || ends_in(path, ".htm"@) ==> mime_of(extension(path)) == "text/html"@,
        ends_in(path, ".js"@) || ends_in(path, ".mjs"@) ==> mime_of(extension(path)) == "text/javascript"@,
        ends_in(path, ".css"@) ==> mime_of(extension(path)) == "text/css"@,
        ends_in(path, ".json"@) || ends_in(path, ".map"@) ==> mime_of(extension(path)) == "application/json"@,
        ends_in(path, ".svg"@) ==> mime_of(extension(path)) == "image/svg+xml"@,
        ends_in(path, ".png"@) ==> mime_of(extension(path)) == "image/png"@,
        ends_in(path, ".jpg"@) || ends_in(path, ".jpeg"@) ==> mime_of(extension(path)) == "image/jpeg"@,
        ends_in(path, ".gif"@) ==> mime_of(extension(path)) == "image/gif"@,
        ends_in(path, ".webp"@) ==> mime_of(extension(path)) == "image/webp"@,
        ends_in(path, ".ico"@) ==> mime_of(extension(path)) == "image/x-icon"@,
        ends_in(path, ".woff2"@) ==> mime_of(extension(path)) == "font/woff2"@,
        ends_in(path, ".woff"@) ==> mime_of(extension(path)) == "font/woff"@,
        ends_in(path, ".ttf"@) ==> mime_of(extension(path)) == "font/ttf"@,
        ends_in(path, ".txt"@) ==> mime_of(extension(path)) == "text/plain"@,
        !path.contains('.') ==> mime_of(extension(path)) == "application/octet-stream"@,
{
    extensions_differ();
    assert(ends_in(path, ".html"@) ==> extension(path) == "html"@) by {
        reveal_strlit(".html");
        reveal_strlit("html");
        assert(".html"@.skip(1) =~= "html"@);
        if ends_in(path, ".html"@) {
            ending_is_the_extension(path, ".html"@);
        }
    }
    assert(ends_in(path, ".htm"@) ==> extension(path) == "htm"@) by {
        reveal_strlit(".htm");
        reveal_strlit("htm");
        assert(".htm"@.skip(1) =~= "htm"@);
        if ends_in(path, ".htm"@) {
            ending_is_the_extension(path, ".htm"@);
        }
    }
    assert(ends_in(path, ".js"@) ==> extension(path) == "js"@) by {
        reveal_strlit(".js");
        reveal_strlit("js");
        assert(".js"@.skip(1) =~= "js"@);
        if ends_in(path, ".js"@) {
            ending_is_the_extension(path, ".js"@);
        }
    }
    assert(ends_in(path, ".mjs"@) ==> extension(path) == "mjs"@) by {
        reveal_strlit(".mjs");
        reveal_strlit("mjs");
        assert(".mjs"@.skip(1) =~= "mjs"@);
        if ends_in(path, ".mjs"@) {
            ending_is_the_extension(path, ".mjs"@);
        }
    }
    assert(ends_in(path, ".css"@) ==> extension(path) == "css"@) by {
        reveal_strlit(".css");
        reveal_strlit("css");
        assert(".css"@.skip(1) =~= "css"@);
        if ends_in(path, ".css"@) {
            ending_is_the_extension(path, ".css"@);
        }
    }
    assert(ends_in(path, ".json"@) ==> extension(path) == "json"@) by {
        reveal_strlit(".json");
        reveal_strlit("json");
        assert(".json"@.skip(1) =~= "json"@);
        if ends_in(path, ".json"@) {
            ending_is_the_extension(path, ".json"@);
        }
    }
    assert(ends_in(path, ".map"@) ==> extension(path) == "map"@) by {
        reveal_strlit(".map");
        reveal_strlit("map");
        assert(".map"@.skip(1) =~= "map"@);
        if ends_in(path, ".map"@) {
            ending_is_the_extension(path, ".map"@);
        }
    }
    assert(ends_in(path, ".svg"@) ==> extension(path) == "svg"@) by {
        reveal_strlit(".svg");
        reveal_strlit("svg");
        assert(".svg"@.skip(1) =~= "svg"@);
        if ends_in(path, ".svg"@) {
            ending_is_the_extension(path, ".svg"@);
        }
    }
    assert(ends_in(path, ".png"@) ==> extension(path) == "png"@) by {
        reveal_strlit(".png");
        reveal_strlit("png");
        assert(".png"@.skip(1) =~= "png"@);
        if ends_in(path, ".png"@) {
            ending_is_the_extension(path, ".png"@);
        }
    }
    assert(ends_in(path, ".jpg"@) ==> extension(path) == "jpg"@) by {
        reveal_strlit(".jpg");
        reveal_strlit("jpg");
        assert(".jpg"@.skip(1) =~= "jpg"@);
        if ends_in(path, ".jpg"@) {
            ending_is_the_extension(path, ".jpg"@);
        }
    }
    assert(ends_in(path, ".jpeg"@) ==> extension(path) == "jpeg"@) by {
        reveal_strlit(".jpeg");
        reveal_strlit("jpeg");
        assert(".jpeg"@.skip(1) =~= "jpeg"@);
        if ends_in(path, ".jpeg"@) {
            ending_is_the_extension(path, ".jpeg"@);
        }
    }
    assert(ends_in(path, ".gif"@) ==> extension(path) == "gif"@) by {
        reveal_strlit(".gif");
        reveal_strlit("gif");
        assert(".gif"@.skip(1) =~= "gif"@);
        if ends_in(path, ".gif"@) {
            ending_is_the_extension(path, ".gif"@);
        }
    }
    assert(ends_in(path, ".webp"@) ==> extension(path) == "webp"@) by {
        reveal_strlit(".webp");
        reveal_strlit("webp");
        assert(".webp"@.skip(1) =~= "webp"@);
        if ends_in(path, ".webp"@) {
            ending_is_the_extension(path, ".webp"@);
        }
    }
    assert(ends_in(path, ".ico"@) ==> extension(path) == "ico"@) by {
        reveal_strlit(".ico");
        reveal_strlit("ico");
        assert(".ico"@.skip(1) =~= "ico"@);
        if ends_in(path, ".ico"@) {
            ending_is_the_extension(path, ".ico"@);
        }
    }
    assert(ends_in(path, ".woff2"@) ==> extension(path) == "woff2"@) by {
        reveal_strlit(".woff2");
        reveal_strlit("woff2");
        assert(".woff2"@.skip(1) =~= "woff2"@);
        if ends_in(path, ".woff2"@) {
            ending_is_the_extension(path, ".woff2"@);
        }
    }
    assert(ends_in(path, ".woff"@) ==> extension(path) == "woff"@) by {
        reveal_strlit(".woff");
        reveal_strlit("woff");
        assert(".woff"@.skip(1) =~= "woff"@);
        if ends_in(path, ".woff"@) {
            ending_is_the_extension(path, ".woff"@);
        }
    }
    assert(ends_in(path, ".ttf"@) ==> extension(path) == "ttf"@) by {
        reveal_strlit(".ttf");
        reveal_strlit("ttf");
        assert(".ttf"@.skip(1) =~= "ttf"@);
        if ends_in(path, ".ttf"@) {
            ending_is_the_extension(path, ".ttf"@);
        }
    }
    assert(ends_in(path, ".txt"@) ==> extension(path) == "txt"@) by {
        reveal_strlit(".txt");
        reveal_strlit("txt");
        assert(".txt"@.skip(1) =~= "txt"@);
        if ends_in(path, ".txt"@) {
            ending_is_the_extension(path, ".txt"@);
        }
    }
    if !path.contains('.') {
        the_last_position_is_the_last(path, '.');
        assert(extension(path).len() == 0);
        reveal_strlit("html");
        reveal_strlit("htm");
        reveal_strlit("js");
        reveal_strlit("mjs");
        reveal_strlit("css");
        reveal_strlit("json");
        reveal_strlit("map");
        reveal_strlit("svg");
        reveal_strlit("png");
        reveal_strlit("jpg");
        reveal_strlit("jpeg");
        reveal_strlit("gif");
        reveal_strlit("webp");
        reveal_strlit("ico");
        reveal_strlit("woff2");
        reveal_strlit("woff");
        reveal_strlit("ttf");
        reveal_strlit("txt");
    }
}

proof fn host_ends(url: Seq<char>, i: int, n: int)
    requires
        0 <= i <= n <= url.len(),
        forall|k: int| i <= k < n ==> #[trigger] url[k] != '/' && url[k] != '?' && url[k] != '#',
        n == url.len() || url[n] == '/' || url[n] == '?' || url[n] == '#',
    ensures
        host_end(url, i) == n,
    decreases n - i,
{
    if i < n {
        host_ends(url, i + 1, n);
    }
}

proof fn path_ends(url: Seq<char>, i: int, n: int)
    requires
        0 <= i <= n <= url.len(),
        forall|k: int| i <= k < n ==> #[trigger] url[k] != '?' && url[k] != '#',
        n == url.len() || url[n] == '?' || url[n] == '#',
    ensures
        path_end(url, i) == n,
    decreases n - i,
{
    if i < n {
        path_ends(url, i + 1, n);
    }
}

/// One of the pages that the shell is made of.
pub open spec fn is_page(host: Seq<char>) -> bool {
    seq![
        "sidebar"@,
        "topbar"@,
        "command"@,
        "empty"@,
        "peek"@,
        "find"@,
        "permission"@,
        "switcher"@,
        "toast"@,
        "settings"@,
        "archive"@,
        "history"@,
        "boosts"@,
        "agent"@,
        "extension"@,
    ].contains(host)
}

proof fn pages_have_plain_names(host: Seq<char>)
    requires
        is_page(host),
    ensures
        served(host),
        forall|k: int| 0 <= k < host.len() ==> 'a' <= #[trigger] host[k] <= 'z',
{
    reveal_strlit("sidebar");
    reveal_strlit("topbar");
    reveal_strlit("command");
    reveal_strlit("empty");
    reveal_strlit("peek");
    reveal_strlit("find");
    reveal_strlit("permission");
    reveal_strlit("switcher");
    reveal_strlit("toast");
    reveal_strlit("settings");
    reveal_strlit("archive");
    reveal_strlit("history");
    reveal_strlit("boosts");
    reveal_strlit("agent");
    reveal_strlit("extension");
}

/// What the parts of `sta://<host>/<path><tail>` are.
proof fn url_parts(host_name: Seq<char>, path: Seq<char>, tail: Seq<char>)
    requires
        forall|k: int| 0 <= k < host_name.len() ==> #[trigger] host_name[k] != '/' && host_name[k] != '?' && host_name[k] != '#',
        forall|k: int| 0 <= k < path.len() ==> #[trigger] path[k] != '?' && path[k] != '#',
        path.len() > 0 ==> path[0] != '/',
        tail.len() == 0 || tail[0] == '?' || tail[0] == '#',
    ensures
        host("sta://"@ + host_name + "/"@ + path + tail) == Some(host_name),
        written_path("sta://"@ + host_name + "/"@ + path + tail) == path,
{
    let url = "sta://"@ + host_name + "/"@ + path + tail;
    reveal_strlit("sta://");
    reveal_strlit("/");
    assert(url.take(6) =~= "sta://"@);
    assert(lower(url.take(6)) =~= "sta://"@);
    let n = 6 + host_name.len() as int;
    assert(url[n] == '/');
    assert forall|k: int| 6 <= k < n implies #[trigger] url[k] != '/' && url[k] != '?' && url[k] != '#' by {
        assert(url[k] == host_name[k - 6]);
    }
    host_ends(url, 6, n);
    assert(url.subrange(6, n) =~= host_name);
    let end = n + 1 + path.len() as int;
    assert forall|k: int| n <= k < end implies #[trigger] url[k] != '?' && url[k] != '#' by {
        if k > n {
            assert(url[k] == path[k - n - 1]);
        }
    }
    if tail.len() > 0 {
        assert(url[end] == tail[0]);
    }
    path_ends(url, n, end);
    if path.len() > 0 {
        assert(url[n + 1] == path[0]);
    }
    reveal_with_fuel(path_start, 3);
    assert(path_start(url, n, end) == n + 1);
    assert(url.subrange(n + 1, end) =~= path);
}

/// The pages of the shell are found under their hosts, whatever query or fragment follows: a path names a
/// file of the host's, one below `common/` a file that all share, and an empty path or one without a dot in
/// its last part the host's page. The icons of extensions are for two of the hosts alone.
pub proof fn pages_are_found_under_their_hosts(h: Seq<char>, path: Seq<char>, tail: Seq<char>)
    requires
        is_page(h),
        tail.len() == 0 || tail[0] == '?' || tail[0] == '#',
        forall|k: int| 0 <= k < path.len() ==> !(seq!['%', '?', '#', '\\', ':'].contains(#[trigger] path[k])),
        path.len() > 0 ==> path[0] != '/',
        forall|n: int| 0 <= n < split(path, '/').len() ==> #[trigger] split(path, '/')[n] != "."@ && split(path, '/')[n] != ".."@,
    ensures
        ({
            let found = asset_of("sta://"@ + h + "/"@ + path + tail);
            let file = exists|d: int| 0 <= d < path.len() && #[trigger] path[d] == '.' && forall|k: int| d < k < path.len() ==> #[trigger] path[k] != '/';
            let shared = path.len() >= 7 && path.take(7) == "common/"@;
            let icon = path.len() >= 11 && path.take(11) == "__ext-icon/"@;
            &&& shared && path.len() > 7 ==> found == Result::<Seq<char>, u16>::Ok(path)
            &&& shared && path.len() == 7 ==> found == Result::<Seq<char>, u16>::Err(404)
            &&& icon && (h == "command"@ || h == "settings"@) ==> found == Result::<Seq<char>, u16>::Ok(h + "/"@ + path)
            &&& icon && !(h == "command"@ || h == "settings"@) ==> found == Result::<Seq<char>, u16>::Err(404)
            &&& !shared && !icon && file ==> found == Result::<Seq<char>, u16>::Ok(h + "/"@ + path)
            &&& !shared && !icon && !file ==> found == Result::<Seq<char>, u16>::Ok(h + "/index.html"@)
        }),
{
    let special = seq!['%', '?', '#', '\\', ':'];
    assert(special[0] == '%' && special[1] == '?' && special[2] == '#' && special[3] == '\\' && special[4] == ':');
    pages_have_plain_names(h);
    assert forall|k: int| 0 <= k < path.len() implies #[trigger] path[k] != '%' && path[k] != '?' && path[k] != '#' && path[k] != '\\' && path[k]
        != ':' by {
        assert(!special.contains(path[k]));
    }
    url_parts(h, path, tail);
    assert(!path.contains('%') && !path.contains('\\') && !path.contains(':'));
    assert(!leads_out(path));
    reveal_strlit("common/");
    reveal_strlit("__ext-icon/");
    let shared = path.len() >= 7 && path.take(7) == "common/"@;
    let icon = path.len() >= 11 && path.take(11) == "__ext-icon/"@;
    assert(shared == "common/"@.is_prefix_of(path)) by {
        if "common/"@.is_prefix_of(path) {
            assert(path.take(7) =~= "common/"@);
        }
        if shared {
            assert(path.take(7)[0] == path[0]);
            assert("common/"@ =~= path.subrange(0, 7));
        }
    }
    assert(icon == "__ext-icon/"@.is_prefix_of(path)) by {
        if "__ext-icon/"@.is_prefix_of(path) {
            assert(path.take(11) =~= "__ext-icon/"@);
        }
        if icon {
            assert("__ext-icon/"@ =~= path.subrange(0, 11));
        }
    }
    if icon {
        assert(path[0] == path.take(11)[0]);
    }
    if shared {
        assert(path[0] == path.take(7)[0]);
    }
    the_last_position_is_the_last(path, '/');
    let last = last_segment(path);
    let file = exists|d: int| 0 <= d < path.len() && #[trigger] path[d] == '.' && forall|k: int| d < k < path.len() ==> #[trigger] path[k] != '/';
    assert(file == last.contains('.')) by {
        let from: int = match last_index(path, '/') {
            Some(i) => i + 1,
            None => 0,
        };
        assert(last =~= path.skip(from));
        if file {
            let d = choose|d: int| 0 <= d < path.len() && #[trigger] path[d] == '.' && forall|k: int| d < k < path.len() ==> #[trigger] path[k] != '/';
            if d < from {
                assert(path[from - 1] == '/');
                assert(d != from - 1);
            }
            assert(last[d - from] == '.');
        }
        if last.contains('.') {
            let j = choose|j: int| 0 <= j < last.len() && last[j] == '.';
            let d = from + j;
            assert(path[d] == '.');
            assert forall|k: int| d < k < path.len() implies #[trigger] path[k] != '/' by {
                if last_index(path, '/') is None {
                    assert(!path.contains('/'));
                }
            }
        }
    }
}

/// What can't be served is refused with the status that says why: 400 for what is no `sta://` URL, for a
/// path that could lead out of the folder (`.` and `..` between slashes, a backslash, a colon) and for a
/// malformed escape; 404 for a host that is no page.
pub proof fn refusals_say_why(url: Seq<char>, h: Seq<char>, path: Seq<char>, tail: Seq<char>)
    requires
        tail.len() == 0 || tail[0] == '?' || tail[0] == '#',
        forall|k: int| 0 <= k < h.len() ==> #[trigger] h[k] != '/' && h[k] != '?' && h[k] != '#',
        forall|k: int| 0 <= k < path.len() ==> #[trigger] path[k] != '?' && path[k] != '#' && path[k] != '%',
        path.len() > 0 ==> path[0] != '/',
    ensures
        url.len() < 6 || url[3] != ':' || url[4] != '/' || url[5] != '/' || (url[0] != 's' && url[0] != 'S') || (url[1] != 't' && url[1] != 'T') || (
        url[2] != 'a' && url[2] != 'A') ==> asset_of(url) == Result::<Seq<char>, u16>::Err(400),
        !is_page(h) ==> asset_of("sta://"@ + h + "/"@ + path + tail) == Result::<Seq<char>, u16>::Err(404),
        is_page(h) && (path.contains('\\') || path.contains(':') || split(path, '/').contains("."@) || split(path, '/').contains(".."@)) ==> asset_of(
            "sta://"@ + h + "/"@ + path + tail,
        ) == Result::<Seq<char>, u16>::Err(400),
        is_page(h) ==> asset_of("sta://"@ + h + "/%"@) == Result::<Seq<char>, u16>::Err(400),
{
    if is_internal(url) {
        reveal_strlit("sta://");
        let head = url.take(6);
        let l = lower(head);
        assert(l[0] == 's' && l[1] == 't' && l[2] == 'a' && l[3] == ':' && l[4] == '/' && l[5] == '/');
        assert(l[0] == lower_char(head[0]) && l[1] == lower_char(head[1]) && l[2] == lower_char(head[2]));
        assert(l[3] == lower_char(head[3]) && l[4] == lower_char(head[4]) && l[5] == lower_char(head[5]));
    }
    url_parts(h, path, tail);
    assert(served(h) ==> is_page(h)) by {
        let all = seq![
            "sidebar"@,
            "topbar"@,
            "command"@,
            "empty"@,
            "peek"@,
            "find"@,
            "permission"@,
            "switcher"@,
            "toast"@,
            "settings"@,
            "archive"@,
            "history"@,
            "boosts"@,
            "agent"@,
            "extension"@,
        ];
        if served(h) {
            assert(h == all[0] || h == all[1] || h == all[2] || h == all[3] || h == all[4] || h == all[5] || h == all[6] || h == all[7] || h == all[8]
                || h == all[9] || h == all[10] || h == all[11] || h == all[12] || h == all[13] || h == all[14]);
        }
    }
    if is_page(h) {
        pages_have_plain_names(h);
        assert(!path.contains('%'));
        let parts = split(path, '/');
        if parts.contains("."@) {
            let n = choose|n: int| 0 <= n < parts.len() && parts[n] == "."@;
            assert(is_dots(split(path, '/')[n]));
        }
        if parts.contains(".."@) {
            let n = choose|n: int| 0 <= n < parts.len() && parts[n] == ".."@;
            assert(is_dots(split(path, '/')[n]));
        }
        reveal_strlit("/%");
        reveal_strlit("/");
        let lone = seq!['%'];
        url_parts(h, lone, Seq::empty());
        assert("sta://"@ + h + "/%"@ =~= "sta://"@ + h + "/"@ + lone + Seq::<char>::empty());
        assert(lone[0] == '%');
        assert(lone.contains('%'));
        percent_alone();
    }
}

/// A percent sign at the end of a text is malformed.
proof fn percent_alone()
    ensures
        decoded(seq!['%']) is None,
{
    let lone = seq!['%'];
    assert(lone[0] == '%');
    assert(lone.contains('%'));
    vstd::utf8::is_ascii_chars_encode_utf8(lone);
    let b = encode_utf8(lone);
    assert(b.len() == 1 && b[0] == 0x25);
}

/// One byte of a URL component, and what it is written as.
spec fn piece_of(b: u8) -> Seq<char> {
    if is_kept(b) { seq![b as char] } else { seq!['%', upper_hex(b as int / 16), upper_hex(b as int % 16)] }
}

proof fn a_component_begins_with_its_first_byte(bytes: Seq<u8>)
    requires
        bytes.len() > 0,
    ensures
        component(bytes) == piece_of(bytes[0]) + component(bytes.skip(1)),
    decreases bytes.len(),
{
    let front = bytes.drop_last();
    if bytes.len() == 1 {
        assert(front =~= Seq::empty());
        assert(bytes.skip(1) =~= Seq::empty());
        assert(component(front) =~= Seq::empty());
        assert(component(bytes) =~= piece_of(bytes[0]) + component(bytes.skip(1)));
    } else {
        a_component_begins_with_its_first_byte(front);
        assert(front.skip(1) =~= bytes.skip(1).drop_last());
        assert(component(bytes) =~= piece_of(bytes[0]) + component(bytes.skip(1)));
    }
}

proof fn the_pieces_are_read_back(w: Seq<u8>, bytes: Seq<u8>, all: Seq<u8>)
    requires
        all.len() == w.len() + component(bytes).len(),
        forall|k: int| 0 <= k < component(bytes).len() ==> #[trigger] component(bytes)[k] as u8 == all[w.len() + k],
    ensures
        unescaped(all, w.len() as int) == Some(bytes),
    decreases bytes.len(),
{
    let at = w.len() as int;
    let c = component(bytes);
    if bytes.len() == 0 {
        assert(unescaped(all, at) == Some(Seq::<u8>::empty()));
        assert(bytes =~= Seq::empty());
    } else {
        a_component_begins_with_its_first_byte(bytes);
        let b = bytes[0];
        let rest = bytes.skip(1);
        let p = piece_of(b);
        let next = w + all.subrange(at, at + p.len());
        assert forall|k: int| 0 <= k < component(rest).len() implies #[trigger] component(rest)[k] as u8 == all[next.len() + k] by {
            assert(c[p.len() + k] == component(rest)[k]);
            assert(all[w.len() + (p.len() + k)] == c[p.len() + k] as u8);
        }
        the_pieces_are_read_back(next, rest, all);
        assert(c[0] == p[0]);
        assert(all[at] == c[0] as u8);
        if is_kept(b) {
            assert(all[at] == b);
            assert(seq![b] + rest =~= bytes);
        } else {
            assert(c[1] == p[1] && c[2] == p[2]);
            assert(all[at + 1] == c[1] as u8 && all[at + 2] == c[2] as u8);
            assert(all[at] == 0x25);
            hex_digits_are_read_back(b);
            assert(escaped(all[at + 1], all[at + 2]) == Some(b));
            assert(seq![b] + rest =~= bytes);
        }
    }
}

proof fn hex_digits_are_read_back(b: u8)
    ensures
        escaped(upper_hex(b as int / 16) as u8, upper_hex(b as int % 16) as u8) == Some(b),
{
    let (x, y) = (b as int / 16, b as int % 16);
    assert(0 <= x < 16 && 0 <= y < 16 && x * 16 + y == b);
    assert(nibble(upper_hex(x) as u8) == Some(x as u8));
    assert(nibble(upper_hex(y) as u8) == Some(y as u8));
}

proof fn nothing_to_replace(bytes: Seq<u8>, i: int)
    requires
        0 <= i <= bytes.len(),
        forall|k: int| i <= k < bytes.len() ==> #[trigger] bytes[k] != 0x25,
    ensures
        unescaped(bytes, i) == Some(bytes.skip(i)),
    decreases bytes.len() - i,
{
    if i < bytes.len() {
        nothing_to_replace(bytes, i + 1);
        assert(seq![bytes[i]] + bytes.skip(i + 1) =~= bytes.skip(i));
    } else {
        assert(bytes.skip(i) =~= Seq::empty());
    }
}

/// Reading the percent escapes of a text undoes writing it as a URL component.
pub proof fn decoding_undoes_encoding(s: Seq<char>)
    ensures
        decoded(uri_component(s)) == Some(s),
{
    let bytes = encode_utf8(s);
    let t = uri_component(s);
    a_component_is_inert(bytes);
    assert(vstd::utf8::is_ascii_chars(t));
    vstd::utf8::is_ascii_chars_encode_utf8(t);
    let all = encode_utf8(t);
    let none = Seq::<u8>::empty();
    assert forall|k: int| 0 <= k < component(bytes).len() implies #[trigger] component(bytes)[k] as u8 == all[none.len() + k] by {
        assert(t[k] as u8 == all[k]);
    }
    the_pieces_are_read_back(none, bytes, all);
    vstd::utf8::encode_utf8_valid_utf8(s);
    vstd::utf8::encode_utf8_decode_utf8(s);
    if !t.contains('%') {
        assert forall|k: int| 0 <= k < all.len() implies #[trigger] all[k] != 0x25 by {
            assert(t[k] as u8 == all[k]);
            assert(t[k] != '%');
        }
        nothing_to_replace(all, 0);
        assert(all.skip(0) =~= all);
        vstd::utf8::encode_utf8_decode_utf8(t);
    }
}

/// A percent sign that no two digits follow is refused.
pub proof fn a_broken_escape_is_refused(s: Seq<char>)
    requires
        s.len() > 0,
        s.last() == '%',
        vstd::utf8::is_ascii_chars(s),
    ensures
        decoded(s) is None,
{
    vstd::utf8::is_ascii_chars_encode_utf8(s);
    let b = encode_utf8(s);
    assert(s[s.len() - 1] == '%');
    assert(b[b.len() - 1] == s[s.len() - 1] as u8);
    a_last_percent_sign_is_refused(b, 0);
}

proof fn a_last_percent_sign_is_refused(b: Seq<u8>, i: int)
    requires
        0 <= i < b.len(),
        b.last() == 0x25,
    ensures
        unescaped(b, i) is None,
    decreases b.len() - i,
{
    if b[i] != 0x25 {
        a_last_percent_sign_is_refused(b, i + 1);
    } else if i + 3 < b.len() {
        a_last_percent_sign_is_refused(b, i + 3);
    } else if i + 3 == b.len() {
        assert(nibble(b[i + 2]) is None);
    }
}

/// A digit of an escape is worth what it is in hexadecimal, whatever its case.
pub proof fn an_escape_is_read_in_hexadecimal(n: int)
    requires
        0 <= n < 16,
    ensures
        n < 10 ==> nibble((0x30 + n) as u8) == Some(n as u8),
        n >= 10 ==> nibble((0x61 + n - 10) as u8) == Some(n as u8) && nibble((0x41 + n - 10) as u8) == Some(n as u8),
        forall|b: u8| !(0x30 <= b <= 0x39 || 0x41 <= b <= 0x46 || 0x61 <= b <= 0x66) ==> #[trigger] nibble(b) is None,
{
}

/// A URL of this scheme is one that begins with `sta://`, in letters of any case.
pub proof fn internal_urls_are_known_by_their_scheme(url: Seq<char>)
    ensures
        is_internal(url) <==> {
            &&& url.len() >= 6
            &&& url[0] == 's' || url[0] == 'S'
            &&& url[1] == 't' || url[1] == 'T'
            &&& url[2] == 'a' || url[2] == 'A'
            &&& url[3] == ':' && url[4] == '/' && url[5] == '/'
        },
{
    reveal_strlit("sta://");
    if url.len() >= 6 {
        let l = lower(url.take(6));
        let want = "sta://"@;
        assert(l[0] == lower_char(url[0]) && l[1] == lower_char(url[1]) && l[2] == lower_char(url[2]) && l[3] == lower_char(url[3]) && l[4]
            == lower_char(url[4]) && l[5] == lower_char(url[5]));
        assert(l.len() == 6 && want.len() == 6);
        assert((l =~= want) <==> (l[0] == want[0] && l[1] == want[1] && l[2] == want[2] && l[3] == want[3] && l[4] == want[4] && l[5] == want[5]));
    }
}

/// The overlays have a page of their own where theirs is missing, and its script; no other page has, and no
/// other file.
pub proof fn overlays_have_a_page_to_fall_back_on(h: Seq<char>, file: Seq<char>)
    requires
        !h.contains('/'),
    ensures
        ({
            let overlay = seq!["find"@, "permission"@, "switcher"@, "toast"@, "peek"@, "extension"@].contains(h);
            &&& overlay ==> placeholder_of(h + "/index.html"@) == Some(Placeholder::Html)
            &&& overlay ==> placeholder_of(h + "/__shell_placeholder.js"@) == Some(Placeholder::Script)
            &&& !overlay ==> placeholder_of(h.push('/') + file) is None
            &&& file != "index.html"@ && file != "__shell_placeholder.js"@ ==> placeholder_of(h.push('/') + file) is None
        }),
        placeholder_of(h) is None,
        Placeholder::Html.type_of() == "text/html"@,
        Placeholder::Script.type_of() == "text/javascript"@,
{
    let list = seq!["find"@, "permission"@, "switcher"@, "toast"@, "peek"@, "extension"@];
    assert(list[0] == "find"@ && list[1] == "permission"@ && list[2] == "switcher"@ && list[3] == "toast"@ && list[4] == "peek"@ && list[5]
        == "extension"@);
    assert(has_placeholder(h) <==> list.contains(h));
    host_is_before_the_slash(h, file);
    reveal_strlit("index.html");
    reveal_strlit("/index.html");
    reveal_strlit("__shell_placeholder.js");
    reveal_strlit("/__shell_placeholder.js");
    host_is_before_the_slash(h, "index.html"@);
    host_is_before_the_slash(h, "__shell_placeholder.js"@);
    assert(h + "/index.html"@ =~= h.push('/') + "index.html"@);
    assert(h + "/__shell_placeholder.js"@ =~= h.push('/') + "__shell_placeholder.js"@);
    assert("index.html"@.len() != "__shell_placeholder.js"@.len());
    assert forall|k: int| 0 <= k < h.len() implies h[k] != '/' by {
        assert(h.contains(h[k]));
    }
    no_slash_is_found(h, 0);
}

proof fn no_slash_is_found(s: Seq<char>, i: int)
    requires
        0 <= i,
        forall|k: int| 0 <= k < s.len() ==> #[trigger] s[k] != '/',
    ensures
        first_index(s, '/', i) is None,
    decreases s.len() - i,
{
    if i < s.len() {
        no_slash_is_found(s, i + 1);
    }
}

proof fn slash_is_found(h: Seq<char>, rest: Seq<char>, i: int)
    requires
        0 <= i <= h.len(),
        !h.contains('/'),
    ensures
        first_index(h.push('/') + rest, '/', i) == Some(h.len() as int),
    decreases h.len() - i,
{
    let s = h.push('/') + rest;
    if i < h.len() {
        assert(h.contains(h[i]));
        assert(s[i] == h[i]);
        slash_is_found(h, rest, i + 1);
    } else {
        assert(s[i] == '/');
    }
}

proof fn host_is_before_the_slash(h: Seq<char>, rest: Seq<char>)
    requires
        !h.contains('/'),
    ensures
        first_index(h.push('/') + rest, '/', 0) == Some(h.len() as int),
        (h.push('/') + rest).take(h.len() as int) == h,
        (h.push('/') + rest).skip((h.len() + 1) as int) == rest,
{
    slash_is_found(h, rest, 0);
    let s = h.push('/') + rest;
    assert(s.take(h.len() as int) =~= h);
    assert(s.skip((h.len() + 1) as int) =~= rest);
}

/// The icons of extensions are served to the command bar and the settings, and to no other page.
pub proof fn icons_are_served_to_two_pages(h: Seq<char>, rest: Seq<char>)
    requires
        !h.contains('/'),
    ensures
        h == "command"@ || h == "settings"@ ==> icon_path(h + "/__ext-icon/"@ + rest) == Some("__ext-icon/"@ + rest),
        h != "command"@ && h != "settings"@ ==> icon_path(h.push('/') + rest) is None,
        !"__ext-icon/"@.is_prefix_of(rest) ==> icon_path(h.push('/') + rest) is None,
{
    reveal_strlit("/__ext-icon/");
    reveal_strlit("__ext-icon/");
    host_is_before_the_slash(h, rest);
    let icon = "__ext-icon/"@ + rest;
    host_is_before_the_slash(h, icon);
    assert(h + "/__ext-icon/"@ + rest =~= h.push('/') + icon);
    assert(icon.take("__ext-icon/"@.len() as int) =~= "__ext-icon/"@);
    assert("__ext-icon/"@.is_prefix_of(icon));
}

/// What an answer says of its status.
pub proof fn an_error_says_what_it_is()
    ensures
        error_text(400) == encode_utf8("bad request"@),
        error_text(404) == encode_utf8("not found"@),
        error_text(405) == encode_utf8("method not allowed"@),
{
}

/// Text, JSON and SVG images are announced as UTF-8, and pictures, fonts and other data are not.
pub proof fn text_is_announced_with_its_encoding(rest: Seq<char>)
    ensures
        is_text_type("text/"@ + rest),
        is_text_type("application/json"@),
        is_text_type("image/svg+xml"@),
        !is_text_type("image/png"@),
        !is_text_type("image/jpeg"@),
        !is_text_type("font/woff2"@),
        !is_text_type("application/octet-stream"@),
{
    reveal_strlit("text/");
    reveal_strlit("json");
    reveal_strlit("application/json");
    reveal_strlit("image/svg+xml");
    reveal_strlit("image/png");
    reveal_strlit("image/jpeg");
    reveal_strlit("font/woff2");
    reveal_strlit("application/octet-stream");
    let text = "text/"@ + rest;
    assert(text.take(5) =~= "text/"@);
    let json = "application/json"@;
    assert(json.skip(json.len() - 4) =~= "json"@);
    assert("json"@.is_suffix_of(json));
    not_text("image/png"@);
    not_text("image/jpeg"@);
    not_text("font/woff2"@);
    not_text("application/octet-stream"@);
}

proof fn not_text(mime: Seq<char>)
    requires
        mime.len() > 5,
        mime[0] != 't',
        mime[mime.len() - 1] != 'n',
        mime.len() != "image/svg+xml"@.len(),
    ensures
        !is_text_type(mime),
{
    reveal_strlit("text/");
    reveal_strlit("json");
    if "text/"@.is_prefix_of(mime) {
        assert(mime.subrange(0, 5)[0] == "text/"@[0]);
    }
    if "json"@.is_suffix_of(mime) {
        assert(mime.subrange(mime.len() - 4, mime.len() as int)[3] == "json"@[3]);
    }
}

/// A request gets what it asks for, as far as there is that much.
pub proof fn a_request_gets_what_there_is(left: int, wanted: int)
    requires
        left >= 0,
    ensures
        0 <= granted(left, wanted) <= left,
        wanted <= 0 ==> granted(left, wanted) == 0,
        wanted > 0 ==> granted(left, wanted) <= wanted && (granted(left, wanted) == left || granted(left, wanted) == wanted),
        0 <= wanted <= left ==> granted(left, wanted) == wanted,
        wanted > left ==> granted(left, wanted) == left,
{
}

/// Nothing but GET and HEAD is answered: every other method is refused with 405, whatever the URL. The two
/// that are answered are answered alike.
pub proof fn only_reading_is_answered(method: Seq<char>, url: Seq<char>, r: Lookup)
    ensures
        asks_for(method, url, r) && method != "GET"@ && method != "HEAD"@ ==> {
            &&& r is Refused
            &&& r->Refused_0.status == 405
            &&& r->Refused_0.body@ == encode_utf8("method not allowed"@)
            &&& r->Refused_0.mime@ == "text/plain"@
        },
        asks_for("GET"@, url, r) <==> asks_for("HEAD"@, url, r),
        asks_for("GET"@, url, r) && r is Refused ==> asset_of(url) is Err && r->Refused_0.status == asset_of(url)->Err_0 && r->Refused_0.pos == 0,
        asks_for("GET"@, url, r) && asset_of(url) is Err ==> r is Refused,
        asks_for("GET"@, url, r) && r is Asset ==> asset_of(url) == Result::<Seq<char>, u16>::Ok(r->Asset_0@),
{
}

/// The names and numbers of the scheme, and the policy that every page is served under: nothing is loaded
/// but from the page's own host, pictures and fonts aside.
pub proof fn the_terms_of_the_scheme()
    ensures
        SCHEME@ == "sta"@,
        ORIGIN_PREFIX@ == "sta://"@,
        SCHEME_STANDARD == 1,
        SCHEME_DISPLAY_ISOLATED == 4,
        SCHEME_SECURE == 8,
        SCHEME_CORS_ENABLED == 16,
        SCHEME_FETCH_ENABLED == 64,
        CSP@
            == "default-src 'none'; script-src 'self'; style-src 'self' 'unsafe-inline'; img-src 'self' data: https:; font-src 'self' data:; connect-src 'self'; base-uri 'none'; form-action 'none'; frame-ancestors 'none'"@,
        ICON_PATH_PREFIX@ == "__ext-icon/"@,
{
}

} // verus!
