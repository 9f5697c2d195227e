//! The renderer-process side: which documents get the bridge of the shell, boosts, the developer tools'
//! shim, media reports and link previews.
//!
//! The bridge is put only into the main frame of a browser that was created as one of the shell's own,
//! while it shows an internal page. A browser number can be used again before the old browser is gone,
//! so the numbers are counted.
use crate::json::{json_quoted, json_string};
use crate::scheme::{is_internal, is_sta_url};
use crate::text::{
    ascii_lower, begins_in, copy_text, has_prefix, hex, hex_text, join3, joined_by, lower, lower_case_shows_the_beginning, one_more_is_joined_behind,
    same_text, trim_text, trimmed,
};
use std::collections::hash_map::DefaultHasher;
use std::collections::HashMap;
use std::hash::Hasher;
use vstd::prelude::*;
use vstd::std_specs::hash::DefaultHasherAdditionalSpecFns;
use vstd::utf8::encode_utf8;

verus! {

broadcast use vstd::std_specs::hash::group_hash_axioms;

/// Renderer to browser: whether the sending frame is audible.
pub const MSG_MEDIA: &'static str = "sta.media";

/// Browser to renderer: a boost list, its version, and whether it applies to the document at hand.
pub const MSG_BOOSTS: &'static str = "sta.boosts";

/// Renderer to browser: the version that was applied to a new document.
pub const MSG_BOOSTS_CHECK: &'static str = "sta.boosts.check";

/// Renderer to browser: the URL of a link that the user wants to preview.
pub const MSG_PREVIEW: &'static str = "sta.preview";

/// Renderer to browser: a call of a developer tools frontend.
pub const MSG_DEVTOOLS_EMBEDDER: &'static str = "sta.devtools.embedder";

/// Browser to renderer: a message for a developer tools frontend.
pub const MSG_DEVTOOLS_IN: &'static str = "sta.devtools.in";

pub const EXTRA_UI: &'static str = "sta_ui";

pub const EXTRA_TAB: &'static str = "sta_tab";

pub const EXTRA_BOOSTS: &'static str = "boosts";

pub const EXTRA_BOOSTS_VERSION: &'static str = "boosts_version";

/// Set on developer tools opened from a tab so that they never count as a web tab.
pub const EXTRA_DEVTOOLS: &'static str = "sta_devtools";

/// Set only on a docked developer tools frontend.
pub const EXTRA_DEVTOOLS_SHIM: &'static str = "sta_devtools_shim";

pub const EXTRA_DEVTOOLS_TAB: &'static str = "sta_devtools_tab";

pub const EXTRA_DEVTOOLS_ORIGINS: &'static str = "sta_devtools_origins";

/// A longer URL is not previewed.
pub const MAX_PREVIEW_URL: usize = 65536;

/// One enabled boost as it is sent to renderers.
pub struct BoostData {
    pub host: String,
    pub css: String,
    pub js: String,
}

// ------------------------------------------------------------------------------ versions

/// The hash of some texts, one after the other.
pub open spec fn texts_hash(texts: Seq<Seq<char>>) -> u64 {
    DefaultHasher::spec_finish(hashed(texts))
}

/// What a hasher is fed for some texts: the bytes of each, and a byte that no text holds.
pub open spec fn hashed(texts: Seq<Seq<char>>) -> Seq<Seq<u8>>
    decreases texts.len(),
{
    if texts.len() == 0 {
        Seq::empty()
    } else {
        hashed(texts.drop_last()).push(encode_utf8(texts.last())).push(seq![0xFFu8])
    }
}

fn feed(h: &mut DefaultHasher, text: &str)
    ensures
        final(h)@ == old(h)@.push(encode_utf8(text@)).push(seq![0xFFu8]),
{
    h.write(text.as_bytes());
    let end: [u8; 1] = [0xFF];
    h.write(&end);
    proof {
        assert(end@ =~= seq![0xFFu8]);
    }
}

/// The version of a boost list, given its JSON text.
pub fn boosts_version(json: &str) -> (r: String)
    ensures
        r@ == hex(texts_hash(seq![json@]) as nat, 16),
{
    let mut h = DefaultHasher::new();
    feed(&mut h, json);
    proof {
        let texts = seq![json@];
        reveal_with_fuel(hashed, 2);
        assert(texts.drop_last() =~= Seq::<Seq<char>>::empty());
        assert(h@ =~= hashed(texts));
    }
    hex_text(h.finish(), 16)
}

/// The hash by which a script is known.
pub open spec fn js_key(b: BoostData) -> u64 {
    texts_hash(seq![b.host@, b.js@])
}

fn js_hash(b: &BoostData) -> (r: u64)
    ensures
        r == js_key(*b),
{
    let mut h = DefaultHasher::new();
    feed(&mut h, b.host.as_str());
    feed(&mut h, b.js.as_str());
    proof {
        let texts = seq![b.host@, b.js@];
        reveal_with_fuel(hashed, 3);
        assert(texts.drop_last() =~= seq![b.host@]);
        assert(texts.drop_last().drop_last() =~= Seq::<Seq<char>>::empty());
        assert(h@ =~= hashed(texts));
    }
    h.finish()
}

// ------------------------------------------------------------------------------ state

/// A web tab in this renderer.
pub struct WebTab {
    pub refs: u32,
    pub boosts: Vec<BoostData>,
    pub version: String,
    /// The scripts that ran in the current document.
    pub applied_js: Vec<u64>,
}

/// The state of a renderer.
pub struct Renderer {
    /// The shell's own browsers, counted.
    pub ui_ids: HashMap<i32, u32>,
    /// Developer tools frontends, counted, with the origins that their extensions may never touch.
    pub devtools: HashMap<i32, (u32, String)>,
    pub tabs: HashMap<i32, WebTab>,
    /// The browser and the frame of each document that is audible.
    pub audible: Vec<(i32, String)>,
}

/// What a browser was created as.
pub enum Created {
    Ui,
    /// A docked frontend.
    Frontend { origins: String },
    Tab { boosts: Vec<BoostData>, version: String },
    Other,
}

/// What the marks of a browser say that it is.
#[derive(Debug, Clone, Copy, PartialEq, Eq, Structural)]
pub enum Mark {
    Ui,
    Frontend,
    Tab,
    Other,
}

/// What the marks of a browser say that it is: one of the shell's own, a docked developer tools frontend
/// (other developer tools keep their own embedder), a web tab, or nothing of these.
pub open spec fn mark_for(ui: bool, devtools: bool, shim: bool, tab: bool) -> Mark {
    if ui {
        Mark::Ui
    } else if devtools {
        if shim { Mark::Frontend } else { Mark::Other }
    } else if tab {
        Mark::Tab
    } else {
        Mark::Other
    }
}

/// What the marks of a browser say that it is: one of the shell's own, a docked developer tools frontend
/// (other developer tools keep their own embedder), a web tab, or nothing of these.
pub fn mark_of(ui: bool, devtools: bool, shim: bool, tab: bool) -> (r: Mark)
    ensures
        r == mark_for(ui, devtools, shim, tab),
        r == (if ui {
            Mark::Ui
        } else if devtools {
            if shim { Mark::Frontend } else { Mark::Other }
        } else if tab {
            Mark::Tab
        } else {
            Mark::Other
        }),
{
    if ui {
        Mark::Ui
    } else if devtools {
        if shim { Mark::Frontend } else { Mark::Other }
    } else if tab {
        Mark::Tab
    } else {
        Mark::Other
    }
}

/// One more of a counted number.
pub open spec fn incremented(m: Map<i32, u32>, id: i32) -> Map<i32, u32> {
    m.insert(id, if m.contains_key(id) { (m[id] + 1) as u32 } else { 1 })
}

/// One less of a counted number; at none it is gone.
pub open spec fn decremented(m: Map<i32, u32>, id: i32) -> Map<i32, u32> {
    if !m.contains_key(id) {
        m
    } else if m[id] <= 1 {
        m.remove(id)
    } else {
        m.insert(id, (m[id] - 1) as u32)
    }
}

/// Counts one more.
pub fn increment(map: &mut HashMap<i32, u32>, id: i32)
    requires
        old(map)@.contains_key(id) ==> old(map)@[id] < u32::MAX,
    ensures
        final(map)@ == incremented(old(map)@, id),
{
    let n: u32 = match map.get(&id) {
        Some(n) => *n + 1,
        None => 1,
    };
    map.insert(id, n);
}

/// Counts one less.
pub fn decrement(map: &mut HashMap<i32, u32>, id: i32)
    ensures
        final(map)@ == decremented(old(map)@, id),
{
    let n: u32 = match map.get(&id) {
        Some(n) => *n,
        None => {
            return;
        },
    };
    if n <= 1 {
        map.remove(&id);
    } else {
        map.insert(id, n - 1);
    }
    proof {
        assert(map@ =~= decremented(old(map)@, id));
    }
}

/// A counted number is there exactly as long as it was counted up more often than down.
pub proof fn counting_up_and_down_gives_back(m: Map<i32, u32>, id: i32)
    requires
        m.contains_key(id) ==> 0 < m[id] < u32::MAX,
    ensures
        incremented(m, id).contains_key(id),
        decremented(incremented(m, id), id) == m,
{
    assert(decremented(incremented(m, id), id) =~= m);
}

impl Renderer {
    pub fn new() -> (r: Renderer)
        ensures
            r.ui_ids@ == Map::<i32, u32>::empty(),
            r.devtools@ == Map::<i32, (u32, String)>::empty(),
            r.tabs@ == Map::<i32, WebTab>::empty(),
            r.audible@.len() == 0,
            r.valid(),
    {
        Renderer { ui_ids: HashMap::new(), devtools: HashMap::new(), tabs: HashMap::new(), audible: Vec::new() }
    }

    /// One more browser of this number can be counted.
    pub open spec fn has_room(self, id: i32) -> bool {
        &&& self.ui_ids@.contains_key(id) ==> self.ui_ids@[id] < u32::MAX
        &&& self.devtools@.contains_key(id) ==> self.devtools@[id].0 < u32::MAX
        &&& self.tabs@.contains_key(id) ==> self.tabs@[id].refs < u32::MAX
    }
}

/// A browser was created in this renderer. What it was first created with counts.
pub fn on_browser_created(state: &mut Renderer, id: i32, created: Created)
    requires
        old(state).has_room(id),
    ensures
        final(state).audible == old(state).audible,
        final(state).ui_ids@ == (if created is Ui { incremented(old(state).ui_ids@, id) } else { old(state).ui_ids@ }),
        match created {
            Created::Frontend { origins } => final(state).devtools@ == old(state).devtools@.insert(
                id,
                if old(state).devtools@.contains_key(id) {
                    ((old(state).devtools@[id].0 + 1) as u32, old(state).devtools@[id].1)
                } else {
                    (1u32, origins)
                },
            ),
            _ => final(state).devtools@ == old(state).devtools@,
        },
        match created {
            Created::Tab { boosts, version } => {
                let tab = final(state).tabs@[id];
                &&& final(state).tabs@.contains_key(id)
                &&& final(state).tabs@.remove(id) == old(state).tabs@.remove(id)
                &&& if old(state).tabs@.contains_key(id) {
                    tab == (WebTab { refs: (old(state).tabs@[id].refs + 1) as u32, ..old(state).tabs@[id] })
                } else {
                    tab.refs == 1 && tab.boosts == boosts && tab.version == version && tab.applied_js@.len() == 0
                }
            },
            _ => final(state).tabs@ == old(state).tabs@,
        },
{
    match created {
        Created::Ui => increment(&mut state.ui_ids, id),
        Created::Frontend { origins } => {
            let entry: (u32, String) = match state.devtools.remove(&id) {
                Some(e) => (e.0 + 1, e.1),
                None => (1, origins),
            };
            state.devtools.insert(id, entry);
            proof {
                assert(state.devtools@ =~= old(state).devtools@.insert(
                    id,
                    if old(state).devtools@.contains_key(id) {
                        ((old(state).devtools@[id].0 + 1) as u32, old(state).devtools@[id].1)
                    } else {
                        (1u32, origins)
                    },
                ));
            }
        },
        Created::Tab { boosts, version } => {
            let entry: WebTab = match state.tabs.remove(&id) {
                Some(t) => WebTab { refs: t.refs + 1, boosts: t.boosts, version: t.version, applied_js: t.applied_js },
                None => WebTab { refs: 1, boosts, version, applied_js: Vec::new() },
            };
            state.tabs.insert(id, entry);
            proof {
                assert(state.tabs@.remove(id) =~= old(state).tabs@.remove(id));
            }
        },
        Created::Other => {},
    }
}

/// Two places of the list hold the same document.
pub open spec fn same_document(a: (i32, String), b: (i32, String)) -> bool {
    a.0 == b.0 && a.1@ == b.1@
}

/// No document is listed twice.
pub open spec fn each_once(audible: Seq<(i32, String)>) -> bool {
    forall|i: int, j: int| 0 <= i < j < audible.len() ==> !same_document(#[trigger] audible[i], #[trigger] audible[j])
}

impl Renderer {
    /// No document is listed twice among the audible ones.
    pub open spec fn valid(self) -> bool {
        each_once(self.audible@)
    }
}

/// What is left without a browser was there, and in the same order.
proof fn without_browser_keeps_once(audible: Seq<(i32, String)>, id: i32)
    requires
        each_once(audible),
    ensures
        each_once(without_browser(audible, id)),
        forall|n: int|
            #![trigger without_browser(audible, id)[n]]
            0 <= n < without_browser(audible, id).len() ==> without_browser(audible, id)[n].0 != id && audible.contains(
                without_browser(audible, id)[n],
            ),
    decreases audible.len(),
{
    if audible.len() > 0 {
        let rest = audible.skip(1);
        without_browser_keeps_once(rest, id);
        let w = without_browser(audible, id);
        let r = without_browser(rest, id);
        assert forall|n: int| #![trigger r[n]] 0 <= n < r.len() implies audible.contains(r[n]) && (exists|k: int| 0 < k < audible.len() && #[trigger] audible[k]
            == r[n]) by {
            let k = rest.index_of(r[n]);
            assert(audible[k + 1] == r[n]);
        }
        if audible[0].0 != id {
            assert(audible.contains(audible[0]));
            assert forall|i: int, j: int| 0 <= i < j < w.len() implies !same_document(#[trigger] w[i], #[trigger] w[j]) by {
                assert(w[j] == r[j - 1]);
                if i > 0 {
                    assert(w[i] == r[i - 1]);
                } else {
                    let k = choose|k: int| 0 < k < audible.len() && #[trigger] audible[k] == r[j - 1];
                    assert(!same_document(audible[0], audible[k]));
                }
            }
            assert forall|n: int| #![trigger w[n]] 0 <= n < w.len() implies w[n].0 != id && audible.contains(w[n]) by {
                if n > 0 {
                    assert(w[n] == r[n - 1]);
                }
            }
        }
    }
}

/// The audible documents of other browsers, in order.
pub open spec fn without_browser(audible: Seq<(i32, String)>, id: i32) -> Seq<(i32, String)>
    decreases audible.len(),
{
    if audible.len() == 0 {
        Seq::empty()
    } else if audible[0].0 == id {
        without_browser(audible.skip(1), id)
    } else {
        seq![audible[0]] + without_browser(audible.skip(1), id)
    }
}

/// A browser of this renderer is gone.
pub fn on_browser_destroyed(state: &mut Renderer, id: i32)
    ensures
        final(state).ui_ids@ == decremented(old(state).ui_ids@, id),
        final(state).devtools@ == (if !old(state).devtools@.contains_key(id) {
            old(state).devtools@
        } else if old(state).devtools@[id].0 <= 1 {
            old(state).devtools@.remove(id)
        } else {
            old(state).devtools@.insert(id, ((old(state).devtools@[id].0 - 1) as u32, old(state).devtools@[id].1))
        }),
        final(state).tabs@ == (if !old(state).tabs@.contains_key(id) {
            old(state).tabs@
        } else if old(state).tabs@[id].refs <= 1 {
            old(state).tabs@.remove(id)
        } else {
            old(state).tabs@.insert(id, (WebTab { refs: (old(state).tabs@[id].refs - 1) as u32, ..old(state).tabs@[id] }))
        }),
        final(state).audible@ == without_browser(old(state).audible@, id),
        old(state).valid() ==> final(state).valid(),
{
    decrement(&mut state.ui_ids, id);
    match state.devtools.remove(&id) {
        Some(e) => {
            if e.0 > 1 {
                state.devtools.insert(id, (e.0 - 1, e.1));
            }
        },
        None => {},
    }
    proof {
        assert(state.devtools@ =~= (if !old(state).devtools@.contains_key(id) {
            old(state).devtools@
        } else if old(state).devtools@[id].0 <= 1 {
            old(state).devtools@.remove(id)
        } else {
            old(state).devtools@.insert(id, ((old(state).devtools@[id].0 - 1) as u32, old(state).devtools@[id].1))
        }));
    }
    match state.tabs.remove(&id) {
        Some(t) => {
            if t.refs > 1 {
                state.tabs.insert(
                    id,
                    WebTab { refs: t.refs - 1, boosts: t.boosts, version: t.version, applied_js: t.applied_js },
                );
            }
        },
        None => {},
    }
    proof {
        assert(state.tabs@ =~= (if !old(state).tabs@.contains_key(id) {
            old(state).tabs@
        } else if old(state).tabs@[id].refs <= 1 {
            old(state).tabs@.remove(id)
        } else {
            old(state).tabs@.insert(id, (WebTab { refs: (old(state).tabs@[id].refs - 1) as u32, ..old(state).tabs@[id] }))
        }));
    }
    let mut kept: Vec<(i32, String)> = Vec::new();
    let ghost whole = without_browser(old(state).audible@, id);
    proof {
        assert(kept@ + whole =~= whole);
    }
    while state.audible.len() > 0
        invariant
            whole == kept@ + without_browser(state.audible@, id),
            state.ui_ids@ == decremented(old(state).ui_ids@, id),
            state.devtools@ == (if !old(state).devtools@.contains_key(id) {
                old(state).devtools@
            } else if old(state).devtools@[id].0 <= 1 {
                old(state).devtools@.remove(id)
            } else {
                old(state).devtools@.insert(id, ((old(state).devtools@[id].0 - 1) as u32, old(state).devtools@[id].1))
            }),
            state.tabs@ == (if !old(state).tabs@.contains_key(id) {
                old(state).tabs@
            } else if old(state).tabs@[id].refs <= 1 {
                old(state).tabs@.remove(id)
            } else {
                old(state).tabs@.insert(id, (WebTab { refs: (old(state).tabs@[id].refs - 1) as u32, ..old(state).tabs@[id] }))
            }),
        decreases state.audible@.len(),
    {
        let ghost before = kept@;
        let ghost rest = state.audible@.skip(1);
        let one = state.audible.remove(0);
        proof {
            assert(state.audible@ =~= rest);
        }
        if one.0 != id {
            kept.push(one);
            proof {
                assert(before + (seq![one] + without_browser(rest, id)) =~= kept@ + without_browser(rest, id));
            }
        }
    }
    proof {
        assert(kept@ + Seq::<(i32, String)>::empty() =~= kept@);
    }
    state.audible = kept;
    proof {
        if old(state).valid() {
            without_browser_keeps_once(old(state).audible@, id);
        }
    }
}

// ------------------------------------------------------------------------------ documents

/// A document that gets the features of a web page (not an error page, developer tools or an internal
/// page).
pub open spec fn is_page(url: Seq<char>) -> bool {
    let low = lower(url);
    !("chrome-error:"@.is_prefix_of(low) || "devtools:"@.is_prefix_of(low) || "chrome:"@.is_prefix_of(low) || is_internal(url))
}

/// A document that gets the features of a web page.
pub fn is_page_url(url: &str) -> (r: bool)
    ensures
        r == is_page(url@),
{
    let low = ascii_lower(url);
    let l = low.as_str();
    !(has_prefix(l, "chrome-error:") || has_prefix(l, "devtools:") || has_prefix(l, "chrome:") || is_sta_url(url))
}

/// What a new document gets.
pub enum Document {
    Nothing,
    /// The bridge of the shell.
    Bridge,
    /// The shim of a developer tools frontend, which is told these origins.
    Shim { origins: String },
    /// The features of a page; in a main frame also its boosts, and the browser is asked whether this
    /// version is the current one.
    Page { check: Option<String> },
}

/// What a document gets, by the state of the renderer.
pub open spec fn gets(state: Renderer, id: i32, url: Seq<char>, main: bool, context: bool, frontend_url: bool, r: Document) -> bool {
    if state.ui_ids@.contains_key(id) {
        if main && is_internal(url) { r is Bridge } else { r is Nothing }
    } else if state.devtools@.contains_key(id) {
        if main && frontend_url && context { r is Shim && r->origins == state.devtools@[id].1 } else { r is Nothing }
    } else if !context || !state.tabs@.contains_key(id) || !is_page(url) {
        r is Nothing
    } else {
        r is Page && r->check == (if main { Some(state.tabs@[id].version) } else { None })
    }
}

/// A document was created in a frame. `main`: it is the main frame; `context`: scripts can run in it;
/// `frontend_url`: the URL is a developer tools frontend's. In a new document of a web tab no script of
/// a boost has run yet.
pub fn on_context_created(state: &mut Renderer, id: i32, url: &str, main: bool, context: bool, frontend_url: bool) -> (r: Document)
    ensures
        gets(*old(state), id, url@, main, context, frontend_url, r),
        final(state).ui_ids == old(state).ui_ids && final(state).devtools == old(state).devtools && final(state).audible == old(
            state).audible,
        if r is Page && main {
            let tab = final(state).tabs@[id];
            &&& final(state).tabs@.contains_key(id)
            &&& final(state).tabs@.remove(id) == old(state).tabs@.remove(id)
            &&& tab.applied_js@.len() == 0
            &&& tab == (WebTab { applied_js: tab.applied_js, ..old(state).tabs@[id] })
        } else {
            final(state).tabs@ == old(state).tabs@
        },
{
    if state.ui_ids.contains_key(&id) {
        return if main && is_sta_url(url) { Document::Bridge } else { Document::Nothing };
    }
    match state.devtools.get(&id) {
        Some(e) => {
            return if main && frontend_url && context { Document::Shim { origins: e.1.clone() } } else { Document::Nothing };
        },
        None => {},
    }
    if !context || !state.tabs.contains_key(&id) || !is_page_url(url) {
        return Document::Nothing;
    }
    if !main {
        return Document::Page { check: None };
    }
    match state.tabs.remove(&id) {
        Some(t) => {
            let version = t.version.clone();
            state.tabs.insert(id, WebTab { refs: t.refs, boosts: t.boosts, version: t.version, applied_js: Vec::new() });
            proof {
                assert(state.tabs@.remove(id) =~= old(state).tabs@.remove(id));
            }
            Document::Page { check: Some(version) }
        },
        None => Document::Nothing,
    }
}

/// Nothing but an internal page in the main frame of one of the shell's own browsers ever gets the
/// bridge: not a web tab, not a subframe, and not one of the shell's own browsers that shows another
/// page.
pub proof fn only_internal_pages_get_the_bridge(
    state: Renderer,
    id: i32,
    url: Seq<char>,
    main: bool,
    context: bool,
    frontend_url: bool,
    r: Document,
)
    requires
        gets(state, id, url, main, context, frontend_url, r),
    ensures
        r is Bridge <==> state.ui_ids@.contains_key(id) && main && is_internal(url),
        r is Page ==> state.tabs@.contains_key(id) && !state.ui_ids@.contains_key(id) && !is_internal(url),
{
}

// ------------------------------------------------------------------------------ boosts

/// The style sheets of the boosts that apply, from position `i` on, with line breaks between them.
pub open spec fn styles_from(boosts: Seq<BoostData>, hits: Seq<bool>, i: int) -> Seq<Seq<char>>
    decreases boosts.len() - i,
{
    if i < 0 || i >= boosts.len() {
        Seq::empty()
    } else if hits[i] && trimmed(boosts[i].css@).len() > 0 {
        seq![trimmed(boosts[i].css@)] + styles_from(boosts, hits, i + 1)
    } else {
        styles_from(boosts, hits, i + 1)
    }
}

/// Texts with line breaks between them.
pub open spec fn lines(parts: Seq<Seq<char>>) -> Seq<char>
    decreases parts.len(),
{
    if parts.len() == 0 {
        Seq::empty()
    } else if parts.len() == 1 {
        parts[0]
    } else {
        lines(parts.drop_last()) + "\n"@ + parts.last()
    }
}

/// The scripts of the boosts that apply and did not run yet, from position `i` on, and what ran then.
pub open spec fn scripts_from(boosts: Seq<BoostData>, hits: Seq<bool>, ran: Seq<u64>, i: int) -> (Seq<Seq<char>>, Seq<u64>)
    decreases boosts.len() - i,
{
    if i < 0 || i >= boosts.len() {
        (Seq::empty(), ran)
    } else if hits[i] && trimmed(boosts[i].js@).len() > 0 && !ran.contains(js_key(boosts[i])) {
        let rest = scripts_from(boosts, hits, ran.push(js_key(boosts[i])), i + 1);
        (seq![boosts[i].js@] + rest.0, rest.1)
    } else {
        scripts_from(boosts, hits, ran, i + 1)
    }
}

fn contains(list: &Vec<u64>, x: u64) -> (r: bool)
    ensures
        r == list@.contains(x),
{
    let mut i: usize = 0;
    while i < list.len()
        invariant
            i <= list@.len(),
            forall|k: int| 0 <= k < i ==> list@[k] != x,
        decreases list@.len() - i,
    {
        if list[i] == x {
            return true;
        }
        i = i + 1;
    }
    false
}

/// What applying boosts to a document takes.
pub struct Apply {
    /// The style sheet to set, if any is to be set (an empty one removes it).
    pub css: Option<String>,
    /// The scripts to run.
    pub scripts: Vec<String>,
}

/// Applies the boosts of a web tab to its document. `hits`: which of them match the document's host;
/// `fresh`: the document is new. A new document without style sheets needs nothing; otherwise an old
/// style sheet may have to go. A script runs once in a document.
pub fn apply_boosts(state: &mut Renderer, id: i32, hits: &Vec<bool>, fresh: bool) -> (r: Option<Apply>)
    requires
        old(state).tabs@.contains_key(id) ==> hits@.len() == old(state).tabs@[id].boosts@.len(),
    ensures
        final(state).ui_ids == old(state).ui_ids && final(state).devtools == old(state).devtools && final(state).audible == old(
            state).audible,
        final(state).tabs@.contains_key(id) == old(state).tabs@.contains_key(id),
        final(state).tabs@.remove(id) == old(state).tabs@.remove(id),
        r is Some <==> old(state).tabs@.contains_key(id),
        match r {
            None => final(state).tabs@ == old(state).tabs@,
            Some(apply) => {
                let before = old(state).tabs@[id];
                let tab = final(state).tabs@[id];
                let css = lines(styles_from(before.boosts@, hits@, 0));
                let ran = scripts_from(before.boosts@, hits@, before.applied_js@, 0);
                &&& match apply.css {
                    Some(c) => (css.len() > 0 || !fresh) && c@ == css,
                    None => css.len() == 0 && fresh,
                }
                &&& crate::text::text_views(apply.scripts@) == ran.0
                &&& tab.applied_js@ == ran.1
                &&& tab == (WebTab { applied_js: tab.applied_js, ..before })
            },
        },
{
    match state.tabs.remove(&id) {
        None => {
            proof {
                assert(state.tabs@ =~= old(state).tabs@);
            }
            None
        },
        Some(mut tab) => {
            let ghost boosts = tab.boosts@;
            let ghost first_ran = tab.applied_js@;
            let css = join_styles(&tab.boosts, hits);
            let mut scripts: Vec<String> = Vec::new();
            let mut i: usize = 0;
            let ghost whole = scripts_from(boosts, hits@, first_ran, 0);
            proof {
                assert(crate::text::text_views(scripts@) + whole.0 =~= whole.0);
            }
            while i < tab.boosts.len()
                invariant
                    i <= boosts.len(),
                    tab.boosts@ == boosts,
                    hits@.len() == boosts.len(),
                    tab == (WebTab { applied_js: tab.applied_js, ..old(state).tabs@[id] }),
                    whole.0 == crate::text::text_views(scripts@) + scripts_from(boosts, hits@, tab.applied_js@, i as int).0,
                    whole.1 == scripts_from(boosts, hits@, tab.applied_js@, i as int).1,
                decreases boosts.len() - i,
            {
                let bare = trim_text(tab.boosts[i].js.as_str());
                if hits[i] && !bare.as_str().is_empty() {
                    let hash: u64 = js_hash(&tab.boosts[i]);
                    if !contains(&tab.applied_js, hash) {
                        let ghost before = crate::text::text_views(scripts@);
                        let ghost rest = scripts_from(boosts, hits@, tab.applied_js@.push(hash), i + 1);
                        tab.applied_js.push(hash);
                        scripts.push(copy_text(tab.boosts[i].js.as_str()));
                        proof {
                            assert(crate::text::text_views(scripts@) =~= before.push(boosts[i as int].js@));
                            assert(before + (seq![boosts[i as int].js@] + rest.0) =~= crate::text::text_views(scripts@) + rest.0);
                        }
                    }
                }
                i = i + 1;
            }
            proof {
                assert(crate::text::text_views(scripts@) + Seq::<Seq<char>>::empty() =~= crate::text::text_views(scripts@));
            }
            state.tabs.insert(id, tab);
            proof {
                assert(state.tabs@.remove(id) =~= old(state).tabs@.remove(id));
            }
            let set = !css.as_str().is_empty() || !fresh;
            Some(Apply { css: if set { Some(css) } else { None }, scripts })
        },
    }
}

fn join_styles(boosts: &Vec<BoostData>, hits: &Vec<bool>) -> (r: String)
    requires
        hits@.len() == boosts@.len(),
    ensures
        r@ == lines(styles_from(boosts@, hits@, 0)),
{
    let mut out = String::new();
    let ghost mut parts: Seq<Seq<char>> = Seq::empty();
    let mut i: usize = 0;
    let mut any = false;
    let ghost whole = styles_from(boosts@, hits@, 0);
    proof {
        assert(parts + whole =~= whole);
    }
    while i < boosts.len()
        invariant
            i <= boosts@.len(),
            hits@.len() == boosts@.len(),
            any == (parts.len() > 0),
            out@ == lines(parts),
            whole == parts + styles_from(boosts@, hits@, i as int),
        decreases boosts@.len() - i,
    {
        let style = trim_text(boosts[i].css.as_str());
        if hits[i] && !style.as_str().is_empty() {
            if any {
                out.append("\n");
            }
            out.append(style.as_str());
            any = true;
            proof {
                let before = parts;
                let rest = styles_from(boosts@, hits@, i + 1);
                parts = parts.push(style@);
                assert(parts.drop_last() =~= before);
                assert(before + (seq![style@] + rest) =~= parts + rest);
                if before.len() == 0 {
                    assert(out@ =~= style@);
                } else {
                    assert(out@ =~= lines(before) + "\n"@ + style@);
                }
            }
        }
        i = i + 1;
    }
    proof {
        assert(parts + Seq::<Seq<char>>::empty() =~= parts);
    }
    out
}

/// A boost list came for a web tab. Returns whether it is to be applied to the document at hand:
/// `page_url` is the URL of its main frame, where it has one.
pub fn on_boosts_message(state: &mut Renderer, id: i32, boosts: Vec<BoostData>, version: String, apply_now: bool, page_url: Option<&str>) -> (r:
    bool)
    ensures
        final(state).ui_ids == old(state).ui_ids && final(state).devtools == old(state).devtools && final(state).audible == old(
            state).audible,
        if !old(state).tabs@.contains_key(id) || old(state).tabs@[id].version@ == version@ {
            !r && final(state).tabs@ == old(state).tabs@
        } else {
            &&& final(state).tabs@ == old(state).tabs@.insert(id, (WebTab { boosts, version, ..old(state).tabs@[id] }))
            &&& r == (apply_now && page_url is Some && is_page(page_url->0@))
        },
{
    let known = match state.tabs.get(&id) {
        Some(tab) => same_text(tab.version.as_str(), version.as_str()),
        None => {
            return false;
        },
    };
    if known {
        return false;
    }
    match state.tabs.remove(&id) {
        Some(t) => {
            state.tabs.insert(id, WebTab { refs: t.refs, boosts, version, applied_js: t.applied_js });
        },
        None => {},
    }
    proof {
        assert(state.tabs@ =~= old(state).tabs@.insert(id, (WebTab { boosts, version, ..old(state).tabs@[id] })));
    }
    apply_now && match page_url {
        Some(url) => is_page_url(url),
        None => false,
    }
}

/// A script runs once in a document: applying the same boosts again runs nothing.
pub proof fn a_script_runs_once(boosts: Seq<BoostData>, hits: Seq<bool>, ran: Seq<u64>)
    requires
        hits.len() == boosts.len(),
    ensures
        ({
            let once = scripts_from(boosts, hits, ran, 0);
            scripts_from(boosts, hits, once.1, 0) == (Seq::<Seq<char>>::empty(), once.1)
        }),
{
    let once = scripts_from(boosts, hits, ran, 0);
    all_ran(boosts, hits, ran, 0);
    nothing_left(boosts, hits, once.1, 0);
}

/// Running the scripts from position `i` on forgets none that ran, and remembers each of them.
proof fn all_ran(boosts: Seq<BoostData>, hits: Seq<bool>, ran: Seq<u64>, i: int)
    requires
        0 <= i,
    ensures
        forall|x: u64| ran.contains(x) ==> #[trigger] scripts_from(boosts, hits, ran, i).1.contains(x),
        forall|k: int|
            i <= k < boosts.len() && hits[k] && trimmed(boosts[k].js@).len() > 0 ==> scripts_from(boosts, hits, ran, i).1.contains(
                js_key(#[trigger] boosts[k]),
            ),
    decreases boosts.len() - i,
{
    if i < boosts.len() {
        let key = js_key(boosts[i]);
        if hits[i] && trimmed(boosts[i].js@).len() > 0 && !ran.contains(key) {
            let more = ran.push(key);
            all_ran(boosts, hits, more, i + 1);
            assert(more[more.len() - 1] == key);
            assert(more.contains(key));
            assert forall|x: u64| ran.contains(x) implies #[trigger] scripts_from(boosts, hits, ran, i).1.contains(x) by {
                let at = choose|at: int| 0 <= at < ran.len() && ran[at] == x;
                assert(more[at] == x);
                assert(more.contains(x));
                assert(scripts_from(boosts, hits, more, i + 1).1.contains(x));
            }
            assert(scripts_from(boosts, hits, more, i + 1).1.contains(key));
        } else {
            all_ran(boosts, hits, ran, i + 1);
            assert(scripts_from(boosts, hits, ran, i) == scripts_from(boosts, hits, ran, i + 1));
            if ran.contains(key) {
                assert(scripts_from(boosts, hits, ran, i + 1).1.contains(key));
            }
            assert forall|x: u64| ran.contains(x) implies #[trigger] scripts_from(boosts, hits, ran, i).1.contains(x) by {
                assert(scripts_from(boosts, hits, ran, i + 1).1.contains(x));
            }
        }
    }
}

proof fn nothing_left(boosts: Seq<BoostData>, hits: Seq<bool>, ran: Seq<u64>, i: int)
    requires
        0 <= i,
        forall|k: int|
            i <= k < boosts.len() && hits[k] && trimmed(boosts[k].js@).len() > 0 ==> ran.contains(js_key(#[trigger] boosts[k])),
    ensures
        scripts_from(boosts, hits, ran, i) == (Seq::<Seq<char>>::empty(), ran),
    decreases boosts.len() - i,
{
    if i < boosts.len() {
        assert(boosts[i] == boosts[i]);
        nothing_left(boosts, hits, ran, i + 1);
    }
}

// ------------------------------------------------------------------------------ scripts

/// What stands before the style sheet in the script that sets it.
pub const CSS_SCRIPT_HEAD: &'static str = "(function (css) {
  try {
    var ID = 'sta-boost';
    var apply = function (last) {
      var d = document, el = d.getElementById(ID);
      if (!css) { if (el) el.remove(); return; }
      if (!el) { el = d.createElement('style'); el.id = ID; }
      if (el.textContent !== css) el.textContent = css;
      var root = d.documentElement;
      if (root && (last || !el.isConnected)) root.appendChild(el);
    };
    if (document.documentElement) {
      apply(false);
    } else {
      var mo = new MutationObserver(function () {
        if (document.documentElement) { mo.disconnect(); apply(false); }
      });
      mo.observe(document, { childList: true });
    }
    if (document.readyState === 'loading') {
      document.addEventListener('DOMContentLoaded', function () { apply(true); }, { once: true });
    }
  } catch (e) {}
})(";

/// What stands before and after the script of a boost.
pub const JS_SCRIPT_HEAD: &'static str = "(function () {\n  var run = function () {\n    try {\n";

pub const JS_SCRIPT_TAIL: &'static str =
    "\n    } catch (e) { console.error('sta boost:', e); }\n  };\n  if (document.readyState === 'loading') document.addEventListener('DOMContentLoaded', run, { once: true });\n  else run();\n})();";

/// A text as a script literal.
pub fn js_string(s: &str) -> (r: String)
    ensures
        r@ == json_quoted(s@),
{
    json_string(s)
}

/// The script that sets the style sheet of the boosts.
pub fn boost_css_script(css: &str) -> (r: String)
    ensures
        r@ == CSS_SCRIPT_HEAD@ + json_quoted(css@) + ");"@,
{
    let quoted = js_string(css);
    join3(CSS_SCRIPT_HEAD, quoted.as_str(), ");")
}

/// The script that runs a boost's script once the document is there, and reports what it throws.
pub fn boost_js_script(js: &str) -> (r: String)
    ensures
        r@ == JS_SCRIPT_HEAD@ + js@ + JS_SCRIPT_TAIL@,
{
    join3(JS_SCRIPT_HEAD, js, JS_SCRIPT_TAIL)
}

// ------------------------------------------------------------------------------ media and previews

/// Where a document is in the list of those that are audible, from position `i` on.
pub open spec fn audible_at(audible: Seq<(i32, String)>, id: i32, frame: Seq<char>, i: int) -> Option<int>
    decreases audible.len() - i,
{
    if i < 0 || i >= audible.len() {
        None
    } else if audible[i].0 == id && audible[i].1@ == frame {
        Some(i)
    } else {
        audible_at(audible, id, frame, i + 1)
    }
}

/// A document is found where it is, and not found where it is not.
proof fn audible_is_there(audible: Seq<(i32, String)>, id: i32, frame: Seq<char>, i: int)
    requires
        0 <= i,
    ensures
        match audible_at(audible, id, frame, i) {
            Some(k) => i <= k < audible.len() && audible[k].0 == id && audible[k].1@ == frame,
            None => forall|k: int| i <= k < audible.len() ==> !((#[trigger] audible[k]).0 == id && audible[k].1@ == frame),
        },
    decreases audible.len() - i,
{
    if i < audible.len() && !(audible[i].0 == id && audible[i].1@ == frame) {
        audible_is_there(audible, id, frame, i + 1);
    }
}

/// A document that is taken off the list is not on it any more.
proof fn removed_is_gone(audible: Seq<(i32, String)>, id: i32, frame: Seq<char>, at: int)
    requires
        each_once(audible),
        0 <= at < audible.len(),
        audible[at].0 == id,
        audible[at].1@ == frame,
    ensures
        each_once(audible.remove(at)),
        audible_at(audible.remove(at), id, frame, 0) is None,
{
    let left = audible.remove(at);
    assert(forall|k: int| 0 <= k < left.len() ==> #[trigger] left[k] == audible[if k < at { k } else { k + 1 }]);
    assert forall|i: int, j: int| 0 <= i < j < left.len() implies !same_document(#[trigger] left[i], #[trigger] left[j]) by {
        assert(!same_document(audible[if i < at { i } else { i + 1 }], audible[if j < at { j } else { j + 1 }]));
    }
    audible_is_there(left, id, frame, 0);
    if audible_at(left, id, frame, 0) is Some {
        let k = audible_at(left, id, frame, 0)->0;
        let there = if k < at { k } else { k + 1 };
        assert(audible[there] == left[k]);
        if there < at {
            assert(!same_document(audible[there], audible[at]));
        } else {
            assert(!same_document(audible[at], audible[there]));
        }
    }
}

fn find_audible(audible: &Vec<(i32, String)>, id: i32, frame: &str) -> (r: Option<usize>)
    ensures
        match r {
            Some(i) => audible_at(audible@, id, frame@, 0) == Some(i as int) && i < audible@.len(),
            None => audible_at(audible@, id, frame@, 0) is None,
        },
{
    let mut i: usize = 0;
    while i < audible.len()
        invariant
            i <= audible@.len(),
            audible_at(audible@, id, frame@, 0) == audible_at(audible@, id, frame@, i as int),
        decreases audible@.len() - i,
    {
        if audible[i].0 == id && same_text(audible[i].1.as_str(), frame) {
            return Some(i);
        }
        i = i + 1;
    }
    None
}

/// A document became audible, or is not any more.
pub fn on_media(state: &mut Renderer, id: i32, frame: String, audible: bool)
    requires
        old(state).valid(),
    ensures
        final(state).valid(),
        (audible_at(final(state).audible@, id, frame@, 0) is Some) == audible,
        final(state).ui_ids == old(state).ui_ids && final(state).devtools == old(state).devtools && final(state).tabs == old(state).tabs,
        match audible_at(old(state).audible@, id, frame@, 0) {
            Some(i) => final(state).audible@ == (if audible { old(state).audible@ } else { old(state).audible@.remove(i) }),
            None => final(state).audible@ == (if audible { old(state).audible@.push((id, frame)) } else { old(state).audible@ }),
        },
{
    proof {
        audible_is_there(state.audible@, id, frame@, 0);
    }
    let ghost name = frame@;
    match find_audible(&state.audible, id, frame.as_str()) {
        Some(i) => {
            if !audible {
                proof {
                    removed_is_gone(state.audible@, id, name, i as int);
                }
                state.audible.remove(i);
            }
        },
        None => {
            if audible {
                state.audible.push((id, frame));
                proof {
                    audible_is_there(state.audible@, id, name, 0);
                    assert(state.audible@.last().1@ == name);
                    assert(state.audible@[state.audible@.len() - 1].0 == id);
                }
            }
        },
    }
}

/// A document is gone. Returns whether it was audible, which it then no longer is.
pub fn on_context_released(state: &mut Renderer, id: i32, frame: &str) -> (r: bool)
    requires
        old(state).valid(),
    ensures
        final(state).valid(),
        audible_at(final(state).audible@, id, frame@, 0) is None,
        final(state).ui_ids == old(state).ui_ids && final(state).devtools == old(state).devtools && final(state).tabs == old(state).tabs,
        r == (audible_at(old(state).audible@, id, frame@, 0) is Some),
        final(state).audible@ == (match audible_at(old(state).audible@, id, frame@, 0) {
            Some(i) => old(state).audible@.remove(i),
            None => old(state).audible@,
        }),
{
    proof {
        audible_is_there(state.audible@, id, frame@, 0);
    }
    match find_audible(&state.audible, id, frame) {
        Some(i) => {
            proof {
                removed_is_gone(state.audible@, id, frame@, i as int);
            }
            state.audible.remove(i);
            true
        },
        None => false,
    }
}

/// A link is handed to the browser to be previewed: not an empty one, nor one that is too long.
pub fn previews(url: &str) -> (r: bool)
    ensures
        r == (0 < encode_utf8(url@).len() <= MAX_PREVIEW_URL),
{
    let n: usize = url.as_bytes().len();
    0 < n && n <= MAX_PREVIEW_URL
}

// ------------------------------------------------------------------------------ messages

/// What is done with a message from the browser process.
#[derive(Debug, Clone, Copy, PartialEq, Eq, Structural)]
pub enum Received {
    /// A list of boosts.
    Boosts,
    /// Something for a DevTools frontend.
    DevTools,
    /// It goes to the message router.
    Router,
}

/// What is done with a message from the browser process, by its name.
pub open spec fn receiver_of(name: Seq<char>) -> Received {
    if name == MSG_BOOSTS@ {
        Received::Boosts
    } else if name == MSG_DEVTOOLS_IN@ {
        Received::DevTools
    } else {
        Received::Router
    }
}

/// What is done with a message from the browser process, by its name.
pub fn on_process_message_received(name: &str) -> (r: Received)
    ensures
        r == receiver_of(name@),
        r == (if name@ == MSG_BOOSTS@ {
            Received::Boosts
        } else if name@ == MSG_DEVTOOLS_IN@ {
            Received::DevTools
        } else {
            Received::Router
        }),
{
    if same_text(name, MSG_BOOSTS) {
        Received::Boosts
    } else if same_text(name, MSG_DEVTOOLS_IN) {
        Received::DevTools
    } else {
        Received::Router
    }
}

// ------------------------------------------------------------------------------ what holds

/// A page is everything but the error pages, the developer tools and the internal pages of the browser and
/// of the shell, whatever the case of their schemes.
pub proof fn pages_are_what_is_not_internal(url: Seq<char>)
    ensures
        is_page(url) <==> !(begins_in(url, "chrome-error:"@) || begins_in(url, "devtools:"@) || begins_in(url, "chrome:"@) || begins_in(url, "sta://"@)),
{
    reveal_strlit("chrome-error:");
    reveal_strlit("devtools:");
    reveal_strlit("chrome:");
    reveal_strlit("sta://");
    lower_case_shows_the_beginning(url, "chrome-error:"@);
    lower_case_shows_the_beginning(url, "devtools:"@);
    lower_case_shows_the_beginning(url, "chrome:"@);
    lower_case_shows_the_beginning(url, "sta://"@);
    assert(is_internal(url) == "sta://"@.is_prefix_of(lower(url))) by {
        if url.len() >= 6 {
            assert(lower(url.take(6)) =~= lower(url).subrange(0, 6));
        }
    }
}

/// What a new document gets. In one of the shell's own browsers the bridge, for an internal page in the main
/// frame. In a docked developer tools frontend its shim, for the frontend in the main frame, with the
/// origins that it was created with. In a web tab the features of a page, where scripts can run; in a main
/// frame with the version of the boosts that it has. Nothing anywhere else.
pub proof fn a_document_gets_what_it_is_for(
    state: Renderer,
    id: i32,
    url: Seq<char>,
    main: bool,
    context: bool,
    frontend_url: bool,
    r: Document,
)
    requires
        gets(state, id, url, main, context, frontend_url, r),
    ensures
        ({
            let ui = state.ui_ids@.contains_key(id);
            let tools = !ui && state.devtools@.contains_key(id);
            let tab = !ui && !tools && state.tabs@.contains_key(id);
            &&& r is Bridge <==> ui && main && begins_in(url, "sta://"@)
            &&& r is Shim <==> tools && main && frontend_url && context
            &&& r is Shim ==> r->origins == state.devtools@[id].1
            &&& r is Page <==> tab && context && is_page(url)
            &&& r is Page && main ==> r->check == Some(state.tabs@[id].version)
            &&& r is Page && !main ==> r->check is None
        }),
{
    reveal_strlit("sta://");
    lower_case_shows_the_beginning(url, "sta://"@);
    assert(is_internal(url) == "sta://"@.is_prefix_of(lower(url))) by {
        if url.len() >= 6 {
            assert(lower(url.take(6)) =~= lower(url).subrange(0, 6));
        }
    }
}

/// A number is counted by ones, and the others are left alone.
pub proof fn numbers_are_counted_by_ones(m: Map<i32, u32>, id: i32, other: i32)
    requires
        m.contains_key(id) ==> 0 < m[id] < u32::MAX,
        other != id,
    ensures
        incremented(m, id)[id] == (if m.contains_key(id) { m[id] + 1 } else { 1 }),
        incremented(m, id).contains_key(other) == m.contains_key(other) && (m.contains_key(other) ==> incremented(m, id)[other] == m[other]),
        decremented(m, id).contains_key(id) == (m.contains_key(id) && m[id] > 1),
        m.contains_key(id) && m[id] > 1 ==> decremented(m, id)[id] == m[id] - 1,
        decremented(m, id).contains_key(other) == m.contains_key(other) && (m.contains_key(other) ==> decremented(m, id)[other] == m[other]),
{
}

/// What a hasher is fed tells texts apart: the bytes of each, in order, and after each a byte that no text
/// holds. A script is known by its host and its text.
pub proof fn a_hash_is_of_the_texts_in_order(texts: Seq<Seq<char>>, i: int, b: BoostData)
    requires
        0 <= i < texts.len(),
    ensures
        hashed(texts).len() == 2 * texts.len(),
        hashed(texts)[2 * i] == encode_utf8(texts[i]),
        hashed(texts)[2 * i + 1] == seq![0xFFu8],
        js_key(b) == DefaultHasher::spec_finish(seq![encode_utf8(b.host@), seq![0xFFu8], encode_utf8(b.js@), seq![0xFFu8]]),
{
    hashed_in_order(texts, i);
    let two = seq![b.host@, b.js@];
    reveal_with_fuel(hashed, 3);
    assert(two.drop_last() =~= seq![b.host@]);
    assert(two.drop_last().drop_last() =~= Seq::<Seq<char>>::empty());
    assert(hashed(two) =~= seq![encode_utf8(b.host@), seq![0xFFu8], encode_utf8(b.js@), seq![0xFFu8]]);
}

proof fn hashed_in_order(texts: Seq<Seq<char>>, i: int)
    requires
        0 <= i < texts.len(),
    ensures
        hashed(texts).len() == 2 * texts.len(),
        hashed(texts)[2 * i] == encode_utf8(texts[i]),
        hashed(texts)[2 * i + 1] == seq![0xFFu8],
    decreases texts.len(),
{
    let front = texts.drop_last();
    if front.len() > 0 {
        hashed_in_order(front, if i < front.len() { i } else { 0 });
    } else {
        assert(hashed(front).len() == 0);
    }
}

/// The style sheets of a document are those of the boosts that match it, trimmed, in order and one below the
/// other; blank ones are left out.
pub proof fn styles_are_of_the_boosts_that_match(boosts: Seq<BoostData>, hits: Seq<bool>, k: int)
    requires
        0 <= k < boosts.len(),
        hits.len() == boosts.len(),
    ensures
        hits[k] && trimmed(boosts[k].css@).len() > 0 ==> styles_from(boosts, hits, 0).contains(trimmed(boosts[k].css@)),
        forall|n: int|
            0 <= n < styles_from(boosts, hits, 0).len() ==> (#[trigger] styles_from(boosts, hits, 0)[n]).len() > 0 && exists|j: int|
                0 <= j < boosts.len() && hits[j] && trimmed((#[trigger] boosts[j]).css@) == styles_from(boosts, hits, 0)[n],
        lines(styles_from(boosts, hits, 0)) == joined_by(styles_from(boosts, hits, 0), '\n'),
{
    styles_match(boosts, hits, 0);
    if hits[k] && trimmed(boosts[k].css@).len() > 0 {
        styles_have(boosts, hits, 0, k);
    }
    lines_are_joined(styles_from(boosts, hits, 0));
}

proof fn styles_have(boosts: Seq<BoostData>, hits: Seq<bool>, i: int, k: int)
    requires
        0 <= i <= k < boosts.len(),
        hits[k],
        trimmed(boosts[k].css@).len() > 0,
    ensures
        styles_from(boosts, hits, i).contains(trimmed(boosts[k].css@)),
    decreases k - i,
{
    let all = styles_from(boosts, hits, i);
    let style = trimmed(boosts[k].css@);
    if i == k {
        assert(all[0] == style);
    } else {
        styles_have(boosts, hits, i + 1, k);
        let rest = styles_from(boosts, hits, i + 1);
        let at = choose|at: int| 0 <= at < rest.len() && rest[at] == style;
        if hits[i] && trimmed(boosts[i].css@).len() > 0 {
            assert(all[at + 1] == style);
        }
    }
}

proof fn styles_match(boosts: Seq<BoostData>, hits: Seq<bool>, i: int)
    requires
        0 <= i,
    ensures
        forall|n: int|
            0 <= n < styles_from(boosts, hits, i).len() ==> (#[trigger] styles_from(boosts, hits, i)[n]).len() > 0 && exists|j: int|
                i <= j < boosts.len() && hits[j] && trimmed((#[trigger] boosts[j]).css@) == styles_from(boosts, hits, i)[n],
    decreases boosts.len() - i,
{
    if i < boosts.len() {
        styles_match(boosts, hits, i + 1);
        let all = styles_from(boosts, hits, i);
        let rest = styles_from(boosts, hits, i + 1);
        assert forall|n: int| 0 <= n < all.len() implies (#[trigger] all[n]).len() > 0 && exists|j: int|
            i <= j < boosts.len() && hits[j] && trimmed((#[trigger] boosts[j]).css@) == all[n] by {
            if hits[i] && trimmed(boosts[i].css@).len() > 0 {
                if n == 0 {
                    assert(trimmed(boosts[i].css@) == all[n]);
                } else {
                    assert(all[n] == rest[n - 1]);
                    let j = choose|j: int| i + 1 <= j < boosts.len() && hits[j] && trimmed((#[trigger] boosts[j]).css@) == rest[n - 1];
                    assert(trimmed(boosts[j].css@) == all[n]);
                }
            } else {
                assert(all[n] == rest[n]);
                let j = choose|j: int| i + 1 <= j < boosts.len() && hits[j] && trimmed((#[trigger] boosts[j]).css@) == rest[n];
                assert(trimmed(boosts[j].css@) == all[n]);
            }
        }
    }
}

proof fn lines_are_joined(parts: Seq<Seq<char>>)
    ensures
        lines(parts) == joined_by(parts, '\n'),
    decreases parts.len(),
{
    reveal_strlit("\n");
    if parts.len() > 1 {
        let front = parts.drop_last();
        lines_are_joined(front);
        one_more_is_joined_behind(front, '\n', parts.last());
        assert(front.push(parts.last()) =~= parts);
        assert(lines(parts) =~= joined_by(parts, '\n'));
    }
}

/// The scripts that run in a document are those of the boosts that match it and did not run in it yet, as
/// they were written.
pub proof fn scripts_are_of_the_boosts_that_match(boosts: Seq<BoostData>, hits: Seq<bool>, ran: Seq<u64>, k: int)
    requires
        0 <= k < boosts.len(),
        hits.len() == boosts.len(),
    ensures
        hits[k] && trimmed(boosts[k].js@).len() > 0 && !ran.contains(js_key(boosts[k])) && (forall|j: int|
            0 <= j < k ==> js_key(#[trigger] boosts[j]) != js_key(boosts[k])) ==> scripts_from(boosts, hits, ran, 0).0.contains(boosts[k].js@),
        forall|n: int|
            0 <= n < scripts_from(boosts, hits, ran, 0).0.len() ==> exists|j: int|
                0 <= j < boosts.len() && hits[j] && trimmed((#[trigger] boosts[j]).js@).len() > 0 && !ran.contains(js_key(boosts[j])) && boosts[j].js@
                    == #[trigger] scripts_from(boosts, hits, ran, 0).0[n],
{
    scripts_match(boosts, hits, ran, ran, 0);
    if hits[k] && trimmed(boosts[k].js@).len() > 0 && !ran.contains(js_key(boosts[k])) && (forall|j: int|
        0 <= j < k ==> js_key(#[trigger] boosts[j]) != js_key(boosts[k])) {
        scripts_have(boosts, hits, ran, 0, k);
    }
}

proof fn scripts_have(boosts: Seq<BoostData>, hits: Seq<bool>, ran: Seq<u64>, i: int, k: int)
    requires
        0 <= i <= k < boosts.len(),
        hits[k],
        trimmed(boosts[k].js@).len() > 0,
        !ran.contains(js_key(boosts[k])),
        forall|j: int| i <= j < k ==> js_key(#[trigger] boosts[j]) != js_key(boosts[k]),
    ensures
        scripts_from(boosts, hits, ran, i).0.contains(boosts[k].js@),
    decreases k - i,
{
    let all = scripts_from(boosts, hits, ran, i).0;
    let script = boosts[k].js@;
    if i == k {
        assert(all[0] == script);
    } else {
        let key = js_key(boosts[i]);
        let runs = hits[i] && trimmed(boosts[i].js@).len() > 0 && !ran.contains(key);
        let next = if runs { ran.push(key) } else { ran };
        assert(!next.contains(js_key(boosts[k]))) by {
            if next.contains(js_key(boosts[k])) {
                let at = choose|at: int| 0 <= at < next.len() && next[at] == js_key(boosts[k]);
                if at < ran.len() {
                    assert(ran[at] == js_key(boosts[k]));
                }
            }
        }
        scripts_have(boosts, hits, next, i + 1, k);
        let rest = scripts_from(boosts, hits, next, i + 1).0;
        let at = choose|at: int| 0 <= at < rest.len() && rest[at] == script;
        if runs {
            assert(all[at + 1] == script);
        }
    }
}

proof fn scripts_match(boosts: Seq<BoostData>, hits: Seq<bool>, first: Seq<u64>, ran: Seq<u64>, i: int)
    requires
        0 <= i,
        forall|x: u64| first.contains(x) ==> #[trigger] ran.contains(x),
    ensures
        forall|n: int|
            0 <= n < scripts_from(boosts, hits, ran, i).0.len() ==> exists|j: int|
                i <= j < boosts.len() && hits[j] && trimmed((#[trigger] boosts[j]).js@).len() > 0 && !first.contains(js_key(boosts[j])) && boosts[j].js@
                    == #[trigger] scripts_from(boosts, hits, ran, i).0[n],
    decreases boosts.len() - i,
{
    if i < boosts.len() {
        let key = js_key(boosts[i]);
        let runs = hits[i] && trimmed(boosts[i].js@).len() > 0 && !ran.contains(key);
        let next = if runs { ran.push(key) } else { ran };
        assert forall|x: u64| first.contains(x) implies #[trigger] next.contains(x) by {
            assert(ran.contains(x));
            let at = choose|at: int| 0 <= at < ran.len() && ran[at] == x;
            assert(next[at] == x);
        }
        scripts_match(boosts, hits, first, next, i + 1);
        let all = scripts_from(boosts, hits, ran, i).0;
        let rest = scripts_from(boosts, hits, next, i + 1).0;
        assert forall|n: int| 0 <= n < all.len() implies exists|j: int|
            i <= j < boosts.len() && hits[j] && trimmed((#[trigger] boosts[j]).js@).len() > 0 && !first.contains(js_key(boosts[j])) && boosts[j].js@
                == #[trigger] all[n] by {
            if runs && n == 0 {
                assert(boosts[i].js@ == all[n]);
            } else {
                let m = if runs { n - 1 } else { n };
                assert(all[n] == rest[m]);
                let j = choose|j: int|
                    i + 1 <= j < boosts.len() && hits[j] && trimmed((#[trigger] boosts[j]).js@).len() > 0 && !first.contains(js_key(boosts[j]))
                        && boosts[j].js@ == rest[m];
                assert(boosts[j].js@ == all[n]);
            }
        }
    }
}

/// A document is audible by its browser and its frame, and is found where it stands; with its browser all of
/// its documents go, and no others.
pub proof fn audible_documents_are_known_by_browser_and_frame(audible: Seq<(i32, String)>, id: i32, frame: Seq<char>)
    ensures
        audible_at(audible, id, frame, 0) is Some <==> exists|k: int| 0 <= k < audible.len() && (#[trigger] audible[k]).0 == id && audible[k].1@ == frame,
        forall|n: int| 0 <= n < without_browser(audible, id).len() ==> (#[trigger] without_browser(audible, id)[n]).0 != id,
        forall|k: int| 0 <= k < audible.len() && (#[trigger] audible[k]).0 != id ==> without_browser(audible, id).contains(audible[k]),
    decreases audible.len(),
{
    audible_is_there(audible, id, frame, 0);
    if audible_at(audible, id, frame, 0) is Some {
        let k = audible_at(audible, id, frame, 0)->0;
        assert(audible[k].0 == id && audible[k].1@ == frame);
    }
    if audible.len() > 0 {
        let rest = audible.skip(1);
        audible_documents_are_known_by_browser_and_frame(rest, id, frame);
        let all = without_browser(audible, id);
        let fewer = without_browser(rest, id);
        assert forall|n: int| 0 <= n < all.len() implies (#[trigger] all[n]).0 != id by {
            if audible[0].0 != id && n > 0 {
                assert(all[n] == fewer[n - 1]);
            }
        }
        assert forall|k: int| 0 <= k < audible.len() && (#[trigger] audible[k]).0 != id implies all.contains(audible[k]) by {
            if k == 0 {
                assert(all[0] == audible[0]);
            } else {
                assert(rest[k - 1] == audible[k]);
                assert(fewer.contains(rest[k - 1]));
                let at = choose|at: int| 0 <= at < fewer.len() && fewer[at] == rest[k - 1];
                if audible[0].0 != id {
                    assert(all[at + 1] == audible[k]);
                }
            }
        }
    }
}

/// The names that the two sides of the bridge agree on.
pub proof fn the_names_of_the_messages()
    ensures
        MSG_MEDIA@ == "sta.media"@ && MSG_BOOSTS@ == "sta.boosts"@ && MSG_BOOSTS_CHECK@ == "sta.boosts.check"@ && MSG_PREVIEW@ == "sta.preview"@,
        MSG_DEVTOOLS_EMBEDDER@ == "sta.devtools.embedder"@ && MSG_DEVTOOLS_IN@ == "sta.devtools.in"@,
        EXTRA_UI@ == "sta_ui"@ && EXTRA_TAB@ == "sta_tab"@ && EXTRA_BOOSTS@ == "boosts"@ && EXTRA_BOOSTS_VERSION@ == "boosts_version"@,
        EXTRA_DEVTOOLS@ == "sta_devtools"@ && EXTRA_DEVTOOLS_SHIM@ == "sta_devtools_shim"@ && EXTRA_DEVTOOLS_TAB@ == "sta_devtools_tab"@,
        EXTRA_DEVTOOLS_ORIGINS@ == "sta_devtools_origins"@,
        MAX_PREVIEW_URL == 64 * 1024,
{
}

/// A browser is marked by what it is: of the shell, of the developer tools where they have their shim, of a tab, or
/// none of these.
pub proof fn a_browser_is_marked_by_what_it_is(devtools: bool, shim: bool, tab: bool)
    ensures
        mark_for(true, devtools, shim, tab) is Ui,
        mark_for(false, true, true, tab) is Frontend,
        mark_for(false, true, false, tab) is Other,
        mark_for(false, false, shim, true) is Tab,
        mark_for(false, false, shim, false) is Other,
{
}

/// A message goes to who it is for by its name, and any other to the router.
pub proof fn a_message_goes_by_its_name(name: Seq<char>)
    ensures
        receiver_of(MSG_BOOSTS@) is Boosts,
        MSG_DEVTOOLS_IN@ != MSG_BOOSTS@ ==> receiver_of(MSG_DEVTOOLS_IN@) is DevTools,
        name != MSG_BOOSTS@ && name != MSG_DEVTOOLS_IN@ ==> receiver_of(name) is Router,
{
}

} // verus!
