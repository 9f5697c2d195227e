//! Tab browsers and the content area.
//!
//! - registry: tab to wrapper panel, view and browser; browser to tab; browsers whose close is in
//!   progress;
//! - creating, replacing and destroying the browser of a tab. A close goes: close request, do-close,
//!   which posts [`detach`], which drops the last references, then before-close, which reports the tab
//!   as closed: at most once per tab and browser, never for the old browser of a replacement; a failed
//!   replacement closes the old browser and reports the tab;
//! - popup adoption, the content layout, page fullscreen, the hand-off of a view to the Peek overlay,
//!   zoom steps.
//!
//! [`Tabs`] is the state; its functions say what has to be done ([`Effect`]). Panels and views are
//! known by numbers; what creating one gave is handed back to the function that goes on from there.
//! [`Model`] is the state as mathematics, and every step is a function on it.
use crate::json::{json_quoted, json_string};
use crate::keys::{ascending_u64, keys_u64, lists_keys_u64};
use crate::rect::Rect;
use crate::renderer::{boosts_version, texts_hash, BoostData};
use crate::text::{copy_text, hex, same_text, trim_text, trimmed};
use std::collections::{HashMap, HashSet, VecDeque};
use vstd::prelude::*;

verus! {

broadcast use vstd::std_specs::hash::group_hash_axioms;

/// Wrapper inset: the accent border of the focused split pane.
pub const WRAPPER_BORDER: i32 = 2;

/// Gap between split panes.
pub const SPLIT_SPACING: i32 = 6;

// ------------------------------------------------------------------------------ state

/// A tab with a browser, or on the way to one.
#[derive(Debug, Clone, Copy, PartialEq, Eq, Structural)]
pub struct TabEntry {
    pub wrapper: u64,
    pub view: Option<u64>,
    pub browser_id: Option<i32>,
    pub internal: bool,
    /// The view sits in the Peek overlay.
    pub in_peek: bool,
}

/// A browser whose close was requested and that is not gone yet.
#[derive(Debug, Clone, Copy, PartialEq, Eq, Structural)]
pub struct Closing {
    pub tab: u64,
    /// It was replaced: it is not reported, and the tab entry stays.
    pub silent: bool,
    /// The view that is kept until the detach (replaced browsers only).
    pub view: Option<u64>,
    pub detached: bool,
}

/// The tab that is shown in page fullscreen.
#[derive(Debug, Clone, Copy, PartialEq, Eq, Structural)]
pub struct Fullscreen {
    pub tab: u64,
    /// Its view was taken out of the Peek overlay for it.
    pub from_peek: bool,
}

/// A pane of a split.
#[derive(Debug, Clone, Copy, PartialEq, Eq, Structural)]
pub struct Pane {
    pub tab: u64,
    /// Its share in thousandths, rounded; `None` where the share is no number.
    pub share: Option<i32>,
}

/// What the content area shows.
pub enum Layout {
    Empty,
    Single { tab: u64 },
    Split { horizontal: bool, panes: Vec<Pane>, focused: usize },
}

/// A [`Layout`] over a sequence.
#[verifier::ext_equal]
pub enum LayoutModel {
    Empty,
    Single { tab: u64 },
    Split { horizontal: bool, panes: Seq<Pane>, focused: int },
}

impl View for Layout {
    type V = LayoutModel;

    open spec fn view(&self) -> LayoutModel {
        match *self {
            Layout::Empty => LayoutModel::Empty,
            Layout::Single { tab } => LayoutModel::Single { tab },
            Layout::Split { horizontal, panes, focused } => LayoutModel::Split { horizontal, panes: panes@, focused: focused as int },
        }
    }
}

/// The registry.
pub struct Tabs {
    pub tabs: HashMap<u64, TabEntry>,
    pub by_browser: HashMap<i32, u64>,
    pub closing: HashMap<i32, Closing>,
    pub shown: Layout,
    /// The base color of each wrapper.
    pub colors: HashMap<u64, u32>,
    /// The browsers of each tab whose close was reported (browser -1: there was none).
    pub reported: HashMap<u64, HashSet<i32>>,
    pub fullscreen: Option<Fullscreen>,
    /// The last zoom level that was reported for each tab.
    pub zoom: HashMap<u64, u64>,
}

/// The registry as mathematics.
#[verifier::ext_equal]
pub struct Model {
    pub tabs: Map<u64, TabEntry>,
    pub by_browser: Map<i32, u64>,
    pub closing: Map<i32, Closing>,
    pub shown: LayoutModel,
    pub colors: Map<u64, u32>,
    /// Tab and browser of each close that was reported.
    pub reported: Set<(u64, i32)>,
    pub fullscreen: Option<Fullscreen>,
    pub zoom: Map<u64, u64>,
}

impl View for Tabs {
    type V = Model;

    open spec fn view(&self) -> Model {
        Model {
            tabs: self.tabs@,
            by_browser: self.by_browser@,
            closing: self.closing@,
            shown: self.shown@,
            colors: self.colors@,
            reported: pairs(self.reported@),
            fullscreen: self.fullscreen,
            zoom: self.zoom@,
        }
    }
}

/// What the registry needs to know about the window around it.
pub struct Around {
    /// The content panel exists.
    pub content: bool,
    /// The view of the empty state exists.
    pub empty: bool,
    /// A box layout can be set.
    pub box_layout: bool,
    pub frame: u32,
    pub accent: u32,
    pub surface: u32,
    /// The tab whose view the Peek overlay holds, and the view.
    pub peek: Option<(u64, u64)>,
    /// The frame color of each tab that an agent acts on.
    pub agents: HashMap<u64, u32>,
}

/// What has to be done.
#[derive(Debug, Clone, Copy, PartialEq, Eq, Structural)]
pub enum Effect {
    /// Report that the browser of a tab was created.
    Created { tab: u64 },
    /// Report that the browser of a tab is closed.
    Closed { tab: u64 },
    /// Give a browser the role of a tab.
    SetRole { browser: i32, tab: u64 },
    /// The browser that the tab's developer tools inspect is going away.
    InspectedGone { tab: u64 },
    /// Mute a browser.
    Mute { browser: i32 },
    /// Close a browser by force.
    CloseBrowser { browser: i32 },
    /// Run [`detach`] in a task of its own.
    DetachLater { browser: i32 },
    /// Take the view of a tab back from the Peek overlay.
    TakeBack { tab: u64 },
    /// Show a tab in the Peek overlay.
    ShowPeek { tab: u64 },
    /// Put a view where the page of a tab belongs: its developer tools' stack, else its wrapper.
    AddToPage { tab: u64, wrapper: u64, view: u64 },
    /// Add a view to a wrapper.
    AddChild { wrapper: u64, view: u64 },
    /// Remove a view from a wrapper.
    RemoveChild { wrapper: u64, view: u64 },
    /// Remove a view from whatever panel holds it.
    Detach { view: u64 },
    /// Let go of a view.
    DropView { view: u64 },
    /// Add a wrapper to the content panel.
    AddWrapper { wrapper: u64 },
    /// A popup was adopted as a tab, opened by this tab: report the [`Adoption`], and then tell whoever
    /// guards the agents' tabs.
    Adopted { tab: u64, opener: Option<u64> },
    /// Remove a wrapper from the content panel and let go of it.
    RemoveWrapper { wrapper: u64 },
    PaintWrapper { wrapper: u64, color: u32 },
    PaintView { view: u64, color: u32 },
    SetInsets { wrapper: u64, inset: i32 },
    ShowWrapper { wrapper: u64, visible: bool },
    ShowView { view: u64, visible: bool },
    /// Show the view of the empty state, and let it take the whole area, or take it away.
    ShowEmpty { visible: bool },
    /// Set the layout of the content panel.
    SetBox { horizontal: bool, spacing: i32 },
    Reorder { wrapper: u64, index: usize },
    Flex { wrapper: u64, flex: i32 },
    LayoutContent,
    /// Lay the developer tools of a tab out again.
    RelayoutTools { tab: u64 },
    /// Lay all developer tools out again.
    RelayoutAllTools,
    LayoutMasks,
    LayoutOverlays,
    /// See to it that the focus does not stay in a hidden tab.
    RescueFocus,
    Focus { view: u64 },
}

/// `r` after the effects `e`.
pub open spec fn after(e: Seq<Effect>, r: (Model, Seq<Effect>)) -> (Model, Seq<Effect>) {
    (r.0, e + r.1)
}

/// The tabs of a layout, in order.
pub open spec fn tabs_of(layout: LayoutModel) -> Seq<u64> {
    match layout {
        LayoutModel::Empty => Seq::empty(),
        LayoutModel::Single { tab } => seq![tab],
        LayoutModel::Split { horizontal, panes, focused } => panes.map_values(|p: Pane| p.tab),
    }
}

/// How much of the area a pane takes: its share, at least one thousandth; half where it has none.
pub open spec fn flex_of(share: Option<i32>) -> i32 {
    let flex = match share {
        Some(n) => n,
        None => 500,
    };
    if flex < 1 { 1 } else { flex }
}

/// The panes of a layout: tab, flex and color.
pub open spec fn panes_of(layout: LayoutModel, frame: u32, accent: u32) -> Seq<(u64, i32, u32)> {
    match layout {
        LayoutModel::Empty => Seq::empty(),
        LayoutModel::Single { tab } => seq![(tab, 1i32, frame)],
        LayoutModel::Split { horizontal, panes, focused } => Seq::new(
            panes.len(),
            |i: int| (panes[i].tab, flex_of(panes[i].share), if i == focused { accent } else { frame }),
        ),
    }
}

/// One of the panes is the tab's.
pub open spec fn has_pane(panes: Seq<(u64, i32, u32)>, tab: u64) -> bool {
    exists|i: int| 0 <= i < panes.len() && (#[trigger] panes[i]).0 == tab
}

/// The view of a tab that the Peek overlay holds.
pub open spec fn held_view(a: Around, tab: u64) -> Option<u64> {
    match a.peek {
        Some(held) => if held.0 == tab { Some(held.1) } else { None },
        None => None,
    }
}

/// Each tab with each of its browsers.
pub open spec fn pairs(by_tab: Map<u64, HashSet<i32>>) -> Set<(u64, i32)> {
    Set::new(|k: (u64, i32)| by_tab.contains_key(k.0) && by_tab[k.0]@.contains(k.1))
}

/// The close reports of other tabs.
pub open spec fn without_tab(reported: Set<(u64, i32)>, tab: u64) -> Set<(u64, i32)> {
    reported.filter(|k: (u64, i32)| k.0 != tab)
}

impl Model {
    /// The view of a tab sits in the Peek overlay.
    pub open spec fn in_peek(self, tab: u64) -> bool {
        self.tabs.contains_key(tab) && self.tabs[tab].in_peek
    }

    /// The tab is shown in page fullscreen.
    pub open spec fn is_fullscreen(self, tab: u64) -> bool {
        self.fullscreen is Some && self.fullscreen->0.tab == tab
    }

    /// The color that a wrapper shows for its base color: the agent frame while an agent acts on the
    /// tab, except in page fullscreen.
    pub open spec fn shown_color(self, a: Around, tab: u64, base: u32) -> u32 {
        if !self.is_fullscreen(tab) && a.agents@.contains_key(tab) { a.agents@[tab] } else { base }
    }

    /// The background of the view of a tab: its wrapper's color as shown, the card surface while it
    /// sits in Peek.
    pub open spec fn background(self, a: Around, tab: u64) -> u32 {
        if self.in_peek(tab) {
            a.surface
        } else {
            self.shown_color(a, tab, if self.colors.contains_key(tab) { self.colors[tab] } else { a.frame })
        }
    }

    /// A wrapper gets a base color, and the view of its tab follows.
    pub open spec fn painted(self, a: Around, tab: u64, wrapper: u64, color: u32) -> (Model, Seq<Effect>) {
        let m = Model { colors: self.colors.insert(tab, color), ..self };
        let first = seq![(Effect::PaintWrapper { wrapper, color: m.shown_color(a, tab, color) })];
        (
            m,
            if self.tabs.contains_key(tab) && self.tabs[tab].view is Some {
                first.push((Effect::PaintView { view: self.tabs[tab].view->0, color: m.background(a, tab) }))
            } else {
                first
            },
        )
    }

    /// The close of a browser is reported, once.
    pub open spec fn reporting(self, tab: u64, browser: Option<i32>) -> (Model, Seq<Effect>) {
        let key = (
            tab,
            match browser {
                Some(b) => b,
                None => -1i32,
            },
        );
        if self.reported.contains(key) {
            (self, Seq::empty())
        } else {
            (Model { reported: self.reported.insert(key), ..self }, seq![(Effect::Closed { tab })])
        }
    }

    /// A new browser generation of a tab: its old close reports and zoom are forgotten.
    pub open spec fn new_generation(self, tab: u64) -> Model {
        Model { reported: without_tab(self.reported, tab), zoom: self.zoom.remove(tab), ..self }
    }

    /// The view of a tab is back from the Peek overlay.
    pub open spec fn returned(self, a: Around, tab: u64, view: u64) -> (Model, Seq<Effect>) {
        if self.tabs.contains_key(tab) {
            let m = Model { tabs: self.tabs.insert(tab, (TabEntry { in_peek: false, ..self.tabs[tab] })), ..self };
            (
                m,
                seq![
                    (Effect::Detach { view }),
                    (Effect::AddToPage { tab, wrapper: self.tabs[tab].wrapper, view }),
                    (Effect::PaintView { view, color: m.background(a, tab) }),
                    (Effect::RelayoutTools { tab }),
                ],
            )
        } else {
            (self, Seq::empty())
        }
    }

    /// The view of a tab, if it sits in the Peek overlay, goes back into its wrapper.
    pub open spec fn home(self, a: Around, tab: u64) -> (Model, Seq<Effect>) {
        match held_view(a, tab) {
            Some(view) => if self.in_peek(tab) {
                after(seq![(Effect::TakeBack { tab })], self.returned(a, tab, view))
            } else {
                (self, Seq::empty())
            },
            None => (self, Seq::empty()),
        }
    }

    /// The views of the tabs from position `i` on go back into their wrappers.
    pub open spec fn all_home(self, a: Around, tabs: Seq<u64>, i: int) -> (Model, Seq<Effect>)
        decreases tabs.len() - i,
    {
        if i < 0 || i >= tabs.len() {
            (self, Seq::empty())
        } else {
            let one = self.home(a, tabs[i]);
            after(one.1, one.0.all_home(a, tabs, i + 1))
        }
    }

    /// The wrappers from position `i` on that have no pane are taken away.
    pub open spec fn others_away(self, a: Around, ids: Seq<u64>, panes: Seq<(u64, i32, u32)>, i: int) -> (Model, Seq<Effect>)
        decreases ids.len() - i,
    {
        if i < 0 || i >= ids.len() {
            (self, Seq::empty())
        } else if has_pane(panes, ids[i]) {
            self.others_away(a, ids, panes, i + 1)
        } else {
            let wrapper = self.tabs[ids[i]].wrapper;
            let off = seq![(Effect::ShowWrapper { wrapper, visible: false })];
            if self.colors.contains_key(ids[i]) && self.colors[ids[i]] == a.frame {
                after(off, self.others_away(a, ids, panes, i + 1))
            } else {
                let one = self.painted(a, ids[i], wrapper, a.frame);
                after(off + one.1, one.0.others_away(a, ids, panes, i + 1))
            }
        }
    }

    /// The panes from position `i` on are shown.
    pub open spec fn panes_shown(self, a: Around, panes: Seq<(u64, i32, u32)>, i: int) -> (Model, Seq<Effect>)
        decreases panes.len() - i,
    {
        if i < 0 || i >= panes.len() {
            (self, Seq::empty())
        } else if !self.tabs.contains_key(panes[i].0) {
            self.panes_shown(a, panes, i + 1)
        } else {
            let wrapper = self.tabs[panes[i].0].wrapper;
            let one = self.painted(a, panes[i].0, wrapper, panes[i].2);
            after(
                seq![(Effect::Reorder { wrapper, index: i as usize }), (Effect::Flex { wrapper, flex: panes[i].1 })] + one.1 + seq![
                    (Effect::ShowWrapper { wrapper, visible: true }),
                ],
                one.0.panes_shown(a, panes, i + 1),
            )
        }
    }

    /// The content area shows a layout.
    pub open spec fn laid_out(self, a: Around, layout: LayoutModel) -> (Model, Seq<Effect>) {
        if !a.content {
            (self, Seq::empty())
        } else {
            let home = self.all_home(a, tabs_of(layout), 0);
            let set = home.1.push(
                match layout {
                    LayoutModel::Split { horizontal, panes, focused } => (Effect::SetBox { horizontal, spacing: SPLIT_SPACING }),
                    _ => (Effect::SetBox { horizontal: true, spacing: 0 }),
                },
            );
            if !a.box_layout {
                (home.0, set)
            } else {
                let panes = panes_of(layout, a.frame, a.accent);
                let empty = if a.empty { set.push((Effect::ShowEmpty { visible: layout is Empty })) } else { set };
                let away = home.0.others_away(a, ascending_u64(home.0.tabs), panes, 0);
                let shown = away.0.panes_shown(a, panes, 0);
                (shown.0, empty + away.1 + shown.1 + seq![
                    Effect::LayoutContent,
                    Effect::RelayoutAllTools,
                    Effect::LayoutMasks,
                    Effect::LayoutOverlays,
                    Effect::RescueFocus,
                ])
            }
        }
    }

    /// The wrappers from position `i` on, in page fullscreen: only the tab's is shown.
    pub open spec fn only_shown(self, a: Around, ids: Seq<u64>, tab: u64, i: int) -> (Model, Seq<Effect>)
        decreases ids.len() - i,
    {
        if i < 0 || i >= ids.len() {
            (self, Seq::empty())
        } else {
            let wrapper = self.tabs[ids[i]].wrapper;
            if ids[i] == tab {
                let one = self.painted(a, tab, wrapper, a.frame);
                after(
                    seq![(Effect::SetInsets { wrapper, inset: 0 })] + one.1 + seq![
                        (Effect::Flex { wrapper, flex: 1 }),
                        (Effect::ShowWrapper { wrapper, visible: true }),
                    ],
                    one.0.only_shown(a, ids, tab, i + 1),
                )
            } else {
                after(seq![(Effect::ShowWrapper { wrapper, visible: false })], self.only_shown(a, ids, tab, i + 1))
            }
        }
    }

    /// The content area shows one tab in page fullscreen.
    pub open spec fn filled(self, a: Around, tab: u64) -> (Model, Seq<Effect>) {
        if !a.content {
            (self, Seq::empty())
        } else {
            let home = self.home(a, tab);
            let set = home.1.push((Effect::SetBox { horizontal: true, spacing: 0 }));
            if !a.box_layout {
                (home.0, set)
            } else {
                let empty = if a.empty { set.push((Effect::ShowEmpty { visible: false })) } else { set };
                let only = home.0.only_shown(a, ascending_u64(home.0.tabs), tab, 0);
                (only.0, empty + only.1 + seq![
                    Effect::LayoutContent,
                    Effect::RelayoutAllTools,
                    Effect::LayoutMasks,
                    Effect::LayoutOverlays,
                ])
            }
        }
    }

    /// The fullscreen state ends if it is the tab's.
    pub open spec fn unfilled(self, tab: u64) -> (Model, Seq<Effect>) {
        if self.is_fullscreen(tab) {
            (
                Model { fullscreen: None, ..self },
                if self.tabs.contains_key(tab) {
                    seq![(Effect::SetInsets { wrapper: self.tabs[tab].wrapper, inset: WRAPPER_BORDER })]
                } else {
                    Seq::empty()
                },
            )
        } else {
            (self, Seq::empty())
        }
    }

    /// The browser of the fullscreen tab is gone: the last layout is shown again.
    pub open spec fn unfilled_removed(self, a: Around, tab: u64) -> (Model, Seq<Effect>) {
        let one = self.unfilled(tab);
        if self.is_fullscreen(tab) { after(one.1, one.0.laid_out(a, one.0.shown)) } else { one }
    }

    /// A layout is to be shown.
    pub open spec fn showing(self, a: Around, layout: LayoutModel) -> (Model, Seq<Effect>) {
        let m = Model { shown: layout, ..self };
        match self.fullscreen {
            None => m.laid_out(a, layout),
            Some(fs) => if self.tabs.contains_key(fs.tab) && (fs.from_peek || tabs_of(layout).contains(fs.tab)) {
                m.filled(a, fs.tab)
            } else {
                let one = m.unfilled(fs.tab);
                after(one.1, one.0.laid_out(a, layout))
            },
        }
    }

    /// The tab is visible in the content area or in a visible Peek.
    pub open spec fn on_screen(self, tab: u64, peek_visible: bool) -> bool {
        if self.in_peek(tab) {
            peek_visible
        } else {
            tabs_of(self.shown).contains(tab) || self.is_fullscreen(tab)
        }
    }

    /// The tab that has the focus although it is hidden.
    pub open spec fn stuck(self, focused: Option<u64>, peek_visible: bool) -> Option<u64> {
        match focused {
            Some(tab) => if self.on_screen(tab, peek_visible) { None } else { Some(tab) },
            None => None,
        }
    }

    /// The view of a tab gets the focus.
    pub open spec fn focused(self, tab: u64) -> Seq<Effect> {
        if self.tabs.contains_key(tab) && self.tabs[tab].view is Some {
            seq![(Effect::Focus { view: self.tabs[tab].view->0 })]
        } else {
            Seq::empty()
        }
    }

    /// A tab goes into page fullscreen, or the last layout comes back.
    pub open spec fn page_fullscreen(self, a: Around, tab: Option<u64>) -> (Model, Seq<Effect>) {
        match tab {
            Some(t) => if !self.tabs.contains_key(t) {
                (self, Seq::empty())
            } else {
                let ended = match self.fullscreen {
                    Some(f) => if f.tab != t { self.unfilled(f.tab) } else { (self, Seq::empty()) },
                    None => (self, Seq::empty()),
                };
                let from_peek = ended.0.in_peek(t) || (ended.0.is_fullscreen(t) && ended.0.fullscreen->0.from_peek);
                let m = Model { fullscreen: Some((Fullscreen { tab: t, from_peek })), ..ended.0 };
                let filled = m.filled(a, t);
                (filled.0, ended.1 + filled.1 + filled.0.focused(t))
            },
            None => match self.fullscreen {
                None => self.laid_out(a, self.shown),
                Some(fs) => {
                    let ended = self.unfilled(fs.tab);
                    let laid = ended.0.laid_out(a, self.shown);
                    let exists = laid.0.tabs.contains_key(fs.tab);
                    (laid.0, ended.1 + laid.1 + (if fs.from_peek && exists && !tabs_of(self.shown).contains(fs.tab) {
                        seq![(Effect::ShowPeek { tab: fs.tab })]
                    } else if exists {
                        laid.0.focused(fs.tab)
                    } else {
                        Seq::empty()
                    }))
                },
            },
        }
    }

    /// The entry of a tab whose browser never came to life is removed.
    pub open spec fn removed(self, a: Around, tab: u64) -> (Model, Seq<Effect>) {
        let m = Model { tabs: self.tabs.remove(tab), colors: self.colors.remove(tab), zoom: self.zoom.remove(tab), ..self };
        let ended = m.unfilled_removed(a, tab);
        if self.tabs.contains_key(tab) {
            (ended.0, ended.1 + gone(self.tabs[tab]))
        } else {
            ended
        }
    }
}

/// The view and the wrapper of a removed entry leave the window.
pub open spec fn gone(e: TabEntry) -> Seq<Effect> {
    (match e.view {
        Some(view) => seq![(Effect::Detach { view })],
        None => Seq::empty(),
    }).push((Effect::RemoveWrapper { wrapper: e.wrapper }))
}

// ------------------------------------------------------------------------------ colors

/// The color that a wrapper shows for its base color.
pub fn shown_wrapper_color(state: &Tabs, a: &Around, tab: u64, base: u32) -> (r: u32)
    ensures
        r == state@.shown_color(*a, tab, base),
{
    let full = match state.fullscreen {
        Some(f) => f.tab == tab,
        None => false,
    };
    if full {
        return base;
    }
    match a.agents.get(&tab) {
        Some(color) => *color,
        None => base,
    }
}

/// The background of the view of a tab.
pub fn view_background(state: &Tabs, a: &Around, tab: u64) -> (r: u32)
    ensures
        r == state@.background(*a, tab),
{
    if is_in_peek(state, tab) {
        return a.surface;
    }
    let base: u32 = match state.colors.get(&tab) {
        Some(color) => *color,
        None => a.frame,
    };
    shown_wrapper_color(state, a, tab, base)
}

/// Sets the base color of a wrapper and paints it; the view of the tab follows.
pub fn set_wrapper_color(state: &mut Tabs, a: &Around, tab: u64, wrapper: u64, color: u32, out: &mut Vec<Effect>)
    ensures
        final(state)@ == old(state)@.painted(*a, tab, wrapper, color).0,
        final(out)@ == old(out)@ + old(state)@.painted(*a, tab, wrapper, color).1,
{
    state.colors.insert(tab, color);
    proof {
        assert(state@ =~= old(state)@.painted(*a, tab, wrapper, color).0);
    }
    out.push(Effect::PaintWrapper { wrapper, color: shown_wrapper_color(state, a, tab, color) });
    match view_for_tab(state, tab) {
        Some(view) => out.push(Effect::PaintView { view, color: view_background(state, a, tab) }),
        None => {},
    }
    proof {
        assert(out@ =~= old(out)@ + old(state)@.painted(*a, tab, wrapper, color).1);
    }
}

/// Applies the color of a wrapper again after the agent frame of the tab changed: the wrapper, its
/// view's background and, when the tab is on screen, the ring of its corner masks.
pub fn refresh_wrapper_color(state: &mut Tabs, a: &Around, tab: u64) -> (r: Vec<Effect>)
    ensures
        ({
            let m = old(state)@;
            if m.tabs.contains_key(tab) && m.colors.contains_key(tab) {
                let one = m.painted(*a, tab, m.tabs[tab].wrapper, m.colors[tab]);
                &&& final(state)@ == one.0
                &&& r@ == (if tabs_of(m.shown).contains(tab) { one.1.push(Effect::LayoutMasks) } else { one.1 })
            } else {
                final(state)@ == m && r@.len() == 0
            }
        }),
{
    let mut out: Vec<Effect> = Vec::new();
    let wrapper = wrapper_of(state, tab);
    let color: Option<u32> = match state.colors.get(&tab) {
        Some(c) => Some(*c),
        None => None,
    };
    match (wrapper, color) {
        (Some(w), Some(c)) => {
            set_wrapper_color(state, a, tab, w, c, &mut out);
            if shows(&state.shown, tab) {
                out.push(Effect::LayoutMasks);
            }
        },
        _ => {},
    }
    proof {
        let m = old(state)@;
        if m.tabs.contains_key(tab) && m.colors.contains_key(tab) {
            let one = m.painted(*a, tab, m.tabs[tab].wrapper, m.colors[tab]);
            assert(out@ =~= (if tabs_of(m.shown).contains(tab) { one.1.push(Effect::LayoutMasks) } else { one.1 }));
        }
    }
    out
}

// ------------------------------------------------------------------------------ lookups

/// The tab of a browser.
pub fn tab_for_browser(state: &Tabs, browser_id: i32) -> (r: Option<u64>)
    ensures
        r == (if state@.by_browser.contains_key(browser_id) { Some(state@.by_browser[browser_id]) } else { None }),
{
    match state.by_browser.get(&browser_id) {
        Some(tab) => Some(*tab),
        None => None,
    }
}

/// The browser of a tab.
pub fn browser_for_tab(state: &Tabs, tab: u64) -> (r: Option<i32>)
    ensures
        r == (if state@.tabs.contains_key(tab) { state@.tabs[tab].browser_id } else { None }),
{
    match state.tabs.get(&tab) {
        Some(e) => e.browser_id,
        None => None,
    }
}

/// The view of a tab (in its wrapper or in the Peek overlay).
pub fn view_for_tab(state: &Tabs, tab: u64) -> (r: Option<u64>)
    ensures
        r == (if state@.tabs.contains_key(tab) { state@.tabs[tab].view } else { None }),
{
    match state.tabs.get(&tab) {
        Some(e) => e.view,
        None => None,
    }
}

/// The wrapper of a tab.
pub fn wrapper_of(state: &Tabs, tab: u64) -> (r: Option<u64>)
    ensures
        r == (if state@.tabs.contains_key(tab) { Some(state@.tabs[tab].wrapper) } else { None }),
{
    match state.tabs.get(&tab) {
        Some(e) => Some(e.wrapper),
        None => None,
    }
}

/// The view of a tab sits in the Peek overlay.
pub fn is_in_peek(state: &Tabs, tab: u64) -> (r: bool)
    ensures
        r == state@.in_peek(tab),
{
    match state.tabs.get(&tab) {
        Some(e) => e.in_peek,
        None => false,
    }
}

/// The close of a browser is in progress.
pub fn is_closing_browser(state: &Tabs, browser_id: i32) -> (r: bool)
    ensures
        r == state@.closing.contains_key(browser_id),
{
    state.closing.contains_key(&browser_id)
}

/// A layout shows a tab.
pub fn shows(layout: &Layout, tab: u64) -> (r: bool)
    ensures
        r == tabs_of(layout@).contains(tab),
{
    match layout {
        Layout::Empty => false,
        Layout::Single { tab: t } => {
            proof {
                let tabs = tabs_of(layout@);
                assert(tabs[0] == *t);
            }
            *t == tab
        },
        Layout::Split { horizontal: _, panes, focused: _ } => {
            let ghost tabs = tabs_of(layout@);
            let mut i: usize = 0;
            while i < panes.len()
                invariant
                    i <= panes@.len(),
                    tabs == tabs_of(layout@),
                    tabs == panes@.map_values(|p: Pane| p.tab),
                    forall|k: int| 0 <= k < i ==> panes@[k].tab != tab,
                decreases panes@.len() - i,
            {
                if panes[i].tab == tab {
                    proof {
                        assert(tabs[i as int] == tab);
                    }
                    return true;
                }
                i = i + 1;
            }
            false
        },
    }
}

/// The tab is visible in the content area or in a visible Peek.
pub fn is_tab_visible(state: &Tabs, tab: u64, peek_visible: bool) -> (r: bool)
    ensures
        r == state@.on_screen(tab, peek_visible),
{
    if is_in_peek(state, tab) {
        return peek_visible;
    }
    let full = match state.fullscreen {
        Some(f) => f.tab == tab,
        None => false,
    };
    shows(&state.shown, tab) || full
}

/// The focus must not stay in a tab that is hidden: a hidden page hands no keys back. `focused`: the tab
/// that has the focus. The hidden tab that has it: the focus is looked at again once the other effects
/// were performed, see [`focus_leaves`].
pub fn rescue_focus_from_hidden_tab(state: &Tabs, focused: Option<u64>, peek_visible: bool) -> (r: Option<u64>)
    ensures
        r == state@.stuck(focused, peek_visible),
{
    match focused {
        Some(tab) => if is_tab_visible(state, tab, peek_visible) { None } else { Some(tab) },
        None => None,
    }
}

/// The focus is looked at again: whether it goes back to the main window, out of a tab that is hidden.
pub fn focus_leaves(state: &Tabs, focused: Option<u64>, peek_visible: bool, window_closing: bool) -> (r: bool)
    ensures
        r == (!window_closing && state@.stuck(focused, peek_visible) is Some),
{
    !window_closing && rescue_focus_from_hidden_tab(state, focused, peek_visible).is_some()
}

// ------------------------------------------------------------------------------ content

fn layout_tabs(layout: &Layout) -> (r: Vec<u64>)
    ensures
        r@ == tabs_of(layout@),
{
    let mut out: Vec<u64> = Vec::new();
    match layout {
        Layout::Empty => {},
        Layout::Single { tab } => out.push(*tab),
        Layout::Split { horizontal: _, panes, focused: _ } => {
            let mut i: usize = 0;
            while i < panes.len()
                invariant
                    i <= panes@.len(),
                    out@ == panes@.take(i as int).map_values(|p: Pane| p.tab),
                decreases panes@.len() - i,
            {
                out.push(panes[i].tab);
                i = i + 1;
                proof {
                    assert(out@ =~= panes@.take(i as int).map_values(|p: Pane| p.tab));
                }
            }
            proof {
                assert(panes@.take(i as int) =~= panes@);
            }
        },
    }
    proof {
        assert(out@ =~= tabs_of(layout@));
    }
    out
}

fn copy_layout(layout: &Layout) -> (r: Layout)
    ensures
        r@ == layout@,
{
    match layout {
        Layout::Empty => Layout::Empty,
        Layout::Single { tab } => Layout::Single { tab: *tab },
        Layout::Split { horizontal, panes, focused } => {
            let mut copy: Vec<Pane> = Vec::new();
            let mut i: usize = 0;
            while i < panes.len()
                invariant
                    i <= panes@.len(),
                    copy@ == panes@.take(i as int),
                decreases panes@.len() - i,
            {
                copy.push(panes[i]);
                i = i + 1;
                proof {
                    assert(copy@ =~= panes@.take(i as int));
                }
            }
            proof {
                assert(copy@ =~= panes@);
            }
            Layout::Split { horizontal: *horizontal, panes: copy, focused: *focused }
        },
    }
}

fn layout_panes(layout: &Layout, frame: u32, accent: u32) -> (r: Vec<(u64, i32, u32)>)
    ensures
        r@ == panes_of(layout@, frame, accent),
{
    let mut out: Vec<(u64, i32, u32)> = Vec::new();
    match layout {
        Layout::Empty => {},
        Layout::Single { tab } => out.push((*tab, 1, frame)),
        Layout::Split { horizontal: _, panes, focused } => {
            let ghost whole = panes_of(layout@, frame, accent);
            let mut i: usize = 0;
            while i < panes.len()
                invariant
                    i <= panes@.len(),
                    whole == Seq::new(
                        panes@.len(),
                        |i: int| (panes@[i].tab, flex_of(panes@[i].share), if i == *focused as int { accent } else { frame }),
                    ),
                    out@ == whole.take(i as int),
                decreases panes@.len() - i,
            {
                let flex: i32 = match panes[i].share {
                    Some(n) => n,
                    None => 500,
                };
                out.push((panes[i].tab, if flex < 1 { 1 } else { flex }, if i == *focused { accent } else { frame }));
                i = i + 1;
                proof {
                    assert(out@ =~= whole.take(i as int));
                }
            }
            proof {
                assert(whole.take(i as int) =~= whole);
            }
        },
    }
    proof {
        assert(out@ =~= panes_of(layout@, frame, accent));
    }
    out
}

fn pane_of(panes: &Vec<(u64, i32, u32)>, tab: u64) -> (r: bool)
    ensures
        r == has_pane(panes@, tab),
{
    let mut i: usize = 0;
    while i < panes.len()
        invariant
            i <= panes@.len(),
            forall|k: int| 0 <= k < i ==> (#[trigger] panes@[k]).0 != tab,
        decreases panes@.len() - i,
    {
        if panes[i].0 == tab {
            return true;
        }
        i = i + 1;
    }
    false
}

/// Puts a view that was taken with [`take_view_for_peek`] back into its wrapper.
pub fn return_view_from_peek(state: &mut Tabs, a: &Around, tab: u64, view: u64, out: &mut Vec<Effect>)
    ensures
        final(state)@ == old(state)@.returned(*a, tab, view).0,
        final(out)@ == old(out)@ + old(state)@.returned(*a, tab, view).1,
{
    let entry: Option<TabEntry> = match state.tabs.get(&tab) {
        Some(e) => Some(*e),
        None => None,
    };
    match entry {
        Some(e) => {
            state.tabs.insert(tab, TabEntry { in_peek: false, ..e });
            proof {
                assert(state@ =~= old(state)@.returned(*a, tab, view).0);
            }
            out.push(Effect::Detach { view });
            out.push(Effect::AddToPage { tab, wrapper: e.wrapper, view });
            out.push(Effect::PaintView { view, color: view_background(state, a, tab) });
            out.push(Effect::RelayoutTools { tab });
        },
        None => {},
    }
    proof {
        assert(out@ =~= old(out)@ + old(state)@.returned(*a, tab, view).1);
    }
}

fn bring_home(state: &mut Tabs, a: &Around, tab: u64, out: &mut Vec<Effect>)
    ensures
        final(state)@ == old(state)@.home(*a, tab).0,
        final(out)@ == old(out)@ + old(state)@.home(*a, tab).1,
{
    if is_in_peek(state, tab) {
        match a.peek {
            Some(held) => {
                if held.0 == tab {
                    out.push(Effect::TakeBack { tab });
                    return_view_from_peek(state, a, tab, held.1, out);
                }
            },
            None => {},
        }
    }
    proof {
        assert(out@ =~= old(out)@ + old(state)@.home(*a, tab).1);
    }
}

/// Shows a layout in the content area.
pub fn apply_layout(state: &mut Tabs, a: &Around, layout: &Layout, out: &mut Vec<Effect>)
    ensures
        final(state)@ == old(state)@.laid_out(*a, layout@).0,
        final(out)@ == old(out)@ + old(state)@.laid_out(*a, layout@).1,
{
    if !a.content {
        proof {
            assert(out@ =~= old(out)@ + Seq::<Effect>::empty());
        }
        return;
    }
    // Views that sit in Peek go back into their wrappers first.
    let tabs = layout_tabs(layout);
    let ghost home = old(state)@.all_home(*a, tabs@, 0);
    all_home(state, a, &tabs, out);
    out.push(
        match layout {
            Layout::Split { horizontal, panes: _, focused: _ } => Effect::SetBox { horizontal: *horizontal, spacing: SPLIT_SPACING },
            _ => Effect::SetBox { horizontal: true, spacing: 0 },
        },
    );
    if !a.box_layout {
        proof {
            assert(out@ =~= old(out)@ + old(state)@.laid_out(*a, layout@).1);
        }
        return;
    }
    let panes = layout_panes(layout, a.frame, a.accent);
    if a.empty {
        let visible = match layout {
            Layout::Empty => true,
            _ => false,
        };
        out.push(Effect::ShowEmpty { visible });
    }
    let ids = keys_u64(&state.tabs);
    let ghost away = home.0.others_away(*a, ids@, panes@, 0);
    others_away(state, a, &ids, &panes, out);
    panes_shown(state, a, &panes, out);
    out.push(Effect::LayoutContent);
    out.push(Effect::RelayoutAllTools);
    out.push(Effect::LayoutMasks);
    out.push(Effect::LayoutOverlays);
    out.push(Effect::RescueFocus);
    proof {
        assert(out@ =~= old(out)@ + old(state)@.laid_out(*a, layout@).1);
    }
}

fn all_home(state: &mut Tabs, a: &Around, tabs: &Vec<u64>, out: &mut Vec<Effect>)
    ensures
        final(state)@ == old(state)@.all_home(*a, tabs@, 0).0,
        final(out)@ == old(out)@ + old(state)@.all_home(*a, tabs@, 0).1,
{
    let ghost whole = after(old(out)@, old(state)@.all_home(*a, tabs@, 0));
    let mut i: usize = 0;
    while i < tabs.len()
        invariant
            i <= tabs@.len(),
            whole == after(out@, state@.all_home(*a, tabs@, i as int)),
        decreases tabs@.len() - i,
    {
        let ghost before = out@;
        let ghost one = state@.home(*a, tabs@[i as int]);
        let ghost rest = one.0.all_home(*a, tabs@, i + 1);
        bring_home(state, a, tabs[i], out);
        proof {
            assert(before + (one.1 + rest.1) =~= out@ + rest.1);
        }
        i = i + 1;
    }
    proof {
        assert(out@ + Seq::<Effect>::empty() =~= out@);
    }
}

fn others_away(state: &mut Tabs, a: &Around, ids: &Vec<u64>, panes: &Vec<(u64, i32, u32)>, out: &mut Vec<Effect>)
    requires
        lists_keys_u64(ids@, old(state)@.tabs),
    ensures
        final(state)@ == old(state)@.others_away(*a, ids@, panes@, 0).0,
        final(out)@ == old(out)@ + old(state)@.others_away(*a, ids@, panes@, 0).1,
        final(state)@.tabs == old(state)@.tabs,
{
    let ghost whole = after(old(out)@, old(state)@.others_away(*a, ids@, panes@, 0));
    let mut i: usize = 0;
    while i < ids.len()
        invariant
            i <= ids@.len(),
            lists_keys_u64(ids@, state@.tabs),
            state@.tabs == old(state)@.tabs,
            whole == after(out@, state@.others_away(*a, ids@, panes@, i as int)),
        decreases ids@.len() - i,
    {
        let id: u64 = ids[i];
        let ghost before = out@;
        let ghost now = state@;
        proof {
            assert(ids@.contains(id));
            assert(state@.tabs.contains_key(id));
        }
        if !pane_of(panes, id) {
            let wrapper: u64 = match wrapper_of(state, id) {
                Some(w) => w,
                None => 0,
            };
            let ghost off = seq![(Effect::ShowWrapper { wrapper, visible: false })];
            out.push(Effect::ShowWrapper { wrapper, visible: false });
            let framed = match state.colors.get(&id) {
                Some(c) => *c == a.frame,
                None => false,
            };
            if !framed {
                let ghost one = now.painted(*a, id, wrapper, a.frame);
                let ghost rest = one.0.others_away(*a, ids@, panes@, i + 1);
                set_wrapper_color(state, a, id, wrapper, a.frame, out);
                proof {
                    assert(before + ((off + one.1) + rest.1) =~= out@ + rest.1);
                }
            } else {
                let ghost rest = now.others_away(*a, ids@, panes@, i + 1);
                proof {
                    assert(before + (off + rest.1) =~= out@ + rest.1);
                }
            }
        }
        i = i + 1;
    }
    proof {
        assert(out@ + Seq::<Effect>::empty() =~= out@);
    }
}

fn panes_shown(state: &mut Tabs, a: &Around, panes: &Vec<(u64, i32, u32)>, out: &mut Vec<Effect>)
    ensures
        final(state)@ == old(state)@.panes_shown(*a, panes@, 0).0,
        final(out)@ == old(out)@ + old(state)@.panes_shown(*a, panes@, 0).1,
{
    let ghost whole = after(old(out)@, old(state)@.panes_shown(*a, panes@, 0));
    let mut i: usize = 0;
    while i < panes.len()
        invariant
            i <= panes@.len(),
            whole == after(out@, state@.panes_shown(*a, panes@, i as int)),
        decreases panes@.len() - i,
    {
        let pane: (u64, i32, u32) = panes[i];
        let ghost before = out@;
        let ghost now = state@;
        match wrapper_of(state, pane.0) {
            Some(wrapper) => {
                let ghost one = now.painted(*a, pane.0, wrapper, pane.2);
                let ghost rest = one.0.panes_shown(*a, panes@, i + 1);
                let ghost first = seq![(Effect::Reorder { wrapper, index: i }), (Effect::Flex { wrapper, flex: pane.1 })] + one.1 + seq![
                    (Effect::ShowWrapper { wrapper, visible: true }),
                ];
                out.push(Effect::Reorder { wrapper, index: i });
                out.push(Effect::Flex { wrapper, flex: pane.1 });
                set_wrapper_color(state, a, pane.0, wrapper, pane.2, out);
                out.push(Effect::ShowWrapper { wrapper, visible: true });
                proof {
                    assert(out@ =~= before + first);
                    assert(before + (first + rest.1) =~= out@ + rest.1);
                }
            },
            None => {},
        }
        i = i + 1;
    }
    proof {
        assert(out@ + Seq::<Effect>::empty() =~= out@);
    }
}

fn only_shown(state: &mut Tabs, a: &Around, ids: &Vec<u64>, tab: u64, out: &mut Vec<Effect>)
    requires
        lists_keys_u64(ids@, old(state)@.tabs),
    ensures
        final(state)@ == old(state)@.only_shown(*a, ids@, tab, 0).0,
        final(out)@ == old(out)@ + old(state)@.only_shown(*a, ids@, tab, 0).1,
{
    let ghost whole = after(old(out)@, old(state)@.only_shown(*a, ids@, tab, 0));
    let mut i: usize = 0;
    while i < ids.len()
        invariant
            i <= ids@.len(),
            lists_keys_u64(ids@, state@.tabs),
            whole == after(out@, state@.only_shown(*a, ids@, tab, i as int)),
        decreases ids@.len() - i,
    {
        let id: u64 = ids[i];
        let ghost before = out@;
        let ghost now = state@;
        proof {
            assert(ids@.contains(id));
            assert(state@.tabs.contains_key(id));
        }
        let wrapper: u64 = match wrapper_of(state, id) {
            Some(w) => w,
            None => 0,
        };
        if id == tab {
            let ghost one = now.painted(*a, tab, wrapper, a.frame);
            let ghost rest = one.0.only_shown(*a, ids@, tab, i + 1);
            let ghost first = seq![(Effect::SetInsets { wrapper, inset: 0 })] + one.1 + seq![
                (Effect::Flex { wrapper, flex: 1 }),
                (Effect::ShowWrapper { wrapper, visible: true }),
            ];
            out.push(Effect::SetInsets { wrapper, inset: 0 });
            set_wrapper_color(state, a, tab, wrapper, a.frame, out);
            out.push(Effect::Flex { wrapper, flex: 1 });
            out.push(Effect::ShowWrapper { wrapper, visible: true });
            proof {
                assert(out@ =~= before + first);
                assert(before + (first + rest.1) =~= out@ + rest.1);
            }
        } else {
            let ghost rest = now.only_shown(*a, ids@, tab, i + 1);
            out.push(Effect::ShowWrapper { wrapper, visible: false });
            proof {
                assert(before + (seq![(Effect::ShowWrapper { wrapper, visible: false })] + rest.1) =~= out@ + rest.1);
            }
        }
        i = i + 1;
    }
    proof {
        assert(out@ + Seq::<Effect>::empty() =~= out@);
    }
}

/// Shows one tab in page fullscreen.
pub fn apply_fullscreen(state: &mut Tabs, a: &Around, tab: u64, out: &mut Vec<Effect>)
    ensures
        final(state)@ == old(state)@.filled(*a, tab).0,
        final(out)@ == old(out)@ + old(state)@.filled(*a, tab).1,
{
    if !a.content {
        proof {
            assert(out@ =~= old(out)@ + Seq::<Effect>::empty());
        }
        return;
    }
    bring_home(state, a, tab, out);
    out.push(Effect::SetBox { horizontal: true, spacing: 0 });
    if !a.box_layout {
        proof {
            assert(out@ =~= old(out)@ + old(state)@.filled(*a, tab).1);
        }
        return;
    }
    if a.empty {
        out.push(Effect::ShowEmpty { visible: false });
    }
    let ids = keys_u64(&state.tabs);
    only_shown(state, a, &ids, tab, out);
    out.push(Effect::LayoutContent);
    out.push(Effect::RelayoutAllTools);
    out.push(Effect::LayoutMasks);
    out.push(Effect::LayoutOverlays);
    proof {
        assert(out@ =~= old(out)@ + old(state)@.filled(*a, tab).1);
    }
}

/// Clears the fullscreen state (and the tab's inset) if the tab is the fullscreen tab. Returns whether
/// it was.
pub fn end_fullscreen_state_for(state: &mut Tabs, tab: u64, out: &mut Vec<Effect>) -> (r: bool)
    ensures
        r == old(state)@.is_fullscreen(tab),
        final(state)@ == old(state)@.unfilled(tab).0,
        final(out)@ == old(out)@ + old(state)@.unfilled(tab).1,
{
    let was = match state.fullscreen {
        Some(f) => f.tab == tab,
        None => false,
    };
    if was {
        state.fullscreen = None;
        match wrapper_of(state, tab) {
            Some(wrapper) => out.push(Effect::SetInsets { wrapper, inset: WRAPPER_BORDER }),
            None => {},
        }
    }
    proof {
        assert(out@ =~= old(out)@ + old(state)@.unfilled(tab).1);
    }
    was
}

/// The browser of the fullscreen tab is gone: shows the last layout again.
pub fn end_fullscreen_for_removed(state: &mut Tabs, a: &Around, tab: u64, out: &mut Vec<Effect>)
    ensures
        final(state)@ == old(state)@.unfilled_removed(*a, tab).0,
        final(out)@ == old(out)@ + old(state)@.unfilled_removed(*a, tab).1,
{
    if end_fullscreen_state_for(state, tab, out) {
        let layout = copy_layout(&state.shown);
        apply_layout(state, a, &layout, out);
    }
    proof {
        assert(out@ =~= old(out)@ + old(state)@.unfilled_removed(*a, tab).1);
    }
}

/// Shows a layout.
pub fn show_content(state: &mut Tabs, a: &Around, layout: &Layout) -> (r: Vec<Effect>)
    ensures
        (final(state)@, r@) == old(state)@.showing(*a, layout@),
{
    let mut out: Vec<Effect> = Vec::new();
    state.shown = copy_layout(layout);
    match state.fullscreen {
        Some(fs) => {
            if state.tabs.contains_key(&fs.tab) && (fs.from_peek || shows(layout, fs.tab)) {
                apply_fullscreen(state, a, fs.tab, &mut out);
            } else {
                end_fullscreen_state_for(state, fs.tab, &mut out);
                apply_layout(state, a, layout, &mut out);
            }
        },
        None => apply_layout(state, a, layout, &mut out),
    }
    proof {
        assert(out@ =~= old(state)@.showing(*a, layout@).1);
    }
    out
}

/// Gives the view of a tab the focus.
pub fn focus_browser(state: &Tabs, tab: u64, out: &mut Vec<Effect>)
    ensures
        final(out)@ == old(out)@ + state@.focused(tab),
{
    match view_for_tab(state, tab) {
        Some(view) => out.push(Effect::Focus { view }),
        None => {},
    }
    proof {
        assert(out@ =~= old(out)@ + state@.focused(tab));
    }
}

/// Page fullscreen of the content area. `Some(tab)`: only that tab's wrapper is visible, without its
/// inset (a Peek tab is moved into its wrapper for the duration). `None`: the last layout comes back
/// (and the Peek overlay, if the tab came from there).
pub fn set_page_fullscreen_tab(state: &mut Tabs, a: &Around, tab: Option<u64>) -> (r: Vec<Effect>)
    ensures
        (final(state)@, r@) == old(state)@.page_fullscreen(*a, tab),
{
    let mut out: Vec<Effect> = Vec::new();
    match tab {
        Some(tab) => {
            if !state.tabs.contains_key(&tab) {
                return out;
            }
            match state.fullscreen {
                Some(previous) => {
                    if previous.tab != tab {
                        end_fullscreen_state_for(state, previous.tab, &mut out);
                    }
                },
                None => {},
            }
            let again = match state.fullscreen {
                Some(f) => f.tab == tab && f.from_peek,
                None => false,
            };
            let from_peek = is_in_peek(state, tab) || again;
            state.fullscreen = Some(Fullscreen { tab, from_peek });
            apply_fullscreen(state, a, tab, &mut out);
            focus_browser(state, tab, &mut out);
        },
        None => match state.fullscreen {
            None => {
                // Already ended (the fullscreen tab was destroyed): make sure the layout is back.
                let layout = copy_layout(&state.shown);
                apply_layout(state, a, &layout, &mut out);
            },
            Some(fs) => {
                let layout = copy_layout(&state.shown);
                end_fullscreen_state_for(state, fs.tab, &mut out);
                apply_layout(state, a, &layout, &mut out);
                let still_exists = state.tabs.contains_key(&fs.tab);
                if fs.from_peek && still_exists && !shows(&layout, fs.tab) {
                    out.push(Effect::ShowPeek { tab: fs.tab });
                } else if still_exists {
                    focus_browser(state, fs.tab, &mut out);
                }
            },
        },
    }
    proof {
        assert(out@ =~= old(state)@.page_fullscreen(*a, tab).1);
    }
    out
}

// ------------------------------------------------------------------------------ lifecycle

impl Model {
    /// A browser was created for a tab.
    pub open spec fn with_browser(self, tab: u64, browser: i32) -> (Model, Seq<Effect>) {
        (
            Model {
                by_browser: self.by_browser.insert(browser, tab),
                tabs: if self.tabs.contains_key(tab) {
                    self.tabs.insert(tab, (TabEntry { browser_id: Some(browser), ..self.tabs[tab] }))
                } else {
                    self.tabs
                },
                ..self
            },
            seq![(Effect::SetRole { browser, tab })],
        )
    }

    /// A hidden wrapper for a tab joins the content panel.
    pub open spec fn with_wrapper(self, a: Around, tab: u64, wrapper: u64) -> (Model, Seq<Effect>) {
        let one = self.painted(a, tab, wrapper, a.frame);
        (
            one.0,
            seq![(Effect::SetInsets { wrapper, inset: WRAPPER_BORDER })] + one.1 + seq![
                (Effect::ShowWrapper { wrapper, visible: false }),
                (Effect::AddWrapper { wrapper }),
            ],
        )
    }

    /// A tab without a browser ends: its entry is removed and its close reported.
    pub open spec fn stillborn(self, a: Around, tab: u64) -> (Model, Seq<Effect>) {
        let one = self.removed(a, tab);
        after(one.1, one.0.reporting(tab, None))
    }

    /// The wrapper for the browser of a tab was created, or could not be.
    pub open spec fn create_wrapper(self, a: Around, tab: u64, wrapper: Option<u64>, internal: bool) -> (Model, Seq<Effect>) {
        match wrapper {
            None => self.reporting(tab, None),
            Some(wrapper) => {
                let one = self.with_wrapper(a, tab, wrapper);
                (
                    Model {
                        tabs: one.0.tabs.insert(
                            tab,
                            (TabEntry { wrapper, view: None, browser_id: None, internal, in_peek: false }),
                        ),
                        ..one.0
                    },
                    one.1,
                )
            },
        }
    }

    /// A tab gets a view, which joins the wrapper that was created for it, whatever became of the tab.
    pub open spec fn with_view(self, tab: u64, wrapper: u64, view: u64) -> (Model, Seq<Effect>) {
        (
            if self.tabs.contains_key(tab) {
                Model { tabs: self.tabs.insert(tab, (TabEntry { view: Some(view), ..self.tabs[tab] })), ..self }
            } else {
                self
            },
            seq![(Effect::AddChild { wrapper, view })],
        )
    }

    /// The view for the browser of a tab was created, or could not be.
    pub open spec fn create_view(self, a: Around, tab: u64, wrapper: u64, view: Option<u64>) -> (Model, Seq<Effect>) {
        match view {
            None => self.stillborn(a, tab),
            Some(view) => self.with_view(tab, wrapper, view),
        }
    }

    /// The view of a tab joined the window, which created its browser, or did not.
    pub open spec fn create_done(self, a: Around, tab: u64, wrapper: u64, view: u64, browser: Option<i32>, muted: bool) -> (Model, Seq<Effect>) {
        match browser {
            None => {
                let one = self.stillborn(a, tab);
                (one.0, seq![(Effect::RemoveChild { wrapper, view }), (Effect::DropView { view })] + one.1)
            },
            Some(browser) => (self, if muted {
                seq![(Effect::Created { tab }), (Effect::Mute { browser })]
            } else {
                seq![(Effect::Created { tab })]
            }),
        }
    }

    /// The browser of a tab is to be closed. `closable`: it is alive.
    pub open spec fn destroyed(self, a: Around, tab: u64, closable: bool) -> (Model, Seq<Effect>) {
        let first = seq![(Effect::InspectedGone { tab })];
        if !self.tabs.contains_key(tab) {
            (self, first)
        } else {
            match self.tabs[tab].browser_id {
                None => after(first, self.stillborn(a, tab)),
                Some(browser) => if self.closing.contains_key(browser) {
                    (self, first)
                } else if closable {
                    (
                        Model {
                            closing: self.closing.insert(browser, (Closing { tab, silent: false, view: None, detached: false })),
                            ..self
                        },
                        first.push((Effect::CloseBrowser { browser })),
                    )
                } else {
                    let m = Model { by_browser: self.by_browser.remove(browser), ..self };
                    let one = m.removed(a, tab);
                    let end = one.0.reporting(tab, Some(browser));
                    (end.0, first + self.peek_taken(a, tab) + self.peek_let_go(a, tab) + one.1 + end.1)
                },
            }
        }
    }

    /// The view of a tab that sits in Peek is taken back.
    pub open spec fn peek_taken(self, a: Around, tab: u64) -> Seq<Effect> {
        if self.in_peek(tab) && held_view(a, tab) is Some { seq![(Effect::TakeBack { tab })] } else { Seq::empty() }
    }

    /// What was taken back from Peek is let go.
    pub open spec fn peek_let_go(self, a: Around, tab: u64) -> Seq<Effect> {
        if self.in_peek(tab) && held_view(a, tab) is Some {
            seq![(Effect::DropView { view: held_view(a, tab)->0 })]
        } else {
            Seq::empty()
        }
    }

    /// The close of a browser goes on.
    pub open spec fn do_close(self, browser: i32, tab: u64) -> (Model, Seq<Effect>) {
        (
            if self.closing.contains_key(browser) {
                self
            } else {
                Model {
                    closing: self.closing.insert(browser, (Closing { tab, silent: false, view: None, detached: false })),
                    ..self
                }
            },
            seq![(Effect::DetachLater { browser })],
        )
    }

    /// The view of a closing browser leaves the window.
    pub open spec fn detaching(self, a: Around, browser: i32) -> (Model, Seq<Effect>) {
        if !self.closing.contains_key(browser) || self.closing[browser].detached {
            (self, Seq::empty())
        } else {
            let c = self.closing[browser];
            let m = Model {
                closing: self.closing.insert(browser, (Closing { detached: true, view: None, ..c })),
                by_browser: self.by_browser.remove(browser),
                ..self
            };
            if c.silent {
                (
                    m,
                    match c.view {
                        Some(view) => seq![(Effect::Detach { view }), (Effect::DropView { view })],
                        None => Seq::empty(),
                    },
                )
            } else {
                let first = seq![(Effect::InspectedGone { tab: c.tab })];
                if self.tabs.contains_key(c.tab) && self.tabs[c.tab].browser_id == Some(browser) {
                    let e = self.tabs[c.tab];
                    let without = Model {
                        tabs: m.tabs.remove(c.tab),
                        colors: m.colors.remove(c.tab),
                        zoom: m.zoom.remove(c.tab),
                        ..m
                    };
                    let ended = without.unfilled_removed(a, c.tab);
                    (ended.0, first + ended.1 + m.peek_taken(a, c.tab) + gone(e) + m.peek_let_go(a, c.tab) + (match e.view {
                        Some(view) => seq![(Effect::DropView { view })],
                        None => Seq::empty(),
                    }))
                } else {
                    (m, first)
                }
            }
        }
    }

    /// A browser is gone.
    pub open spec fn closed(self, browser: i32, tab: u64, window_closing: bool) -> (Model, Seq<Effect>) {
        let m = Model { closing: self.closing.remove(browser), by_browser: self.by_browser.remove(browser), ..self };
        if self.closing.contains_key(browser) {
            if self.closing[browser].silent { (m, Seq::empty()) } else { m.reporting(tab, Some(browser)) }
        } else if self.tabs.contains_key(tab) && self.tabs[tab].browser_id == Some(browser) {
            let without = Model { tabs: m.tabs.remove(tab), ..m };
            if window_closing { (without, Seq::empty()) } else { without.reporting(tab, Some(browser)) }
        } else {
            (m, Seq::empty())
        }
    }

    /// The browser of a tab is taken out of its entry for a replacement.
    pub open spec fn taken(self, tab: u64, internal: bool, alive: bool) -> (Model, Seq<Effect>) {
        let e = self.tabs[tab];
        let m = Model { tabs: self.tabs.insert(tab, (TabEntry { internal, view: None, browser_id: None, ..e })), ..self };
        match (e.browser_id, e.view) {
            (Some(browser), Some(view)) => (
                Model {
                    by_browser: m.by_browser.remove(browser),
                    closing: if alive {
                        m.closing.insert(browser, (Closing { tab, silent: true, view: Some(view), detached: false }))
                    } else {
                        m.closing
                    },
                    ..m
                },
                seq![(Effect::ShowView { view, visible: false })],
            ),
            _ => (m, Seq::empty()),
        }
    }

    /// A replacement begins.
    pub open spec fn replacing(self, a: Around, tab: u64, internal: bool, alive: bool) -> (Model, Seq<Effect>) {
        let first = seq![(Effect::InspectedGone { tab })];
        let home = self.home(a, tab);
        if !home.0.tabs.contains_key(tab) {
            (home.0, first + home.1)
        } else {
            let one = home.0.taken(tab, internal, alive);
            (one.0, first + home.1 + one.1)
        }
    }

    /// A replacement failed: the old browser is back, and is closed.
    pub open spec fn replace_failed(self, a: Around, r: Replacing, view: Option<u64>, closable: bool) -> (Model, Seq<Effect>) {
        let dropped = match view {
            Some(view) => seq![(Effect::RemoveChild { wrapper: r.wrapper, view })],
            None => Seq::empty(),
        };
        let m = Model {
            closing: match r.old_id {
                Some(b) => self.closing.remove(b),
                None => self.closing,
            },
            by_browser: match r.old_id {
                Some(b) => self.by_browser.insert(b, r.tab),
                None => self.by_browser,
            },
            tabs: if self.tabs.contains_key(r.tab) {
                self.tabs.insert(
                    r.tab,
                    (TabEntry {
                        view: r.old_view,
                        browser_id: if r.old_alive { r.old_id } else { None },
                        internal: r.old_internal,
                        ..self.tabs[r.tab]
                    }),
                )
            } else {
                self.tabs
            },
            ..self
        };
        let end = m.destroyed(a, r.tab, closable);
        (end.0, dropped + (match r.old_view {
            Some(view) => seq![(Effect::ShowView { view, visible: true })],
            None => Seq::empty(),
        }) + end.1)
    }

    /// A replacement succeeded: the old browser will not be reported, and is closed silently.
    pub open spec fn replace_worked(self, r: Replacing, closable: bool) -> (Model, Seq<Effect>) {
        let fresh = self.new_generation(r.tab);
        let m = Model {
            reported: match r.old_id {
                Some(b) => fresh.reported.insert((r.tab, b)),
                None => fresh.reported,
            },
            ..fresh
        };
        let first = seq![(Effect::Created { tab: r.tab })];
        match r.old_id {
            Some(browser) => if r.old_alive && closable {
                (m, first.push((Effect::CloseBrowser { browser })))
            } else {
                (Model { closing: m.closing.remove(browser), ..m }, first + let_go(r.old_view))
            },
            None => (m, first + let_go(r.old_view)),
        }
    }

    /// The new browser of a replacement was created, or could not be.
    pub open spec fn replaced(self, a: Around, r: Replacing, view: Option<u64>, browser: Option<i32>, closable: bool) -> (Model, Seq<Effect>) {
        if view is Some && browser is Some {
            self.replace_worked(r, closable)
        } else {
            self.replace_failed(a, r, view, closable)
        }
    }

    /// A popup view is adopted as a hidden tab.
    pub open spec fn adopted(self, a: Around, tab: u64, opener: Option<i32>, view: u64, browser: i32, wrapper: Option<u64>) -> (
        Model,
        Seq<Effect>,
    ) {
        let fresh = self.new_generation(tab);
        match wrapper {
            None => (fresh, Seq::empty()),
            Some(wrapper) => {
                let one = fresh.with_wrapper(a, tab, wrapper);
                let m = Model {
                    tabs: one.0.tabs.insert(
                        tab,
                        (TabEntry { wrapper, view: Some(view), browser_id: Some(browser), internal: false, in_peek: false }),
                    ),
                    ..one.0
                };
                let named = m.with_browser(tab, browser);
                (named.0, one.1 + named.1 + seq![
                    (Effect::AddChild { wrapper, view }),
                    (Effect::Adopted {
                        tab,
                        opener: match opener {
                            Some(o) => if named.0.by_browser.contains_key(o) { Some(named.0.by_browser[o]) } else { None },
                            None => None,
                        },
                    }),
                ])
            },
        }
    }
}

/// A dead view leaves the window.
pub open spec fn let_go(view: Option<u64>) -> Seq<Effect> {
    match view {
        Some(view) => seq![(Effect::Detach { view }), (Effect::DropView { view })],
        None => Seq::empty(),
    }
}

/// A replacement in progress: what the tab had before it.
#[derive(Debug, Clone, Copy, PartialEq, Eq, Structural)]
pub struct Replacing {
    pub tab: u64,
    pub wrapper: u64,
    pub old_view: Option<u64>,
    pub old_id: Option<i32>,
    pub old_internal: bool,
    /// The old browser was alive when the replacement began.
    pub old_alive: bool,
}

/// What to load for a new tab.
#[derive(Debug, Clone, Copy, PartialEq, Eq, Structural)]
pub struct CreatePlan {
    /// Hand the URL to the operating system.
    pub launch: bool,
    /// Load a blank page instead of the URL.
    pub blank: bool,
}

impl Tabs {
    /// No tabs.
    pub fn new() -> (r: Tabs)
        ensures
            r@ == (Model {
                tabs: Map::empty(),
                by_browser: Map::empty(),
                closing: Map::empty(),
                shown: LayoutModel::Empty,
                colors: Map::empty(),
                reported: Set::empty(),
                fullscreen: None,
                zoom: Map::empty(),
            }),
            r@.consistent(),
    {
        Tabs {
            tabs: HashMap::new(),
            by_browser: HashMap::new(),
            closing: HashMap::new(),
            shown: Layout::Empty,
            colors: HashMap::new(),
            reported: HashMap::new(),
            fullscreen: None,
            zoom: HashMap::new(),
        }
    }
}

/// A browser was created for a tab.
pub fn on_browser_created(state: &mut Tabs, tab: u64, browser_id: i32, out: &mut Vec<Effect>)
    ensures
        final(state)@ == old(state)@.with_browser(tab, browser_id).0,
        final(out)@ == old(out)@ + old(state)@.with_browser(tab, browser_id).1,
{
    out.push(Effect::SetRole { browser: browser_id, tab });
    state.by_browser.insert(browser_id, tab);
    let entry: Option<TabEntry> = match state.tabs.get(&tab) {
        Some(e) => Some(*e),
        None => None,
    };
    match entry {
        Some(e) => {
            state.tabs.insert(tab, TabEntry { browser_id: Some(browser_id), ..e });
        },
        None => {},
    }
    proof {
        assert(state@ =~= old(state)@.with_browser(tab, browser_id).0);
        assert(out@ =~= old(out)@ + old(state)@.with_browser(tab, browser_id).1);
    }
}

/// Notes that the close of a browser of a tab was reported. Returns whether that is new.
fn note_report(state: &mut Tabs, tab: u64, browser: i32) -> (r: bool)
    ensures
        r == !old(state)@.reported.contains((tab, browser)),
        final(state)@ == (Model { reported: old(state)@.reported.insert((tab, browser)), ..old(state)@ }),
{
    let mut browsers: HashSet<i32> = match state.reported.remove(&tab) {
        Some(known) => known,
        None => HashSet::new(),
    };
    let first = browsers.insert(browser);
    state.reported.insert(tab, browsers);
    proof {
        assert(pairs(state.reported@) =~= pairs(old(state).reported@).insert((tab, browser)));
        assert(state@ =~= (Model { reported: old(state)@.reported.insert((tab, browser)), ..old(state)@ }));
    }
    first
}

/// Reports the close of the browser of a tab, once per tab and browser.
pub fn report_closed(state: &mut Tabs, tab: u64, browser_id: Option<i32>, out: &mut Vec<Effect>)
    ensures
        final(state)@ == old(state)@.reporting(tab, browser_id).0,
        final(out)@ == old(out)@ + old(state)@.reporting(tab, browser_id).1,
{
    let key: (u64, i32) = (
        tab,
        match browser_id {
            Some(b) => b,
            None => -1,
        },
    );
    if !note_report(state, key.0, key.1) {
        proof {
            assert(state@ =~= old(state)@);
            assert(out@ =~= old(out)@ + Seq::<Effect>::empty());
        }
        return;
    }
    out.push(Effect::Closed { tab });
    proof {
        assert(state@ =~= old(state)@.reporting(tab, browser_id).0);
        assert(out@ =~= old(out)@ + old(state)@.reporting(tab, browser_id).1);
    }
}

/// A new browser generation of a tab starts: forgets its old close reports and zoom.
pub fn begin_generation(state: &mut Tabs, tab: u64)
    ensures
        final(state)@ == old(state)@.new_generation(tab),
{
    state.reported.remove(&tab);
    proof {
        assert(pairs(state.reported@) =~= without_tab(pairs(old(state).reported@), tab));
    }
    state.zoom.remove(&tab);
    proof {
        assert(state@ =~= old(state)@.new_generation(tab));
    }
}

/// Removes the entry of a tab whose browser never came to life.
pub fn remove_entry(state: &mut Tabs, a: &Around, tab: u64, out: &mut Vec<Effect>)
    ensures
        final(state)@ == old(state)@.removed(*a, tab).0,
        final(out)@ == old(out)@ + old(state)@.removed(*a, tab).1,
{
    let entry = state.tabs.remove(&tab);
    state.colors.remove(&tab);
    state.zoom.remove(&tab);
    proof {
        assert(state@ =~= (Model {
            tabs: old(state)@.tabs.remove(tab),
            colors: old(state)@.colors.remove(tab),
            zoom: old(state)@.zoom.remove(tab),
            ..old(state)@
        }));
    }
    end_fullscreen_for_removed(state, a, tab, out);
    match entry {
        Some(e) => leave(e, out),
        None => {},
    }
    proof {
        assert(out@ =~= old(out)@ + old(state)@.removed(*a, tab).1);
    }
}

fn leave(e: TabEntry, out: &mut Vec<Effect>)
    ensures
        final(out)@ == old(out)@ + gone(e),
{
    match e.view {
        Some(view) => out.push(Effect::Detach { view }),
        None => {},
    }
    out.push(Effect::RemoveWrapper { wrapper: e.wrapper });
    proof {
        assert(out@ =~= old(out)@ + gone(e));
    }
}

fn stillborn(state: &mut Tabs, a: &Around, tab: u64, out: &mut Vec<Effect>)
    ensures
        final(state)@ == old(state)@.stillborn(*a, tab).0,
        final(out)@ == old(out)@ + old(state)@.stillborn(*a, tab).1,
{
    remove_entry(state, a, tab, out);
    report_closed(state, tab, None, out);
    proof {
        assert(out@ =~= old(out)@ + old(state)@.stillborn(*a, tab).1);
    }
}

/// A browser for a tab: what to load, unless the tab has one. An external protocol (which the tab could
/// never load) goes to the operating system, except while the session is restored, and the tab shows a
/// blank page.
pub fn create_browser(state: &mut Tabs, tab: u64, internal: bool, external: bool, starting_up: bool) -> (r: Option<CreatePlan>)
    ensures
        if old(state)@.tabs.contains_key(tab) {
            r is None && final(state)@ == old(state)@
        } else {
            &&& r == Some((CreatePlan { launch: !internal && external && !starting_up, blank: !internal && external }))
            &&& final(state)@ == old(state)@.new_generation(tab)
        },
{
    if state.tabs.contains_key(&tab) {
        return None;
    }
    let external_url = !internal && external;
    begin_generation(state, tab);
    Some(CreatePlan { launch: external_url && !starting_up, blank: external_url })
}

fn new_wrapper(state: &mut Tabs, a: &Around, tab: u64, wrapper: u64, out: &mut Vec<Effect>)
    ensures
        final(state)@ == old(state)@.with_wrapper(*a, tab, wrapper).0,
        final(out)@ == old(out)@ + old(state)@.with_wrapper(*a, tab, wrapper).1,
{
    out.push(Effect::SetInsets { wrapper, inset: WRAPPER_BORDER });
    set_wrapper_color(state, a, tab, wrapper, a.frame, out);
    out.push(Effect::ShowWrapper { wrapper, visible: false });
    out.push(Effect::AddWrapper { wrapper });
    proof {
        assert(out@ =~= old(out)@ + old(state)@.with_wrapper(*a, tab, wrapper).1);
    }
}

/// The wrapper for a new browser was created, or could not be.
pub fn on_wrapper_created(state: &mut Tabs, a: &Around, tab: u64, wrapper: Option<u64>, internal: bool) -> (r: Vec<Effect>)
    ensures
        (final(state)@, r@) == old(state)@.create_wrapper(*a, tab, wrapper, internal),
{
    let mut out: Vec<Effect> = Vec::new();
    match wrapper {
        None => report_closed(state, tab, None, &mut out),
        Some(wrapper) => {
            new_wrapper(state, a, tab, wrapper, &mut out);
            state.tabs.insert(tab, TabEntry { wrapper, view: None, browser_id: None, internal, in_peek: false });
        },
    }
    proof {
        assert(state@ =~= old(state)@.create_wrapper(*a, tab, wrapper, internal).0);
        assert(out@ =~= old(state)@.create_wrapper(*a, tab, wrapper, internal).1);
    }
    out
}

fn add_view(state: &mut Tabs, tab: u64, wrapper: u64, view: u64, out: &mut Vec<Effect>)
    ensures
        final(state)@ == old(state)@.with_view(tab, wrapper, view).0,
        final(out)@ == old(out)@ + old(state)@.with_view(tab, wrapper, view).1,
{
    let entry: Option<TabEntry> = match state.tabs.get(&tab) {
        Some(e) => Some(*e),
        None => None,
    };
    match entry {
        Some(e) => {
            state.tabs.insert(tab, TabEntry { view: Some(view), ..e });
        },
        None => {},
    }
    out.push(Effect::AddChild { wrapper, view });
    proof {
        assert(state@ =~= old(state)@.with_view(tab, wrapper, view).0);
        assert(out@ =~= old(out)@ + old(state)@.with_view(tab, wrapper, view).1);
    }
}

/// The view for a new browser was created, or could not be. `wrapper`: the wrapper that was created for it.
pub fn on_view_created(state: &mut Tabs, a: &Around, tab: u64, wrapper: u64, view: Option<u64>) -> (r: Vec<Effect>)
    ensures
        (final(state)@, r@) == old(state)@.create_view(*a, tab, wrapper, view),
{
    let mut out: Vec<Effect> = Vec::new();
    match view {
        None => stillborn(state, a, tab, &mut out),
        Some(view) => add_view(state, tab, wrapper, view, &mut out),
    }
    proof {
        assert(out@ =~= old(state)@.create_view(*a, tab, wrapper, view).1);
    }
    out
}

/// The view of a new browser joined the window: its browser exists now, or the tab ends.
pub fn on_view_added(
    state: &mut Tabs,
    a: &Around,
    tab: u64,
    wrapper: u64,
    view: u64,
    browser: Option<i32>,
    muted: bool,
) -> (r: Vec<Effect>)
    ensures
        (final(state)@, r@) == old(state)@.create_done(*a, tab, wrapper, view, browser, muted),
{
    let mut out: Vec<Effect> = Vec::new();
    match browser {
        None => {
            out.push(Effect::RemoveChild { wrapper, view });
            out.push(Effect::DropView { view });
            stillborn(state, a, tab, &mut out);
        },
        Some(browser) => {
            out.push(Effect::Created { tab });
            if muted {
                out.push(Effect::Mute { browser });
            }
        },
    }
    proof {
        assert(out@ =~= old(state)@.create_done(*a, tab, wrapper, view, browser, muted).1);
    }
    out
}

/// Replaces the browser of a tab: the new view goes into the same wrapper, the old browser closes
/// silently. `alive`: the tab's browser is alive. `None`: the tab is unknown.
pub fn replace_browser(state: &mut Tabs, a: &Around, tab: u64, internal: bool, alive: bool) -> (r: (Option<Replacing>, Vec<Effect>))
    ensures
        (final(state)@, r.1@) == old(state)@.replacing(*a, tab, internal, alive),
        r.0 == (if old(state)@.home(*a, tab).0.tabs.contains_key(tab) {
            let e = old(state)@.home(*a, tab).0.tabs[tab];
            Some(
                (Replacing {
                    tab,
                    wrapper: e.wrapper,
                    old_view: e.view,
                    old_id: e.browser_id,
                    old_internal: e.internal,
                    old_alive: e.browser_id is Some && alive,
                }),
            )
        } else {
            None
        }),
{
    let mut out: Vec<Effect> = Vec::new();
    out.push(Effect::InspectedGone { tab });
    // The new view lives in the wrapper: bring a view that sits in Peek home first.
    bring_home(state, a, tab, &mut out);
    let ghost home = old(state)@.home(*a, tab);
    let entry: Option<TabEntry> = match state.tabs.get(&tab) {
        Some(e) => Some(*e),
        None => None,
    };
    match entry {
        None => {
            proof {
                assert(out@ =~= old(state)@.replacing(*a, tab, internal, alive).1);
            }
            (None, out)
        },
        Some(e) => {
            state.tabs.insert(tab, TabEntry { internal, view: None, browser_id: None, ..e });
            match (e.browser_id, e.view) {
                (Some(browser), Some(view)) => {
                    state.by_browser.remove(&browser);
                    if alive {
                        state.closing.insert(browser, Closing { tab, silent: true, view: Some(view), detached: false });
                    }
                    out.push(Effect::ShowView { view, visible: false });
                },
                _ => {},
            }
            proof {
                assert(state@ =~= home.0.taken(tab, internal, alive).0);
                assert(out@ =~= old(state)@.replacing(*a, tab, internal, alive).1);
            }
            (
                Some(
                    Replacing {
                        tab,
                        wrapper: e.wrapper,
                        old_view: e.view,
                        old_id: e.browser_id,
                        old_internal: e.internal,
                        old_alive: e.browser_id.is_some() && alive,
                    },
                ),
                out,
            )
        },
    }
}

/// The view of the new browser of a replacement was created and joins the wrapper.
pub fn on_replacement_view(state: &mut Tabs, r: &Replacing, view: u64) -> (out: Vec<Effect>)
    ensures
        (final(state)@, out@) == old(state)@.with_view(r.tab, r.wrapper, view),
{
    let mut out: Vec<Effect> = Vec::new();
    add_view(state, r.tab, r.wrapper, view, &mut out);
    proof {
        assert(out@ =~= old(state)@.with_view(r.tab, r.wrapper, view).1);
    }
    out
}

/// The new browser of a replacement was created, or could not be. `view`: its view, where that was
/// created; `closable`: the old browser is still there to be closed.
pub fn on_replaced(state: &mut Tabs, a: &Around, r: Replacing, view: Option<u64>, browser: Option<i32>, closable: bool) -> (out: Vec<Effect>)
    ensures
        (final(state)@, out@) == old(state)@.replaced(*a, r, view, browser, closable),
{
    let mut out: Vec<Effect> = Vec::new();
    if view.is_some() && browser.is_some() {
        // The old browser must never be reported.
        begin_generation(state, r.tab);
        match r.old_id {
            Some(b) => {
                note_report(state, r.tab, b);
            },
            None => {},
        }
        out.push(Effect::Created { tab: r.tab });
        match r.old_id {
            Some(browser) => {
                if r.old_alive && closable {
                    out.push(Effect::CloseBrowser { browser });
                } else {
                    state.closing.remove(&browser);
                    drop_dead(r.old_view, &mut out);
                }
            },
            None => drop_dead(r.old_view, &mut out),
        }
        proof {
            assert(state@ =~= old(state)@.replace_worked(r, closable).0);
            assert(out@ =~= old(state)@.replace_worked(r, closable).1);
        }
        return out;
    }
    // Roll back to the old browser and close it in the normal, reported way.
    let entry: Option<TabEntry> = match state.tabs.get(&r.tab) {
        Some(e) => Some(*e),
        None => None,
    };
    match view {
        Some(view) => out.push(Effect::RemoveChild { wrapper: r.wrapper, view }),
        None => {},
    }
    match r.old_id {
        Some(b) => {
            state.closing.remove(&b);
            state.by_browser.insert(b, r.tab);
        },
        None => {},
    }
    match r.old_view {
        Some(view) => out.push(Effect::ShowView { view, visible: true }),
        None => {},
    }
    match entry {
        Some(e) => {
            state.tabs.insert(
                r.tab,
                TabEntry {
                    view: r.old_view,
                    browser_id: if r.old_alive { r.old_id } else { None },
                    internal: r.old_internal,
                    ..e
                },
            );
        },
        None => {},
    }
    let ghost back = state@;
    let ghost so_far = out@;
    destroy_browser(state, a, r.tab, closable, &mut out);
    proof {
        let old_m = old(state)@;
        assert(back =~= (Model {
            closing: match r.old_id {
                Some(b) => old_m.closing.remove(b),
                None => old_m.closing,
            },
            by_browser: match r.old_id {
                Some(b) => old_m.by_browser.insert(b, r.tab),
                None => old_m.by_browser,
            },
            tabs: if old_m.tabs.contains_key(r.tab) {
                old_m.tabs.insert(
                    r.tab,
                    (TabEntry {
                        view: r.old_view,
                        browser_id: if r.old_alive { r.old_id } else { None },
                        internal: r.old_internal,
                        ..old_m.tabs[r.tab]
                    }),
                )
            } else {
                old_m.tabs
            },
            ..old_m
        }));
        assert(out@ =~= so_far + back.destroyed(*a, r.tab, closable).1);
        assert(out@ =~= old_m.replace_failed(*a, r, view, closable).1);
    }
    out
}

fn drop_dead(view: Option<u64>, out: &mut Vec<Effect>)
    ensures
        final(out)@ == old(out)@ + let_go(view),
{
    match view {
        Some(view) => {
            out.push(Effect::Detach { view });
            out.push(Effect::DropView { view });
        },
        None => {},
    }
    proof {
        assert(out@ =~= old(out)@ + let_go(view));
    }
}

/// Takes the view of a tab back from Peek, where it is: the view.
fn take_peek(a: &Around, tab: u64, in_peek: bool, out: &mut Vec<Effect>) -> (r: Option<u64>)
    ensures
        r == (if in_peek { held_view(*a, tab) } else { None }),
        final(out)@ == (if r is Some { old(out)@.push((Effect::TakeBack { tab })) } else { old(out)@ }),
{
    if !in_peek {
        return None;
    }
    match a.peek {
        Some(held) => if held.0 == tab {
            out.push(Effect::TakeBack { tab });
            Some(held.1)
        } else {
            None
        },
        None => None,
    }
}

fn let_view_go(view: Option<u64>, out: &mut Vec<Effect>)
    ensures
        final(out)@ == (match view {
            Some(view) => old(out)@.push((Effect::DropView { view })),
            None => old(out)@,
        }),
{
    match view {
        Some(view) => out.push(Effect::DropView { view }),
        None => {},
    }
}

/// Closes the browser of a tab by force; its close is reported once it is gone. `closable`: the browser
/// is alive.
pub fn destroy_browser(state: &mut Tabs, a: &Around, tab: u64, closable: bool, out: &mut Vec<Effect>)
    ensures
        final(state)@ == old(state)@.destroyed(*a, tab, closable).0,
        final(out)@ == old(out)@ + old(state)@.destroyed(*a, tab, closable).1,
{
    out.push(Effect::InspectedGone { tab });
    let entry: Option<TabEntry> = match state.tabs.get(&tab) {
        Some(e) => Some(*e),
        None => None,
    };
    match entry {
        None => {},
        Some(e) => match e.browser_id {
            None => stillborn(state, a, tab, out),
            Some(browser) => {
                if !state.closing.contains_key(&browser) {
                    if closable {
                        state.closing.insert(browser, Closing { tab, silent: false, view: None, detached: false });
                        out.push(Effect::CloseBrowser { browser });
                    } else {
                        state.by_browser.remove(&browser);
                        let held = take_peek(a, tab, e.in_peek, out);
                        let_view_go(held, out);
                        remove_entry(state, a, tab, out);
                        report_closed(state, tab, Some(browser), out);
                    }
                }
            },
        },
    }
    proof {
        assert(state@ =~= old(state)@.destroyed(*a, tab, closable).0);
        assert(out@ =~= old(out)@ + old(state)@.destroyed(*a, tab, closable).1);
    }
}

/// The close of a tab's browser goes on. Never lets anything go at once.
pub fn on_do_close(state: &mut Tabs, browser_id: i32, tab: u64) -> (r: Vec<Effect>)
    ensures
        (final(state)@, r@) == old(state)@.do_close(browser_id, tab),
{
    if !state.closing.contains_key(&browser_id) {
        state.closing.insert(browser_id, Closing { tab, silent: false, view: None, detached: false });
    }
    let out = vec![Effect::DetachLater { browser: browser_id }];
    proof {
        assert(state@ =~= old(state)@.do_close(browser_id, tab).0);
        assert(out@ =~= old(state)@.do_close(browser_id, tab).1);
    }
    out
}

/// Removes the view of a closing browser from the window and lets go of the last references, which
/// destroys the browser.
pub fn detach(state: &mut Tabs, a: &Around, browser_id: i32) -> (r: Vec<Effect>)
    ensures
        (final(state)@, r@) == old(state)@.detaching(*a, browser_id),
{
    let mut out: Vec<Effect> = Vec::new();
    let closing: Option<Closing> = match state.closing.get(&browser_id) {
        Some(c) => Some(*c),
        None => None,
    };
    let c: Closing = match closing {
        Some(c) => c,
        None => {
            return out;
        },
    };
    if c.detached {
        return out;
    }
    state.closing.insert(browser_id, Closing { detached: true, view: None, ..c });
    state.by_browser.remove(&browser_id);
    let ghost m = state@;
    proof {
        assert(m =~= (Model {
            closing: old(state)@.closing.insert(browser_id, (Closing { detached: true, view: None, ..c })),
            by_browser: old(state)@.by_browser.remove(browser_id),
            ..old(state)@
        }));
    }
    if c.silent {
        drop_dead(c.view, &mut out);
        proof {
            assert(out@ =~= old(state)@.detaching(*a, browser_id).1);
        }
        return out;
    }
    out.push(Effect::InspectedGone { tab: c.tab });
    // Only remove the tab entry if it still belongs to this browser.
    let entry: Option<TabEntry> = match state.tabs.get(&c.tab) {
        Some(e) => Some(*e),
        None => None,
    };
    match entry {
        Some(e) => {
            let mine = match e.browser_id {
                Some(b) => b == browser_id,
                None => false,
            };
            if mine {
                state.tabs.remove(&c.tab);
                state.colors.remove(&c.tab);
                state.zoom.remove(&c.tab);
                proof {
                    assert(state@ =~= (Model {
                        tabs: m.tabs.remove(c.tab),
                        colors: m.colors.remove(c.tab),
                        zoom: m.zoom.remove(c.tab),
                        ..m
                    }));
                }
                end_fullscreen_for_removed(state, a, c.tab, &mut out);
                let held = take_peek(a, c.tab, e.in_peek, &mut out);
                leave(e, &mut out);
                let_view_go(held, &mut out);
                let_view_go(e.view, &mut out);
            }
        },
        None => {},
    }
    proof {
        assert(out@ =~= old(state)@.detaching(*a, browser_id).1);
    }
    out
}

/// A tab's browser is gone.
pub fn on_before_close(
    state: &mut Tabs,
    popups: &mut Popups,
    boosts: &mut Boosts,
    browser_id: i32,
    tab: u64,
    window_closing: bool,
) -> (r: Vec<Effect>)
    ensures
        (final(state)@, r@) == old(state)@.closed(browser_id, tab, window_closing),
        final(popups).queues@ == old(popups).queues@.remove(browser_id),
        final(boosts).sent@ == old(boosts).sent@.remove(browser_id),
{
    let mut out: Vec<Effect> = Vec::new();
    boosts.sent.remove(&browser_id);
    popups.queues.remove(&browser_id);
    proof {
        assert(popups.queues@ =~= old(popups).queues@.remove(browser_id));
        assert(boosts.sent@ =~= old(boosts).sent@.remove(browser_id));
    }
    let closing = state.closing.remove(&browser_id);
    state.by_browser.remove(&browser_id);
    let ghost m = state@;
    proof {
        assert(m =~= (Model {
            closing: old(state)@.closing.remove(browser_id),
            by_browser: old(state)@.by_browser.remove(browser_id),
            ..old(state)@
        }));
    }
    match closing {
        Some(c) => {
            if !c.silent {
                report_closed(state, tab, Some(browser_id), &mut out);
            }
        },
        None => {
            // Destroyed without a close (the window goes away): drop a stale entry if it is ours.
            let mine = match state.tabs.get(&tab) {
                Some(e) => match e.browser_id {
                    Some(b) => b == browser_id,
                    None => false,
                },
                None => false,
            };
            if mine {
                state.tabs.remove(&tab);
                proof {
                    assert(state@ =~= (Model { tabs: m.tabs.remove(tab), ..m }));
                }
                if !window_closing {
                    report_closed(state, tab, Some(browser_id), &mut out);
                }
            }
        },
    }
    proof {
        assert(out@ =~= old(state)@.closed(browser_id, tab, window_closing).1);
    }
    out
}

// ------------------------------------------------------------------------------ popups

/// How a page asked for its popup to be opened.
#[derive(Debug, Clone, Copy, PartialEq, Eq, Structural)]
pub enum Disposition {
    NewPopup,
    NewBackgroundTab,
    Other,
}

/// A popup that was allowed and waits for its view.
pub struct PendingPopup {
    pub popup_id: i32,
    /// `None`: not adopted (it keeps a window of its own).
    pub tab: Option<u64>,
    pub url: String,
    pub popup: bool,
    pub foreground: bool,
    pub boosts_version: Option<String>,
}

/// The popups that wait, oldest first, by the browser that opened them.
pub struct Popups {
    pub queues: HashMap<i32, VecDeque<PendingPopup>>,
}

/// The popups of an opener that wait.
pub open spec fn queue_of(queues: Map<i32, VecDeque<PendingPopup>>, opener: i32) -> Seq<PendingPopup> {
    if queues.contains_key(opener) { queues[opener]@ } else { Seq::empty() }
}

/// `after` is `before` with another popup at the end of the queue of `opener`.
pub open spec fn is_queued(before: Map<i32, VecDeque<PendingPopup>>, after: Map<i32, VecDeque<PendingPopup>>, opener: i32, p: PendingPopup) -> bool {
    &&& after.contains_key(opener)
    &&& after[opener]@ == queue_of(before, opener).push(p)
    &&& after.remove(opener) == before.remove(opener)
}

fn enqueue(popups: &mut Popups, opener: i32, p: PendingPopup)
    ensures
        is_queued(old(popups).queues@, final(popups).queues@, opener, p),
{
    let mut queue: VecDeque<PendingPopup> = match popups.queues.remove(&opener) {
        Some(q) => q,
        None => VecDeque::new(),
    };
    queue.push_back(p);
    popups.queues.insert(opener, queue);
    proof {
        assert(popups.queues@.remove(opener) =~= old(popups).queues@.remove(opener));
        assert(popups.queues@[opener]@ =~= queue_of(old(popups).queues@, opener).push(p));
    }
}

/// How a popup is presented: as a popup or a tab, in the foreground or not. Popups of tabs that an agent
/// controls have their own presentation.
pub open spec fn presentation(disposition: Disposition, features_popup: bool, agent: Option<(bool, bool)>) -> (bool, bool) {
    match agent {
        Some(p) => p,
        None => (features_popup || disposition == Disposition::NewPopup, disposition != Disposition::NewBackgroundTab),
    }
}

/// A web tab opens a popup that is allowed: it waits for its view, to be adopted as `tab`.
pub fn prepare_popup(
    popups: &mut Popups,
    opener_browser: i32,
    popup_id: i32,
    tab: u64,
    url: &str,
    disposition: Disposition,
    features_popup: bool,
    agent: Option<(bool, bool)>,
    boosts_version: String,
)
    ensures
        ({
            let q = queue_of(final(popups).queues@, opener_browser);
            let shown = presentation(disposition, features_popup, agent);
            &&& is_queued(old(popups).queues@, final(popups).queues@, opener_browser, q.last())
            &&& q.last().popup_id == popup_id
            &&& q.last().tab == Some(tab)
            &&& q.last().url@ == (if trimmed(url@).len() == 0 { "about:blank"@ } else { url@ })
            &&& q.last().popup == shown.0
            &&& q.last().foreground == shown.1
            &&& q.last().boosts_version == Some(boosts_version)
        }),
{
    let bare = trim_text(url);
    let url = if bare.as_str().is_empty() { copy_text("about:blank") } else { copy_text(url) };
    let shown: (bool, bool) = match agent {
        Some(p) => p,
        None => (features_popup || disposition == Disposition::NewPopup, disposition != Disposition::NewBackgroundTab),
    };
    let p = PendingPopup { popup_id, tab: Some(tab), url, popup: shown.0, foreground: shown.1, boosts_version: Some(boosts_version) };
    enqueue(popups, opener_browser, p);
}

/// A popup that keeps a window of its own was allowed: keeps the queue in step without adopting it.
pub fn skip_popup(popups: &mut Popups, opener_browser: i32, popup_id: i32)
    ensures
        ({
            let q = queue_of(final(popups).queues@, opener_browser);
            &&& is_queued(old(popups).queues@, final(popups).queues@, opener_browser, q.last())
            &&& q.last().popup_id == popup_id
            &&& q.last().tab is None
            &&& q.last().url@.len() == 0
            &&& !q.last().popup
            &&& !q.last().foreground
            &&& q.last().boosts_version is None
        }),
{
    let p = PendingPopup { popup_id, tab: None, url: String::new(), popup: false, foreground: false, boosts_version: None };
    enqueue(popups, opener_browser, p);
}

/// The popups other than `popup_id`, in order.
pub open spec fn without_popup(queue: Seq<PendingPopup>, popup_id: i32) -> Seq<PendingPopup>
    decreases queue.len(),
{
    if queue.len() == 0 {
        Seq::empty()
    } else if queue[0].popup_id == popup_id {
        without_popup(queue.skip(1), popup_id)
    } else {
        seq![queue[0]] + without_popup(queue.skip(1), popup_id)
    }
}

/// A popup was aborted.
pub fn popup_aborted(popups: &mut Popups, opener_browser: i32, popup_id: i32)
    ensures
        final(popups).queues@.remove(opener_browser) == old(popups).queues@.remove(opener_browser),
        final(popups).queues@.contains_key(opener_browser) == old(popups).queues@.contains_key(opener_browser),
        queue_of(final(popups).queues@, opener_browser) == without_popup(queue_of(old(popups).queues@, opener_browser), popup_id),
{
    match popups.queues.remove(&opener_browser) {
        Some(mut queue) => {
            let mut kept: VecDeque<PendingPopup> = VecDeque::new();
            let ghost whole = without_popup(queue@, popup_id);
            proof {
                assert(kept@ + whole =~= whole);
            }
            while queue.len() > 0
                invariant
                    whole == kept@ + without_popup(queue@, popup_id),
                decreases queue@.len(),
            {
                let ghost before = kept@;
                let ghost all = queue@;
                let ghost rest = queue@.skip(1);
                match queue.pop_front() {
                    Some(p) => {
                        proof {
                            assert(queue@ =~= rest);
                            assert(p == all[0]);
                        }
                        if p.popup_id != popup_id {
                            kept.push_back(p);
                            proof {
                                assert(before + (seq![p] + without_popup(rest, popup_id)) =~= kept@ + without_popup(rest, popup_id));
                            }
                        }
                    },
                    None => {},
                }
            }
            proof {
                assert(kept@ + Seq::<PendingPopup>::empty() =~= kept@);
            }
            popups.queues.insert(opener_browser, kept);
        },
        None => {},
    }
    proof {
        assert(popups.queues@.remove(opener_browser) =~= old(popups).queues@.remove(opener_browser));
    }
}

/// The tab that the next popup of an opener will be adopted under; `None`: not to be adopted.
pub fn next_popup_tab(popups: &Popups, opener: i32) -> (r: Option<u64>)
    ensures
        r == (if queue_of(popups.queues@, opener).len() > 0 { queue_of(popups.queues@, opener)[0].tab } else { None }),
{
    match popups.queues.get(&opener) {
        Some(queue) => if queue.len() > 0 { queue[0].tab } else { None },
        None => None,
    }
}

/// The popup of an opener that has waited longest, which waits no longer.
pub fn take_popup(popups: &mut Popups, opener: i32) -> (r: Option<PendingPopup>)
    ensures
        ({
            let q = queue_of(old(popups).queues@, opener);
            if q.len() == 0 {
                r is None && final(popups).queues@ == old(popups).queues@
            } else {
                &&& r == Some(q[0])
                &&& final(popups).queues@.contains_key(opener)
                &&& final(popups).queues@[opener]@ == q.skip(1)
                &&& final(popups).queues@.remove(opener) == old(popups).queues@.remove(opener)
            }
        }),
{
    let waiting = match popups.queues.get(&opener) {
        Some(queue) => queue.len() > 0,
        None => false,
    };
    if !waiting {
        return None;
    }
    match popups.queues.remove(&opener) {
        Some(mut queue) => {
            let ghost q = queue@;
            let p = queue.pop_front();
            proof {
                assert(queue@ =~= q.skip(1));
            }
            popups.queues.insert(opener, queue);
            proof {
                assert(popups.queues@.remove(opener) =~= old(popups).queues@.remove(opener));
            }
            p
        },
        None => None,
    }
}

/// The URL of an adopted popup: for a blank one, what its page shows, where that is known.
pub open spec fn url_adopted(pending: Seq<char>, page: Option<Seq<char>>) -> Seq<char> {
    if pending == "about:blank"@ && page is Some && page->0.len() > 0 { page->0 } else { pending }
}

/// The URL of an adopted popup.
pub fn adopted_url(pending: String, page: Option<String>) -> (r: String)
    ensures
        r@ == url_adopted(pending@, text_of(page)),
{
    if same_text(pending.as_str(), "about:blank") {
        match page {
            Some(url) => {
                if !url.as_str().is_empty() {
                    return url;
                }
            },
            None => {},
        }
    }
    pending
}

/// A popup that was adopted, as it is reported.
pub struct Adoption {
    pub tab: u64,
    /// The tab that opened it.
    pub opener: Option<u64>,
    pub url: String,
    pub popup: bool,
    pub foreground: bool,
}

/// Adopts the view of the popup that has waited longest ([`take_popup`]) as a hidden tab, and records the
/// boosts that its renderer was sent. `browser`: the browser of the view; `page`: the address that it shows;
/// `wrapper`: the wrapper of its tab, where one could be created. Returns what is reported of it; `None`: it
/// was not adopted and gets a window of its own.
pub fn adopt_popup(
    state: &mut Tabs,
    boosts: &mut Boosts,
    a: &Around,
    pending: PendingPopup,
    opener: Option<i32>,
    view: u64,
    browser: Option<i32>,
    page: Option<String>,
    wrapper: Option<u64>,
) -> (r: (Option<Adoption>, Vec<Effect>))
    ensures
        match (pending.tab, browser) {
            (Some(tab), Some(id)) => {
                &&& (final(state)@, r.1@) == old(state)@.adopted(*a, tab, opener, view, id, wrapper)
                &&& r.0 is Some <==> wrapper is Some
                &&& r.0 is Some ==> {
                    let told = r.0->0;
                    &&& told.tab == tab
                    &&& r.1@.last() == (Effect::Adopted { tab, opener: told.opener })
                    &&& told.url@ == url_adopted(pending.url@, text_of(page))
                    &&& told.popup == pending.popup
                    &&& told.foreground == pending.foreground
                }
                &&& final(boosts).sent@ == (if wrapper is Some && pending.boosts_version is Some {
                    old(boosts).sent@.insert(id, pending.boosts_version->0)
                } else {
                    old(boosts).sent@
                })
            },
            _ => r.0 is None && r.1@.len() == 0 && final(state)@ == old(state)@ && final(boosts).sent@ == old(boosts).sent@,
        },
{
    let (tab, id): (u64, i32) = match (pending.tab, browser) {
        (Some(tab), Some(id)) => (tab, id),
        _ => {
            return (None, Vec::new());
        },
    };
    let (adopted, out) = adopt_view(state, a, tab, opener, view, id, wrapper);
    if !adopted {
        return (None, out);
    }
    match pending.boosts_version {
        Some(version) => {
            record_sent(boosts, id, version);
        },
        None => {},
    }
    let opener_tab: Option<u64> = match opener {
        Some(o) => tab_for_browser(state, o),
        None => None,
    };
    let url = adopted_url(pending.url, page);
    (Some(Adoption { tab, opener: opener_tab, url, popup: pending.popup, foreground: pending.foreground }), out)
}

fn adopt_view(state: &mut Tabs, a: &Around, tab: u64, opener: Option<i32>, view: u64, browser_id: i32, wrapper: Option<u64>) -> (r: (
    bool,
    Vec<Effect>,
))
    ensures
        (final(state)@, r.1@) == old(state)@.adopted(*a, tab, opener, view, browser_id, wrapper),
        r.0 == (wrapper is Some),
{
    let mut out: Vec<Effect> = Vec::new();
    begin_generation(state, tab);
    match wrapper {
        None => (false, out),
        Some(w) => {
            new_wrapper(state, a, tab, w, &mut out);
            let ghost wrapped = state@;
            state.tabs.insert(
                tab,
                TabEntry { wrapper: w, view: Some(view), browser_id: Some(browser_id), internal: false, in_peek: false },
            );
            proof {
                assert(state@ =~= (Model {
                    tabs: wrapped.tabs.insert(
                        tab,
                        (TabEntry { wrapper: w, view: Some(view), browser_id: Some(browser_id), internal: false, in_peek: false }),
                    ),
                    ..wrapped
                }));
            }
            on_browser_created(state, tab, browser_id, &mut out);
            out.push(Effect::AddChild { wrapper: w, view });
            let opener_tab: Option<u64> = match opener {
                Some(o) => tab_for_browser(state, o),
                None => None,
            };
            out.push(Effect::Adopted { tab, opener: opener_tab });
            proof {
                assert(out@ =~= old(state)@.adopted(*a, tab, opener, view, browser_id, wrapper).1);
            }
            (true, out)
        },
    }
}

// ------------------------------------------------------------------------------ Peek

/// Detaches the view of a tab from its wrapper for the Peek overlay. The caller gets the view and puts
/// it there.
pub fn take_view_for_peek(state: &mut Tabs, a: &Around, tab: u64) -> (r: (Option<u64>, Vec<Effect>))
    ensures
        ({
            let m = old(state)@;
            if !m.tabs.contains_key(tab) || m.tabs[tab].in_peek {
                r.0 is None && r.1@.len() == 0 && final(state)@ == m
            } else {
                let e = m.tabs[tab];
                let moved = Model { tabs: m.tabs.insert(tab, (TabEntry { in_peek: true, ..e })), ..m };
                &&& final(state)@ == moved
                &&& r.0 == e.view
                &&& r.1@ == (match e.view {
                    Some(view) => seq![
                        (Effect::Detach { view }),
                        (Effect::ShowWrapper { wrapper: e.wrapper, visible: false }),
                        (Effect::PaintView { view, color: moved.background(*a, tab) }),
                        (Effect::RelayoutTools { tab }),
                    ],
                    None => Seq::empty(),
                })
            }
        }),
{
    let mut out: Vec<Effect> = Vec::new();
    let entry: Option<TabEntry> = match state.tabs.get(&tab) {
        Some(e) => Some(*e),
        None => None,
    };
    let e: TabEntry = match entry {
        Some(e) => e,
        None => {
            return (None, out);
        },
    };
    if e.in_peek {
        return (None, out);
    }
    state.tabs.insert(tab, TabEntry { in_peek: true, ..e });
    proof {
        assert(state@ =~= (Model { tabs: old(state)@.tabs.insert(tab, (TabEntry { in_peek: true, ..e })), ..old(state)@ }));
    }
    match e.view {
        Some(view) => {
            out.push(Effect::Detach { view });
            out.push(Effect::ShowWrapper { wrapper: e.wrapper, visible: false });
            out.push(Effect::PaintView { view, color: view_background(state, a, tab) });
            out.push(Effect::RelayoutTools { tab });
        },
        None => {},
    }
    (e.view, out)
}

// ------------------------------------------------------------------------------ colors of the chrome

/// The tab of the focused pane of a split.
pub open spec fn focused_tab(layout: LayoutModel) -> Option<u64> {
    match layout {
        LayoutModel::Split { horizontal, panes, focused } => if 0 <= focused < panes.len() { Some(panes[focused].tab) } else { None },
        _ => None,
    }
}

fn focused_pane(layout: &Layout) -> (r: Option<u64>)
    ensures
        r == focused_tab(layout@),
{
    match layout {
        Layout::Split { horizontal: _, panes, focused } => if *focused < panes.len() { Some(panes[*focused].tab) } else { None },
        _ => None,
    }
}

impl Model {
    /// The wrappers from position `i` on get the colors of the chrome.
    pub open spec fn recolored(self, a: Around, ids: Seq<u64>, focused: Option<u64>, i: int) -> (Model, Seq<Effect>)
        decreases ids.len() - i,
    {
        if i < 0 || i >= ids.len() {
            (self, Seq::empty())
        } else {
            let one = self.painted(a, ids[i], self.tabs[ids[i]].wrapper, if focused == Some(ids[i]) { a.accent } else { a.frame });
            after(one.1, one.0.recolored(a, ids, focused, i + 1))
        }
    }
}

/// Recolors the wrappers after the colors of the chrome changed.
pub fn on_chrome_colors_changed(state: &mut Tabs, a: &Around) -> (r: Vec<Effect>)
    ensures
        ({
            let m = old(state)@;
            let focused = if m.fullscreen is None { focused_tab(m.shown) } else { None };
            let one = m.recolored(*a, ascending_u64(m.tabs), focused, 0);
            final(state)@ == one.0 && r@ == one.1.push(Effect::LayoutMasks)
        }),
{
    let mut out: Vec<Effect> = Vec::new();
    let focused: Option<u64> = if state.fullscreen.is_none() { focused_pane(&state.shown) } else { None };
    let ids = keys_u64(&state.tabs);
    let ghost whole = old(state)@.recolored(*a, ids@, focused, 0);
    proof {
        assert(after(out@, whole).1 =~= whole.1);
    }
    let mut i: usize = 0;
    while i < ids.len()
        invariant
            i <= ids@.len(),
            lists_keys_u64(ids@, state@.tabs),
            whole == after(out@, state@.recolored(*a, ids@, focused, i as int)),
        decreases ids@.len() - i,
    {
        let id: u64 = ids[i];
        let ghost before = out@;
        proof {
            assert(ids@.contains(id));
            assert(state@.tabs.contains_key(id));
        }
        let wrapper: u64 = match wrapper_of(state, id) {
            Some(w) => w,
            None => 0,
        };
        let mine = match focused {
            Some(f) => f == id,
            None => false,
        };
        let color: u32 = if mine { a.accent } else { a.frame };
        let ghost one = state@.painted(*a, id, wrapper, color);
        let ghost rest = one.0.recolored(*a, ids@, focused, i + 1);
        set_wrapper_color(state, a, id, wrapper, color, &mut out);
        proof {
            assert(before + (one.1 + rest.1) =~= out@ + rest.1);
        }
        i = i + 1;
    }
    proof {
        assert(out@ + Seq::<Effect>::empty() =~= out@);
    }
    out.push(Effect::LayoutMasks);
    out
}

// ------------------------------------------------------------------------------ panes on screen

/// A rectangle with an area.
pub open spec fn has_area(r: Rect) -> bool {
    r.width > 0 && r.height > 0
}

impl Model {
    /// The panes on screen among the tabs from position `i` on.
    pub open spec fn panes_on_screen(self, a: Around, tabs: Seq<u64>, rects: Map<u64, Rect>, i: int) -> Seq<(Rect, u32)>
        decreases tabs.len() - i,
    {
        if i < 0 || i >= tabs.len() {
            Seq::empty()
        } else {
            let t = tabs[i];
            let rest = self.panes_on_screen(a, tabs, rects, i + 1);
            if self.tabs.contains_key(t) && !self.tabs[t].in_peek && rects.contains_key(t) && has_area(rects[t]) {
                let base = if focused_tab(self.shown) == Some(t) { a.accent } else { a.frame };
                seq![(rects[t], self.shown_color(a, t, base))] + rest
            } else {
                rest
            }
        }
    }

    /// The panes on screen whose corners are masked.
    pub open spec fn visible_panes(self, a: Around, empty: Option<Rect>, rects: Map<u64, Rect>) -> Seq<(Rect, u32)> {
        if self.fullscreen is Some {
            Seq::empty()
        } else if self.shown is Empty {
            match empty {
                Some(r) => if has_area(r) { seq![(r, a.frame)] } else { Seq::empty() },
                None => Seq::empty(),
            }
        } else {
            self.panes_on_screen(a, tabs_of(self.shown), rects, 0)
        }
    }
}

/// The panes on screen whose corners are masked, in layout order: the wrapper's rectangle in the window
/// and the ring color. The view of the empty state counts as one unfocused pane. None in page
/// fullscreen; a tab in Peek has its own card. `empty`: where the view of the empty state is, if it is
/// drawn; `rects`: where each wrapper that is drawn is.
pub fn visible_pane_rects(state: &Tabs, a: &Around, empty: Option<Rect>, rects: &HashMap<u64, Rect>) -> (r: Vec<(Rect, u32)>)
    ensures
        r@ == state@.visible_panes(*a, empty, rects@),
{
    let mut out: Vec<(Rect, u32)> = Vec::new();
    if state.fullscreen.is_some() {
        return out;
    }
    let is_empty = match state.shown {
        Layout::Empty => true,
        _ => false,
    };
    if is_empty {
        match empty {
            Some(rect) => {
                if rect.width > 0 && rect.height > 0 {
                    out.push((rect, a.frame));
                }
            },
            None => {},
        }
        proof {
            assert(out@ =~= state@.visible_panes(*a, empty, rects@));
        }
        return out;
    }
    let focused = focused_pane(&state.shown);
    let tabs = layout_tabs(&state.shown);
    let ghost whole = state@.panes_on_screen(*a, tabs@, rects@, 0);
    proof {
        assert(out@ + whole =~= whole);
    }
    let mut i: usize = 0;
    while i < tabs.len()
        invariant
            i <= tabs@.len(),
            focused == focused_tab(state@.shown),
            whole == out@ + state@.panes_on_screen(*a, tabs@, rects@, i as int),
        decreases tabs@.len() - i,
    {
        let tab: u64 = tabs[i];
        let ghost before = out@;
        let ghost rest = state@.panes_on_screen(*a, tabs@, rects@, i + 1);
        let in_content = match state.tabs.get(&tab) {
            Some(e) => !e.in_peek,
            None => false,
        };
        if in_content {
            match rects.get(&tab) {
                Some(rect) => {
                    if rect.width > 0 && rect.height > 0 {
                        let mine = match focused {
                            Some(f) => f == tab,
                            None => false,
                        };
                        let base: u32 = if mine { a.accent } else { a.frame };
                        let color: u32 = shown_wrapper_color(state, a, tab, base);
                        out.push((*rect, color));
                        proof {
                            assert(before + (seq![(*rect, color)] + rest) =~= out@ + rest);
                        }
                    }
                },
                None => {},
            }
        }
        i = i + 1;
    }
    proof {
        assert(out@ + Seq::<(Rect, u32)>::empty() =~= out@);
    }
    out
}

// ------------------------------------------------------------------------------ boosts

/// The boost list that the renderer of each browser was sent last, by its version.
pub struct Boosts {
    pub sent: HashMap<i32, String>,
}

/// A boost is worth sending: it has a host, and a style sheet or a script.
pub fn keeps_boost(host: &str, css: &str, js: &str) -> (r: bool)
    ensures
        r == (trimmed(host@).len() > 0 && (trimmed(css@).len() > 0 || trimmed(js@).len() > 0)),
{
    let host = trim_text(host);
    let css = trim_text(css);
    let js = trim_text(js);
    !host.as_str().is_empty() && (!css.as_str().is_empty() || !js.as_str().is_empty())
}

/// A boost as JSON.
pub open spec fn boost_json(b: BoostData) -> Seq<char> {
    "{\"host\":"@ + json_quoted(b.host@) + ",\"css\":"@ + json_quoted(b.css@) + ",\"js\":"@ + json_quoted(b.js@) + "}"@
}

/// A boost is worth sending.
pub open spec fn worth_sending(b: BoostData) -> bool {
    trimmed(b.host@).len() > 0 && (trimmed(b.css@).len() > 0 || trimmed(b.js@).len() > 0)
}

/// The boosts from position `i` on that are worth sending, as JSON, with commas between them; `first`: none
/// stands before.
pub open spec fn boosts_json_from(list: Seq<BoostData>, i: int, first: bool) -> Seq<char>
    decreases list.len() - i,
{
    if i < 0 || i >= list.len() {
        Seq::empty()
    } else if worth_sending(list[i]) {
        (if first { Seq::empty() } else { ","@ }) + boost_json(list[i]) + boosts_json_from(list, i + 1, false)
    } else {
        boosts_json_from(list, i + 1, first)
    }
}

/// The list of the boosts that are worth sending, as JSON.
pub open spec fn boosts_json(list: Seq<BoostData>) -> Seq<char> {
    "["@ + boosts_json_from(list, 0, true) + "]"@
}

/// What the renderer of a page is sent: the boosts of its host that are worth sending, as JSON, and the
/// version of that list. `list`: the enabled boosts whose host fits the page.
pub fn boosts_payload_for(list: &Vec<BoostData>) -> (r: (String, String))
    ensures
        r.0@ == boosts_json(list@),
        r.1@ == hex(texts_hash(seq![boosts_json(list@)]) as nat, 16),
{
    let total: usize = list.len();
    let mut out = copy_text("[");
    let mut first = true;
    let mut i: usize = 0;
    let ghost whole = "["@ + boosts_json_from(list@, 0, true);
    while i < total
        invariant
            i <= total,
            total == list@.len(),
            whole == "["@ + boosts_json_from(list@, 0, true),
            whole == out@ + boosts_json_from(list@, i as int, first),
        decreases total - i,
    {
        let b: &BoostData = &list[i];
        if keeps_boost(b.host.as_str(), b.css.as_str(), b.js.as_str()) {
            let ghost before = out@;
            let ghost head: Seq<char> = if first { Seq::empty() } else { ","@ };
            if !first {
                out.append(",");
            }
            proof {
                assert(out@ =~= before + head);
            }
            out.append("{\"host\":");
            out.append(json_string(b.host.as_str()).as_str());
            out.append(",\"css\":");
            out.append(json_string(b.css.as_str()).as_str());
            out.append(",\"js\":");
            out.append(json_string(b.js.as_str()).as_str());
            out.append("}");
            proof {
                let rest = boosts_json_from(list@, i + 1, false);
                assert(out@ =~= before + head + boost_json(list@[i as int]));
                assert(before + (head + boost_json(list@[i as int]) + rest) =~= out@ + rest);
            }
            first = false;
        }
        i = i + 1;
    }
    proof {
        assert(out@ + Seq::<char>::empty() =~= out@);
    }
    out.append("]");
    let version = boosts_version(out.as_str());
    (out, version)
}

/// Two URLs belong to the same site. The arguments are their sites, where they have one.
pub fn same_site(a: Option<&str>, b: Option<&str>) -> (r: bool)
    ensures
        r == (a is Some && b is Some && a->0@ == b->0@),
{
    match (a, b) {
        (Some(x), Some(y)) => same_text(x, y),
        _ => false,
    }
}

/// The version that was sent to the renderer of a browser.
pub open spec fn sent_version(sent: Map<i32, String>, browser: i32) -> Option<Seq<char>> {
    if sent.contains_key(browser) { Some(sent[browser]@) } else { None }
}

/// The list of this version was sent to the renderer of a browser.
pub fn record_sent(boosts: &mut Boosts, browser_id: i32, version: String)
    ensures
        final(boosts).sent@ == old(boosts).sent@.insert(browser_id, version),
{
    boosts.sent.insert(browser_id, version);
}

/// Before a reload or a navigation of a web tab: whether its renderer gets the boosts of the target
/// (which then count as sent). Only within a site: a navigation to another one gets a renderer of its
/// own, which must not learn this site's boosts.
pub fn sync_boosts(boosts: &mut Boosts, browser_id: i32, ui_browser: bool, within_site: bool, version: &str) -> (r: bool)
    ensures
        r == (!ui_browser && within_site && sent_version(old(boosts).sent@, browser_id) != Some(version@)),
        !r ==> final(boosts).sent@ == old(boosts).sent@,
        r ==> sent_version(final(boosts).sent@, browser_id) == Some(version@),
        final(boosts).sent@.remove(browser_id) == old(boosts).sent@.remove(browser_id),
{
    if ui_browser || !within_site {
        return false;
    }
    let known = match boosts.sent.get(&browser_id) {
        Some(v) => same_text(v.as_str(), version),
        None => false,
    };
    if known {
        return false;
    }
    boosts.sent.insert(browser_id, copy_text(version));
    proof {
        assert(boosts.sent@.remove(browser_id) =~= old(boosts).sent@.remove(browser_id));
    }
    true
}

/// A renderer applied the list `version` to a new document: whether it gets the current one.
pub fn on_boosts_check(boosts: &mut Boosts, browser_id: i32, current: String, version: &str) -> (r: bool)
    ensures
        r == (current@ != version@),
        final(boosts).sent@ == old(boosts).sent@.insert(browser_id, current),
{
    let stale = !same_text(current.as_str(), version);
    boosts.sent.insert(browser_id, current);
    stale
}

// ------------------------------------------------------------------------------ page actions

/// What loading a URL in a tab takes.
#[derive(Debug, Clone, Copy, PartialEq, Eq, Structural)]
pub enum Load {
    /// Hand the URL to the operating system; the page stays.
    External,
    /// Sync the boosts and load the URL in this browser.
    Page(i32),
    Nothing,
}

/// What loading a URL in a tab takes. `external`: the URL is an external protocol.
pub open spec fn load_of(m: Model, tab: u64, external: bool) -> Load {
    if external {
        Load::External
    } else if m.tabs.contains_key(tab) && m.tabs[tab].browser_id is Some {
        Load::Page(m.tabs[tab].browser_id->0)
    } else {
        Load::Nothing
    }
}

/// What loading a URL in a tab takes. `external`: the URL is an external protocol.
pub fn load_url(state: &Tabs, tab: u64, external: bool) -> (r: Load)
    ensures
        r == load_of(state@, tab, external),
        r == (if external {
            Load::External
        } else if state@.tabs.contains_key(tab) && state@.tabs[tab].browser_id is Some {
            Load::Page(state@.tabs[tab].browser_id->0)
        } else {
            Load::Nothing
        }),
{
    if external {
        return Load::External;
    }
    match browser_for_tab(state, tab) {
        Some(b) => Load::Page(b),
        None => Load::Nothing,
    }
}

/// Reloads a tab: the browser that is reloaded, which gets the boosts of its page first.
pub fn reload(state: &Tabs, tab: u64) -> (r: Option<i32>)
    ensures
        r == (if state@.tabs.contains_key(tab) { state@.tabs[tab].browser_id } else { None }),
{
    browser_for_tab(state, tab)
}

/// Zoom in, out or back.
#[derive(Debug, Clone, Copy, PartialEq, Eq, Structural)]
pub enum ZoomDirection {
    In,
    Out,
    Reset,
}

/// The preset zoom levels (percent), in ascending order.
pub open spec fn zoom_presets() -> Seq<i32> {
    seq![25, 33, 50, 67, 75, 80, 90, 100, 110, 125, 150, 175, 200, 250, 300, 400, 500]
}

/// The first preset from position `i` on that is more than half a percent above the zoom.
pub open spec fn preset_above(doubled: int, i: int) -> i32
    decreases zoom_presets().len() - i,
{
    if i < 0 || i >= zoom_presets().len() {
        500
    } else if doubled < 2 * (2 * zoom_presets()[i] - 1) {
        zoom_presets()[i]
    } else {
        preset_above(doubled, i + 1)
    }
}

/// The last preset up to position `i` that is more than half a percent below the zoom.
pub open spec fn preset_below(doubled: int, i: int) -> i32
    decreases i + 1,
{
    if i < 0 || i >= zoom_presets().len() {
        25
    } else if doubled > 2 * (2 * zoom_presets()[i] + 1) {
        zoom_presets()[i]
    } else {
        preset_below(doubled, i - 1)
    }
}

/// The next zoom (percent). `doubled` places twice the current percentage: an even number `2 * n` is
/// exactly `n`, an odd one `2 * n + 1` lies between `n` and `n + 1`.
pub open spec fn next_zoom(direction: ZoomDirection, doubled: int) -> i32 {
    match direction {
        ZoomDirection::Reset => 100,
        ZoomDirection::In => preset_above(doubled, 0),
        ZoomDirection::Out => preset_below(doubled, zoom_presets().len() - 1),
    }
}

/// Steps through the preset zoom levels.
pub fn zoom(direction: ZoomDirection, doubled: i64) -> (r: i32)
    ensures
        r == next_zoom(direction, doubled as int),
{
    let presets: Vec<i32> = vec![25, 33, 50, 67, 75, 80, 90, 100, 110, 125, 150, 175, 200, 250, 300, 400, 500];
    proof {
        assert(presets@ =~= zoom_presets());
        assert(forall|k: int| 0 <= k < zoom_presets().len() ==> 25 <= #[trigger] zoom_presets()[k] <= 500);
    }
    match direction {
        ZoomDirection::Reset => 100,
        ZoomDirection::In => {
            let mut i: usize = 0;
            while i < presets.len()
                invariant
                    i <= presets@.len(),
                    presets@ == zoom_presets(),
                    forall|k: int| 0 <= k < zoom_presets().len() ==> 25 <= #[trigger] zoom_presets()[k] <= 500,
                    next_zoom(direction, doubled as int) == preset_above(doubled as int, i as int),
                decreases presets@.len() - i,
            {
                if doubled < 2 * (2 * presets[i] as i64 - 1) {
                    return presets[i];
                }
                i = i + 1;
            }
            500
        },
        ZoomDirection::Out => {
            let mut i: usize = presets.len();
            while i > 0
                invariant
                    i <= presets@.len(),
                    presets@ == zoom_presets(),
                    forall|k: int| 0 <= k < zoom_presets().len() ==> 25 <= #[trigger] zoom_presets()[k] <= 500,
                    next_zoom(direction, doubled as int) == preset_below(doubled as int, i - 1),
                decreases i,
            {
                if doubled > 2 * (2 * presets[i - 1] as i64 + 1) {
                    return presets[i - 1];
                }
                i = i - 1;
            }
            25
        },
    }
}

/// Whether the zoom level of a tab is reported: when it changed, or always. Two numbers are the same
/// level if and only if they are equal.
pub open spec fn zoom_is_news(m: Model, tab: u64, level: u64, force: bool) -> bool {
    force || !(m.zoom.contains_key(tab) && m.zoom[tab] == level)
}

/// Whether the zoom level of a tab is reported: when it changed, or always. Two numbers are the same
/// level if and only if they are equal.
pub fn report_zoom(state: &mut Tabs, tab: u64, level: u64, force: bool) -> (r: bool)
    ensures
        r == zoom_is_news(old(state)@, tab, level, force),
        r == (force || !(old(state)@.zoom.contains_key(tab) && old(state)@.zoom[tab] == level)),
        final(state)@ == (Model { zoom: old(state)@.zoom.insert(tab, level), ..old(state)@ }),
{
    let changed = match state.zoom.get(&tab) {
        Some(l) => *l != level,
        None => true,
    };
    state.zoom.insert(tab, level);
    proof {
        assert(state@ =~= (Model { zoom: old(state)@.zoom.insert(tab, level), ..old(state)@ }));
    }
    force || changed
}

/// The tab that has the focus although it is hidden: `tab` is the tab that has the focus, if one has.
pub fn focus_in_hidden_tab(state: &Tabs, tab: Option<u64>, peek_visible: bool) -> (r: Option<u64>)
    ensures
        match tab {
            Some(t) => r == (if state@.in_peek(t) {
                if peek_visible { None } else { tab }
            } else if tabs_of(state@.shown).contains(t) || state@.is_fullscreen(t) {
                None
            } else {
                tab
            }),
            None => r is None,
        },
{
    match tab {
        Some(t) => if is_tab_visible(state, t, peek_visible) { None } else { Some(t) },
        None => None,
    }
}

/// Developer tools may open on internal pages: only in a debug build where the variable says so.
pub fn devtools_on_internal_pages(debug_build: bool, variable: Option<&str>) -> (r: bool)
    ensures
        r == (debug_build && variable is Some && variable->0@ == "1"@),
{
    debug_build && match variable {
        Some(v) => same_text(v, "1"),
        None => false,
    }
}

/// Developer tools may open for a browser: never for the shell's own pages, unless that is allowed.
pub fn show_dev_tools(ui_browser: bool, internal_allowed: bool) -> (r: bool)
    ensures
        r == (!ui_browser || internal_allowed),
{
    !ui_browser || internal_allowed
}

/// Whether a search in a page starts over before it searches: a new query does, so that it begins at
/// the top.
pub fn find(find_next: bool) -> (restart: bool)
    ensures
        restart == !find_next,
{
    !find_next
}

/// The browsers of all tabs that are not closing, in ascending order.
pub fn live_browsers(state: &Tabs) -> (r: Vec<i32>)
    ensures
        forall|i: int, j: int| 0 <= i < j < r@.len() ==> r@[i] < r@[j],
        forall|b: i32| #[trigger] r@.contains(b) <==> (state@.by_browser.contains_key(b) && !state@.closing.contains_key(b)),
{
    let ids = crate::keys::keys_i32(&state.by_browser);
    let mut out: Vec<i32> = Vec::new();
    let mut i: usize = 0;
    while i < ids.len()
        invariant
            i <= ids@.len(),
            crate::keys::lists_keys_i32(ids@, state@.by_browser),
            forall|x: int, y: int| 0 <= x < y < out@.len() ==> out@[x] < out@[y],
            forall|x: int| 0 <= x < out@.len() && i < ids@.len() ==> out@[x] < ids@[i as int],
            forall|b: i32| #[trigger] out@.contains(b) ==> state@.by_browser.contains_key(b) && !state@.closing.contains_key(b),
            forall|k: int| 0 <= k < i && !state@.closing.contains_key(#[trigger] ids@[k]) ==> out@.contains(ids@[k]),
        decreases ids@.len() - i,
    {
        let id: i32 = ids[i];
        let ghost before = out@;
        proof {
            assert(ids@.contains(id));
            assert(state@.by_browser.contains_key(id));
        }
        if !is_closing_browser(state, id) {
            out.push(id);
            proof {
                assert(out@[out@.len() - 1] == id);
                assert forall|b: i32| #[trigger] out@.contains(b) implies state@.by_browser.contains_key(b) && !state@.closing.contains_key(
                    b,
                ) by {
                    if b != id {
                        let x = choose|x: int| 0 <= x < out@.len() && out@[x] == b;
                        assert(before[x] == b);
                        assert(before.contains(b));
                    }
                }
                assert forall|k: int| 0 <= k < i + 1 && !state@.closing.contains_key(#[trigger] ids@[k]) implies out@.contains(ids@[k]) by {
                    if k < i {
                        assert(before.contains(ids@[k]));
                        let x = choose|x: int| 0 <= x < before.len() && before[x] == ids@[k];
                        assert(out@[x] == ids@[k]);
                    } else {
                        assert(out@[out@.len() - 1] == ids@[k]);
                    }
                }
            }
        }
        i = i + 1;
    }
    proof {
        assert forall|b: i32| #[trigger] out@.contains(b) <==> (state@.by_browser.contains_key(b) && !state@.closing.contains_key(b)) by {
            if state@.by_browser.contains_key(b) && !state@.closing.contains_key(b) {
                assert(ids@.contains(b));
                let k = choose|k: int| 0 <= k < ids@.len() && ids@[k] == b;
                assert(out@.contains(ids@[k]));
            }
        }
    }
    out
}

// ------------------------------------------------------------------------------ teardown

/// Drops everything. (Which closes were reported is remembered.)
pub fn clear(state: &mut Tabs, popups: &mut Popups, boosts: &mut Boosts)
    ensures
        final(state)@ == (Model {
            tabs: Map::empty(),
            by_browser: Map::empty(),
            closing: Map::empty(),
            shown: LayoutModel::Empty,
            colors: Map::empty(),
            reported: old(state)@.reported,
            fullscreen: None,
            zoom: Map::empty(),
        }),
        final(popups).queues@ == Map::<i32, VecDeque<PendingPopup>>::empty(),
        final(boosts).sent@ == Map::<i32, String>::empty(),
{
    state.tabs.clear();
    state.closing.clear();
    state.by_browser.clear();
    state.colors.clear();
    popups.queues.clear();
    boosts.sent.clear();
    state.zoom.clear();
    state.fullscreen = None;
    state.shown = Layout::Empty;
}

/// What the views of a tab say.
pub struct TabSeen {
    /// The wrapper is visible.
    pub visible: bool,
    pub wrapper_bounds: Rect,
    /// Where the view begins in the wrapper, if there is a view.
    pub view_origin: (i32, i32),
    /// Developer tools are docked beside the page.
    pub devtools_docked: bool,
    /// The address of the page, if the browser has one.
    pub url: Option<String>,
    /// The enabled boosts whose host fits that page.
    pub boosts: Vec<BoostData>,
}

/// The boosts of a tab as they look from outside.
pub struct BoostState {
    /// The version that its renderer was sent last.
    pub sent: Option<String>,
    /// The version for the page that is shown.
    pub expected: String,
    /// How many boosts that list holds.
    pub count: usize,
}

/// A tab as it looks from outside.
pub struct TabState {
    pub boosts: Option<BoostState>,
    pub tab: u64,
    pub browser_id: Option<i32>,
    pub internal: bool,
    pub in_peek: bool,
    pub visible: bool,
    pub has_view: bool,
    pub view_origin: Option<(i32, i32)>,
    pub devtools_docked: bool,
    pub wrapper_bounds: Rect,
    /// The base color of the wrapper, as `#` and eight digits.
    pub color: Option<String>,
    pub url: Option<String>,
}

/// The registry as it looks from outside.
pub struct Snapshot {
    pub tabs: Vec<TabState>,
    pub closing: Vec<i32>,
    pub shown: Layout,
    pub fullscreen: Option<Fullscreen>,
    pub pending_popups: usize,
}

/// How many boosts are worth sending.
pub open spec fn worth_count(list: Seq<BoostData>) -> nat
    decreases list.len(),
{
    if list.len() == 0 {
        0
    } else {
        worth_count(list.drop_last()) + if worth_sending(list.last()) { 1nat } else { 0 }
    }
}

fn count_worth(list: &Vec<BoostData>) -> (r: usize)
    ensures
        r == worth_count(list@),
{
    let mut count: usize = 0;
    let mut i: usize = 0;
    while i < list.len()
        invariant
            i <= list@.len(),
            count <= i,
            count == worth_count(list@.take(i as int)),
        decreases list@.len() - i,
    {
        let b: &BoostData = &list[i];
        proof {
            assert(list@.take(i + 1).drop_last() =~= list@.take(i as int));
            assert(list@.take(i + 1).last() == list@[i as int]);
        }
        if keeps_boost(b.host.as_str(), b.css.as_str(), b.js.as_str()) {
            count = count + 1;
        }
        i = i + 1;
    }
    proof {
        assert(list@.take(i as int) =~= list@);
    }
    count
}

/// The text of an address, where there is one.
pub open spec fn text_of(text: Option<String>) -> Option<Seq<char>> {
    match text {
        Some(t) => Some(t@),
        None => None,
    }
}

/// What the boosts of a web tab look like from outside; only of one whose browser has a page.
pub open spec fn boosts_look(sent: Map<i32, String>, e: TabEntry, seen: TabSeen, s: Option<BoostState>) -> bool {
    match s {
        Some(b) => {
            &&& !e.internal && e.browser_id is Some && seen.url is Some
            &&& text_of(b.sent) == sent_version(sent, e.browser_id->0)
            &&& b.expected@ == hex(texts_hash(seq![boosts_json(seen.boosts@)]) as nat, 16)
            &&& b.count == worth_count(seen.boosts@)
        },
        None => e.internal || e.browser_id is None || seen.url is None,
    }
}

/// What a tab looks like from outside.
pub open spec fn looks_like(m: Model, sent: Map<i32, String>, tab: u64, seen: TabSeen, s: TabState) -> bool {
    let e = m.tabs[tab];
    &&& boosts_look(sent, e, seen, s.boosts)
    &&& s.tab == tab
    &&& s.browser_id == e.browser_id
    &&& s.internal == e.internal
    &&& s.in_peek == e.in_peek
    &&& s.visible == seen.visible
    &&& s.has_view == (e.view is Some)
    &&& s.view_origin == (if e.view is Some { Some(seen.view_origin) } else { None })
    &&& s.devtools_docked == seen.devtools_docked
    &&& s.wrapper_bounds == seen.wrapper_bounds
    &&& match s.color {
        Some(c) => m.colors.contains_key(tab) && c@ == "#"@ + crate::text::hex(m.colors[tab] as nat, 8),
        None => !m.colors.contains_key(tab),
    }
    &&& text_of(s.url) == (if e.browser_id is Some { text_of(seen.url) } else { None })
}

fn boost_state(boosts: &Boosts, e: TabEntry, seen: &TabSeen) -> (r: Option<BoostState>)
    ensures
        boosts_look(boosts.sent@, e, *seen, r),
{
    match e.browser_id {
        Some(browser) if !e.internal && seen.url.is_some() => {
            let sent: Option<String> = match boosts.sent.get(&browser) {
                Some(version) => Some(copy_text(version.as_str())),
                None => None,
            };
            let (_, expected) = boosts_payload_for(&seen.boosts);
            Some(BoostState { sent, expected, count: count_worth(&seen.boosts) })
        },
        _ => None,
    }
}

fn tab_state(state: &Tabs, boosts: &Boosts, id: u64, e: TabEntry, seen: &TabSeen) -> (r: TabState)
    requires
        state@.tabs.contains_key(id),
        state@.tabs[id] == e,
    ensures
        looks_like(state@, boosts.sent@, id, *seen, r),
{
    let color: Option<String> = match state.colors.get(&id) {
        Some(c) => {
            let digits = crate::text::hex_text(*c as u64, 8);
            Some(crate::text::join2("#", digits.as_str()))
        },
        None => None,
    };
    let url: Option<String> = match (&seen.url, e.browser_id) {
        (Some(u), Some(_)) => Some(copy_text(u.as_str())),
        _ => None,
    };
    TabState {
        boosts: boost_state(boosts, e, seen),
        tab: id,
        browser_id: e.browser_id,
        internal: e.internal,
        in_peek: e.in_peek,
        visible: seen.visible,
        has_view: e.view.is_some(),
        view_origin: if e.view.is_some() { Some(seen.view_origin) } else { None },
        devtools_docked: seen.devtools_docked,
        wrapper_bounds: seen.wrapper_bounds,
        color,
        url,
    }
}

/// How many popups of the openers from position `i` on wait.
pub open spec fn waiting_popups(queues: Map<i32, VecDeque<PendingPopup>>, openers: Seq<i32>, i: int) -> nat
    decreases openers.len() - i,
{
    if i < 0 || i >= openers.len() {
        0
    } else {
        queues[openers[i]]@.len() + waiting_popups(queues, openers, i + 1)
    }
}

/// The registry as it looks from outside, the tabs and the closing browsers in ascending order. `seen`:
/// what the views of each tab say.
pub fn debug_snapshot(state: &Tabs, popups: &Popups, boosts: &Boosts, seen: &HashMap<u64, TabSeen>) -> (r: Snapshot)
    requires
        forall|tab: u64| #[trigger] state@.tabs.contains_key(tab) ==> seen@.contains_key(tab),
    ensures
        r.tabs@.len() == ascending_u64(state@.tabs).len(),
        forall|i: int|
            0 <= i < r.tabs@.len() ==> ({
                let tab = ascending_u64(state@.tabs)[i];
                looks_like(state@, boosts.sent@, tab, seen@[tab], #[trigger] r.tabs@[i])
            }),
        r.closing@ == crate::keys::ascending_i32(state@.closing),
        r.shown@ == state@.shown,
        r.fullscreen == state@.fullscreen,
        waiting_popups(popups.queues@, crate::keys::ascending_i32(popups.queues@), 0) <= usize::MAX ==> r.pending_popups
            == waiting_popups(popups.queues@, crate::keys::ascending_i32(popups.queues@), 0),
{
    let ids = keys_u64(&state.tabs);
    let mut tabs: Vec<TabState> = Vec::new();
    let mut i: usize = 0;
    while i < ids.len()
        invariant
            i <= ids@.len(),
            lists_keys_u64(ids@, state@.tabs),
            tabs@.len() == i,
            forall|tab: u64| #[trigger] state@.tabs.contains_key(tab) ==> seen@.contains_key(tab),
            forall|k: int| 0 <= k < i ==> looks_like(state@, boosts.sent@, ids@[k], seen@[ids@[k]], #[trigger] tabs@[k]),
        decreases ids@.len() - i,
    {
        let id: u64 = ids[i];
        proof {
            assert(ids@.contains(id));
            assert(state@.tabs.contains_key(id));
        }
        match (state.tabs.get(&id), seen.get(&id)) {
            (Some(e), Some(about)) => {
                tabs.push(tab_state(state, boosts, id, *e, about));
            },
            _ => {},
        }
        i = i + 1;
    }
    let closing = crate::keys::keys_i32(&state.closing);
    let openers = crate::keys::keys_i32(&popups.queues);
    let ghost whole = waiting_popups(popups.queues@, openers@, 0);
    let mut pending_popups: usize = 0;
    let mut j: usize = 0;
    while j < openers.len()
        invariant
            j <= openers@.len(),
            crate::keys::lists_keys_i32(openers@, popups.queues@),
            whole <= usize::MAX ==> whole == pending_popups + waiting_popups(popups.queues@, openers@, j as int),
        decreases openers@.len() - j,
    {
        proof {
            assert(openers@.contains(openers@[j as int]));
            assert(popups.queues@.contains_key(openers@[j as int]));
        }
        match popups.queues.get(&openers[j]) {
            Some(queue) => {
                let more: usize = queue.len();
                pending_popups = if more > usize::MAX - pending_popups { usize::MAX } else { pending_popups + more };
            },
            None => {},
        }
        j = j + 1;
    }
    Snapshot { tabs, closing, shown: copy_layout(&state.shown), fullscreen: state.fullscreen, pending_popups }
}

// ------------------------------------------------------------------------------ what holds

/// A close that was reported once is not reported again before the tab's next browser generation,
/// however its browser goes away.
pub proof fn a_close_is_reported_once(m: Model, a: Around, tab: u64, browser: i32, window_closing: bool, closable: bool)
    ensures
        m.reporting(tab, Some(browser)).0.reported.contains((tab, browser)),
        m.reported.contains((tab, browser)) ==> m.reporting(tab, Some(browser)) == (m, Seq::<Effect>::empty()),
        m.reported.contains((tab, browser)) ==> m.closed(browser, tab, window_closing).1.len() == 0,
        m.closed(browser, tab, window_closing).1.len() > 0 ==> m.closed(browser, tab, window_closing).0.reported.contains((tab, browser)),
{
    let once = m.reporting(tab, Some(browser)).0;
    let without = Model {
        tabs: m.tabs.remove(tab),
        closing: m.closing.remove(browser),
        by_browser: m.by_browser.remove(browser),
        ..m
    };
}

/// The old browser of a replacement is never reported: neither while its silent close is in progress
/// nor after it, as long as the tab's generation lasts.
pub proof fn a_replaced_browser_is_never_reported(m: Model, r: Replacing, closable: bool, browser: i32, window_closing: bool)
    requires
        r.old_id == Some(browser),
    ensures
        m.replace_worked(r, closable).0.reported.contains((r.tab, browser)),
        m.replace_worked(r, closable).0.closed(browser, r.tab, window_closing).1.len() == 0,
        m.closing.contains_key(browser) && m.closing[browser].silent ==> m.closed(browser, r.tab, window_closing).1.len() == 0,
{
}

/// A replacement that failed closes the old browser: its close is asked for where it is alive, and then
/// it is no silent one; otherwise the close of the tab is reported, unless it was before.
pub proof fn a_failed_replacement_closes_the_old_browser(m: Model, a: Around, r: Replacing, view: Option<u64>, browser: i32, closable: bool)
    requires
        r.old_id == Some(browser),
        m.tabs.contains_key(r.tab),
    ensures
        ({
            let end = m.replace_failed(a, r, view, closable);
            if r.old_alive && closable {
                &&& end.1.last() == (Effect::CloseBrowser { browser })
                &&& end.0.closing.contains_key(browser) && !end.0.closing[browser].silent
                &&& end.0.tabs.contains_key(r.tab) && end.0.tabs[r.tab].browser_id == Some(browser)
                &&& end.0.tabs[r.tab].view == r.old_view
            } else {
                let key = (r.tab, if r.old_alive { browser } else { -1i32 });
                &&& !end.0.tabs.contains_key(r.tab)
                &&& !m.reported.contains(key) ==> end.1.last() == (Effect::Closed { tab: r.tab })
                &&& end.0.reported.contains(key)
            }
        }),
{
    let back = Model {
        closing: m.closing.remove(browser),
        by_browser: m.by_browser.insert(browser, r.tab),
        tabs: m.tabs.insert(
            r.tab,
            (TabEntry {
                view: r.old_view,
                browser_id: if r.old_alive { r.old_id } else { None },
                internal: r.old_internal,
                ..m.tabs[r.tab]
            }),
        ),
        ..m
    };
    let end = back.destroyed(a, r.tab, closable);
    if r.old_alive && closable {
        assert(end.1.last() == (Effect::CloseBrowser { browser }));
    } else {
        let plain = if r.old_alive { Model { by_browser: back.by_browser.remove(browser), ..back } } else { back };
        let key = (r.tab, if r.old_alive { browser } else { -1i32 });
        removing_keeps_reports(plain, a, r.tab);
        let one = plain.removed(a, r.tab);
        let last = one.0.reporting(r.tab, if r.old_alive { Some(browser) } else { None });
        assert(end.0 == last.0);
        if !m.reported.contains(key) {
            assert(last.1 =~= seq![(Effect::Closed { tab: r.tab })]);
            assert(end.1.last() == last.1.last());
        }
    }
}

/// Removing an entry touches neither the reports nor other entries.
proof fn removing_keeps_reports(m: Model, a: Around, tab: u64)
    ensures
        m.removed(a, tab).0.reported == m.reported,
        !m.removed(a, tab).0.tabs.contains_key(tab),
{
    let without = Model { tabs: m.tabs.remove(tab), colors: m.colors.remove(tab), zoom: m.zoom.remove(tab), ..m };
    let ended = without.unfilled(tab);
    layout_keeps(ended.0, a, ended.0.shown);
}

/// A layout changes neither the reports nor which tabs there are.
proof fn layout_keeps(m: Model, a: Around, layout: LayoutModel)
    ensures
        m.laid_out(a, layout).0.reported == m.reported,
        m.laid_out(a, layout).0.tabs.dom() == m.tabs.dom(),
{
    let home = m.all_home(a, tabs_of(layout), 0);
    home_keeps(m, a, tabs_of(layout), 0);
    let panes = panes_of(layout, a.frame, a.accent);
    let away = home.0.others_away(a, ascending_u64(home.0.tabs), panes, 0);
    away_keeps(home.0, a, ascending_u64(home.0.tabs), panes, 0);
    shown_keeps(away.0, a, panes, 0);
}

proof fn home_keeps(m: Model, a: Around, tabs: Seq<u64>, i: int)
    ensures
        m.all_home(a, tabs, i).0.reported == m.reported,
        m.all_home(a, tabs, i).0.tabs.dom() == m.tabs.dom(),
        forall|t: u64| #[trigger] m.tabs.contains_key(t) ==> m.all_home(a, tabs, i).0.tabs[t].wrapper == m.tabs[t].wrapper,
    decreases tabs.len() - i,
{
    if 0 <= i < tabs.len() {
        let one = m.home(a, tabs[i]);
        assert(one.0.tabs.dom() =~= m.tabs.dom());
        home_keeps(one.0, a, tabs, i + 1);
        assert forall|t: u64| #[trigger] m.tabs.contains_key(t) implies m.all_home(a, tabs, i).0.tabs[t].wrapper == m.tabs[t].wrapper by {
            assert(one.0.tabs.contains_key(t));
        }
    }
}

proof fn away_keeps(m: Model, a: Around, ids: Seq<u64>, panes: Seq<(u64, i32, u32)>, i: int)
    ensures
        m.others_away(a, ids, panes, i).0.reported == m.reported,
        m.others_away(a, ids, panes, i).0.tabs == m.tabs,
    decreases ids.len() - i,
{
    if 0 <= i < ids.len() {
        if has_pane(panes, ids[i]) {
            away_keeps(m, a, ids, panes, i + 1);
        } else if m.colors.contains_key(ids[i]) && m.colors[ids[i]] == a.frame {
            away_keeps(m, a, ids, panes, i + 1);
        } else {
            away_keeps(m.painted(a, ids[i], m.tabs[ids[i]].wrapper, a.frame).0, a, ids, panes, i + 1);
        }
    }
}

proof fn shown_keeps(m: Model, a: Around, panes: Seq<(u64, i32, u32)>, i: int)
    ensures
        m.panes_shown(a, panes, i).0.reported == m.reported,
        m.panes_shown(a, panes, i).0.tabs == m.tabs,
    decreases panes.len() - i,
{
    if 0 <= i < panes.len() {
        if !m.tabs.contains_key(panes[i].0) {
            shown_keeps(m, a, panes, i + 1);
        } else {
            shown_keeps(m.painted(a, panes[i].0, m.tabs[panes[i].0].wrapper, panes[i].2).0, a, panes, i + 1);
        }
    }
}

/// The wrappers without a pane are taken away, each of them.
proof fn away_covers(m: Model, a: Around, ids: Seq<u64>, panes: Seq<(u64, i32, u32)>, i: int, k: int)
    requires
        0 <= i <= k < ids.len(),
        !has_pane(panes, ids[k]),
    ensures
        m.others_away(a, ids, panes, i).1.contains((Effect::ShowWrapper { wrapper: m.tabs[ids[k]].wrapper, visible: false })),
    decreases ids.len() - i,
{
    let e = (Effect::ShowWrapper { wrapper: m.tabs[ids[k]].wrapper, visible: false });
    let all = m.others_away(a, ids, panes, i).1;
    if i == k {
        assert(all[0] == e);
    } else if has_pane(panes, ids[i]) {
        away_covers(m, a, ids, panes, i + 1, k);
    } else {
        let framed = m.colors.contains_key(ids[i]) && m.colors[ids[i]] == a.frame;
        let one = m.painted(a, ids[i], m.tabs[ids[i]].wrapper, a.frame);
        let next = if framed { m } else { one.0 };
        away_covers(next, a, ids, panes, i + 1, k);
        let rest = next.others_away(a, ids, panes, i + 1).1;
        let at = choose|at: int| 0 <= at < rest.len() && rest[at] == e;
        let first: int = if framed { 1 } else { 1 + one.1.len() as int };
        assert(all[first + at] == e);
    }
}

/// The panes are shown, each of them.
proof fn shown_covers(m: Model, a: Around, panes: Seq<(u64, i32, u32)>, i: int, k: int)
    requires
        0 <= i <= k < panes.len(),
        m.tabs.contains_key(panes[k].0),
    ensures
        m.panes_shown(a, panes, i).1.contains((Effect::ShowWrapper { wrapper: m.tabs[panes[k].0].wrapper, visible: true })),
        m.panes_shown(a, panes, i).1.contains((Effect::Flex { wrapper: m.tabs[panes[k].0].wrapper, flex: panes[k].1 })),
    decreases panes.len() - i,
{
    let shown = (Effect::ShowWrapper { wrapper: m.tabs[panes[k].0].wrapper, visible: true });
    let flex = (Effect::Flex { wrapper: m.tabs[panes[k].0].wrapper, flex: panes[k].1 });
    let all = m.panes_shown(a, panes, i).1;
    let one = m.painted(a, panes[i].0, m.tabs[panes[i].0].wrapper, panes[i].2);
    if i == k {
        assert(all[1] == flex);
        assert(all[2 + one.1.len() as int] == shown);
    } else if !m.tabs.contains_key(panes[i].0) {
        shown_covers(m, a, panes, i + 1, k);
    } else {
        shown_covers(one.0, a, panes, i + 1, k);
        let rest = one.0.panes_shown(a, panes, i + 1).1;
        let at = choose|at: int| 0 <= at < rest.len() && rest[at] == shown;
        let other = choose|at: int| 0 <= at < rest.len() && rest[at] == flex;
        let first: int = 3 + one.1.len() as int;
        assert(all[first + at] == shown);
        assert(all[first + other] == flex);
    }
}

/// A layout decides about every tab: the wrapper of a tab with a pane is shown, with the pane's share,
/// and the wrapper of every other tab is taken away.
pub proof fn a_layout_decides_about_every_tab(m: Model, a: Around, layout: LayoutModel, tab: u64)
    requires
        a.content,
        a.box_layout,
        m.tabs.contains_key(tab),
        m.tabs.dom().finite(),
    ensures
        m.laid_out(a, layout).1.contains(
            (Effect::ShowWrapper { wrapper: m.tabs[tab].wrapper, visible: has_pane(panes_of(layout, a.frame, a.accent), tab) }),
        ),
{
    let panes = panes_of(layout, a.frame, a.accent);
    let home = m.all_home(a, tabs_of(layout), 0);
    home_keeps(m, a, tabs_of(layout), 0);
    let ids = ascending_u64(home.0.tabs);
    crate::keys::ascending_lists_u64(home.0.tabs);
    let away = home.0.others_away(a, ids, panes, 0);
    away_keeps(home.0, a, ids, panes, 0);
    let shown = away.0.panes_shown(a, panes, 0);
    let all = m.laid_out(a, layout).1;
    let e = (Effect::ShowWrapper { wrapper: m.tabs[tab].wrapper, visible: has_pane(panes, tab) });
    let head: int = home.1.len() as int + 1 + (if a.empty { 1int } else { 0 });
    assert(home.0.tabs.contains_key(tab)) by {
        assert(home.0.tabs.dom().contains(tab));
    }
    assert(home.0.tabs[tab].wrapper == m.tabs[tab].wrapper);
    if has_pane(panes, tab) {
        let k = choose|k: int| 0 <= k < panes.len() && (#[trigger] panes[k]).0 == tab;
        shown_covers(away.0, a, panes, 0, k);
        let at = choose|at: int| 0 <= at < shown.1.len() && shown.1[at] == e;
        assert(all[head + away.1.len() as int + at] == e);
    } else {
        assert(ids.contains(tab));
        let k = choose|k: int| 0 <= k < ids.len() && ids[k] == tab;
        away_covers(home.0, a, ids, panes, 0, k);
        let at = choose|at: int| 0 <= at < away.1.len() && away.1[at] == e;
        assert(all[head + at] == e);
    }
}

/// None of the effects sets the layout of the area, or has to do with its empty state.
spec fn plain(effects: Seq<Effect>) -> bool {
    forall|i: int| 0 <= i < effects.len() ==> !(#[trigger] effects[i] is SetBox) && !(effects[i] is ShowEmpty)
}

proof fn home_is_plain(m: Model, a: Around, tabs: Seq<u64>, i: int)
    ensures
        plain(m.all_home(a, tabs, i).1),
    decreases tabs.len() - i,
{
    if 0 <= i < tabs.len() {
        home_is_plain(m.home(a, tabs[i]).0, a, tabs, i + 1);
    }
}

proof fn away_is_plain(m: Model, a: Around, ids: Seq<u64>, panes: Seq<(u64, i32, u32)>, i: int)
    ensures
        plain(m.others_away(a, ids, panes, i).1),
    decreases ids.len() - i,
{
    if 0 <= i < ids.len() {
        away_is_plain(m, a, ids, panes, i + 1);
        away_is_plain(m.painted(a, ids[i], m.tabs[ids[i]].wrapper, a.frame).0, a, ids, panes, i + 1);
    }
}

proof fn shown_is_plain(m: Model, a: Around, panes: Seq<(u64, i32, u32)>, i: int)
    ensures
        plain(m.panes_shown(a, panes, i).1),
    decreases panes.len() - i,
{
    if 0 <= i < panes.len() {
        shown_is_plain(m, a, panes, i + 1);
        shown_is_plain(m.painted(a, panes[i].0, m.tabs[panes[i].0].wrapper, panes[i].2).0, a, panes, i + 1);
    }
}

proof fn only_is_plain(m: Model, a: Around, ids: Seq<u64>, tab: u64, i: int)
    ensures
        plain(m.only_shown(a, ids, tab, i).1),
    decreases ids.len() - i,
{
    if 0 <= i < ids.len() {
        only_is_plain(m, a, ids, tab, i + 1);
        only_is_plain(m.painted(a, tab, m.tabs[ids[i]].wrapper, a.frame).0, a, ids, tab, i + 1);
    }
}

/// The area is laid out in the direction of the split that was asked for, with a gap of 6; a single tab and
/// the empty state have no gap. No other layout is set on the way.
pub proof fn a_split_keeps_its_direction(m: Model, a: Around, layout: LayoutModel)
    requires
        a.content,
    ensures
        ({
            let effects = m.laid_out(a, layout).1;
            match layout {
                LayoutModel::Split { horizontal: h, panes, focused } => {
                    &&& effects.contains((Effect::SetBox { horizontal: h, spacing: 6 }))
                    &&& forall|i: int| 0 <= i < effects.len() && #[trigger] effects[i] is SetBox ==> effects[i]->horizontal == h && effects[i]->spacing == 6
                },
                _ => {
                    &&& effects.contains((Effect::SetBox { horizontal: true, spacing: 0 }))
                    &&& forall|i: int| 0 <= i < effects.len() && #[trigger] effects[i] is SetBox ==> effects[i]->spacing == 0
                },
            }
        }),
{
    let tabs = tabs_of(layout);
    let home = m.all_home(a, tabs, 0);
    home_is_plain(m, a, tabs, 0);
    let panes = panes_of(layout, a.frame, a.accent);
    let ids = ascending_u64(home.0.tabs);
    away_is_plain(home.0, a, ids, panes, 0);
    let away = home.0.others_away(a, ids, panes, 0);
    shown_is_plain(away.0, a, panes, 0);
    let effects = m.laid_out(a, layout).1;
    assert(effects[home.1.len() as int] is SetBox);
    assert(effects.contains(effects[home.1.len() as int]));
}

/// The empty state is shown for the empty layout and for no other, and never beside a page in fullscreen.
pub proof fn the_empty_state_is_for_the_empty_layout(m: Model, a: Around, layout: LayoutModel, tab: u64)
    requires
        a.content,
        a.box_layout,
        a.empty,
    ensures
        m.laid_out(a, layout).1.contains((Effect::ShowEmpty { visible: true })) == (layout is Empty),
        m.laid_out(a, layout).1.contains((Effect::ShowEmpty { visible: false })) == !(layout is Empty),
        m.filled(a, tab).1.contains((Effect::ShowEmpty { visible: false })),
        !m.filled(a, tab).1.contains((Effect::ShowEmpty { visible: true })),
        m.filled(a, tab).1.contains((Effect::SetBox { horizontal: true, spacing: 0 })),
{
    let tabs = tabs_of(layout);
    let home = m.all_home(a, tabs, 0);
    home_is_plain(m, a, tabs, 0);
    let panes = panes_of(layout, a.frame, a.accent);
    let ids = ascending_u64(home.0.tabs);
    away_is_plain(home.0, a, ids, panes, 0);
    let away = home.0.others_away(a, ids, panes, 0);
    shown_is_plain(away.0, a, panes, 0);
    let effects = m.laid_out(a, layout).1;
    assert(effects[home.1.len() as int + 1] is ShowEmpty);
    assert(effects.contains(effects[home.1.len() as int + 1]));
    let one = m.home(a, tab);
    assert(plain(one.1));
    only_is_plain(one.0, a, ascending_u64(one.0.tabs), tab, 0);
    let full = m.filled(a, tab).1;
    assert(full[one.1.len() as int] is SetBox && full[one.1.len() as int + 1] is ShowEmpty);
    assert(full.contains(full[one.1.len() as int]));
    assert(full.contains(full[one.1.len() as int + 1]));
}

/// The panes are put in order and painted, each of them.
proof fn shown_places(m: Model, a: Around, panes: Seq<(u64, i32, u32)>, i: int, k: int)
    requires
        0 <= i <= k < panes.len(),
        m.tabs.contains_key(panes[k].0),
    ensures
        m.panes_shown(a, panes, i).1.contains((Effect::Reorder { wrapper: m.tabs[panes[k].0].wrapper, index: k as usize })),
        m.panes_shown(a, panes, i).1.contains(
            (Effect::PaintWrapper { wrapper: m.tabs[panes[k].0].wrapper, color: m.shown_color(a, panes[k].0, panes[k].2) }),
        ),
    decreases panes.len() - i,
{
    let order = (Effect::Reorder { wrapper: m.tabs[panes[k].0].wrapper, index: k as usize });
    let paint = (Effect::PaintWrapper { wrapper: m.tabs[panes[k].0].wrapper, color: m.shown_color(a, panes[k].0, panes[k].2) });
    let all = m.panes_shown(a, panes, i).1;
    let one = m.painted(a, panes[i].0, m.tabs[panes[i].0].wrapper, panes[i].2);
    if i == k {
        assert(one.1[0] == paint);
        assert(all[0] == order);
        assert(all[2] == paint);
    } else if !m.tabs.contains_key(panes[i].0) {
        shown_places(m, a, panes, i + 1, k);
    } else {
        shown_places(one.0, a, panes, i + 1, k);
        let rest = one.0.panes_shown(a, panes, i + 1).1;
        let at = choose|at: int| 0 <= at < rest.len() && rest[at] == order;
        let other = choose|at: int| 0 <= at < rest.len() && rest[at] == paint;
        let first: int = 3 + one.1.len() as int;
        assert(all[first + at] == order);
        assert(all[first + other] == paint);
    }
}

/// Every pane of a split stands at its place in the split, takes its share (in thousandths, at least one of
/// them; half of the area where it has none) and is shown; the focused one has the accent color, the others
/// the color of the frame, and one that an agent acts on the agent's color.
pub proof fn a_pane_has_its_place_share_and_color(m: Model, a: Around, horizontal: bool, panes: Seq<Pane>, focused: int, k: int)
    requires
        a.content,
        a.box_layout,
        m.fullscreen is None,
        m.tabs.dom().finite(),
        0 <= k < panes.len(),
        m.tabs.contains_key(panes[k].tab),
    ensures
        ({
            let effects = m.laid_out(a, (LayoutModel::Split { horizontal, panes, focused })).1;
            let wrapper = m.tabs[panes[k].tab].wrapper;
            &&& effects.contains((Effect::Reorder { wrapper, index: k as usize }))
            &&& effects.contains((Effect::ShowWrapper { wrapper, visible: true }))
            &&& panes[k].share is None ==> effects.contains((Effect::Flex { wrapper, flex: 500 }))
            &&& panes[k].share is Some && panes[k].share->0 >= 1 ==> effects.contains((Effect::Flex { wrapper, flex: panes[k].share->0 }))
            &&& panes[k].share is Some && panes[k].share->0 < 1 ==> effects.contains((Effect::Flex { wrapper, flex: 1 }))
            &&& a.agents@.contains_key(panes[k].tab) ==> effects.contains((Effect::PaintWrapper { wrapper, color: a.agents@[panes[k].tab] }))
            &&& !a.agents@.contains_key(panes[k].tab) && k == focused ==> effects.contains((Effect::PaintWrapper { wrapper, color: a.accent }))
            &&& !a.agents@.contains_key(panes[k].tab) && k != focused ==> effects.contains((Effect::PaintWrapper { wrapper, color: a.frame }))
        }),
{
    let layout = (LayoutModel::Split { horizontal, panes, focused });
    let parts = panes_of(layout, a.frame, a.accent);
    let home = m.all_home(a, tabs_of(layout), 0);
    home_keeps(m, a, tabs_of(layout), 0);
    home_keeps_shown(m, a, tabs_of(layout), 0);
    let ids = ascending_u64(home.0.tabs);
    let away = home.0.others_away(a, ids, parts, 0);
    away_keeps(home.0, a, ids, parts, 0);
    away_keeps_shown(home.0, a, ids, parts, 0);
    let shown = away.0.panes_shown(a, parts, 0);
    let all = m.laid_out(a, layout).1;
    let tab = panes[k].tab;
    assert(parts[k].0 == tab);
    assert(home.0.tabs.contains_key(tab)) by {
        assert(home.0.tabs.dom().contains(tab));
    }
    assert(home.0.tabs[tab].wrapper == m.tabs[tab].wrapper);
    shown_covers(away.0, a, parts, 0, k);
    shown_places(away.0, a, parts, 0, k);
    let head: int = home.1.len() as int + 1 + (if a.empty { 1int } else { 0 }) + away.1.len() as int;
    assert forall|e: Effect| #[trigger] shown.1.contains(e) implies all.contains(e) by {
        let at = choose|at: int| 0 <= at < shown.1.len() && shown.1[at] == e;
        assert(all[head + at] == e);
    }
}

/// A layout that is shown is followed by what depends on it: the area, the developer tools, the corner
/// masks, the overlays, and the focus.
pub proof fn a_layout_is_followed_up(m: Model, a: Around, layout: LayoutModel)
    requires
        a.content,
        a.box_layout,
    ensures
        ({
            let effects = m.laid_out(a, layout).1;
            let n = effects.len();
            &&& n >= 5
            &&& effects.subrange(n - 5, n as int) == seq![
                Effect::LayoutContent,
                Effect::RelayoutAllTools,
                Effect::LayoutMasks,
                Effect::LayoutOverlays,
                Effect::RescueFocus,
            ]
        }),
{
}

/// A single tab takes the whole area, in the color of the frame.
pub proof fn a_single_tab_takes_the_area(m: Model, a: Around, tab: u64)
    requires
        a.content,
        a.box_layout,
        m.fullscreen is None,
        m.tabs.dom().finite(),
        m.tabs.contains_key(tab),
        !a.agents@.contains_key(tab),
    ensures
        ({
            let effects = m.laid_out(a, (LayoutModel::Single { tab })).1;
            let wrapper = m.tabs[tab].wrapper;
            &&& effects.contains((Effect::ShowWrapper { wrapper, visible: true }))
            &&& effects.contains((Effect::Flex { wrapper, flex: 1 }))
            &&& effects.contains((Effect::PaintWrapper { wrapper, color: a.frame }))
        }),
{
    let layout = (LayoutModel::Single { tab });
    let parts = panes_of(layout, a.frame, a.accent);
    let home = m.all_home(a, tabs_of(layout), 0);
    home_keeps(m, a, tabs_of(layout), 0);
    home_keeps_shown(m, a, tabs_of(layout), 0);
    let ids = ascending_u64(home.0.tabs);
    let away = home.0.others_away(a, ids, parts, 0);
    away_keeps(home.0, a, ids, parts, 0);
    away_keeps_shown(home.0, a, ids, parts, 0);
    let shown = away.0.panes_shown(a, parts, 0);
    let all = m.laid_out(a, layout).1;
    assert(parts[0].0 == tab);
    assert(home.0.tabs.contains_key(tab)) by {
        assert(home.0.tabs.dom().contains(tab));
    }
    assert(home.0.tabs[tab].wrapper == m.tabs[tab].wrapper);
    shown_covers(away.0, a, parts, 0, 0);
    shown_places(away.0, a, parts, 0, 0);
    let head: int = home.1.len() as int + 1 + (if a.empty { 1int } else { 0 }) + away.1.len() as int;
    assert forall|e: Effect| #[trigger] shown.1.contains(e) implies all.contains(e) by {
        let at = choose|at: int| 0 <= at < shown.1.len() && shown.1[at] == e;
        assert(all[head + at] == e);
    }
}

/// The wrappers in page fullscreen: the tab's is shown without a border and takes the area, each other one
/// is taken away.
proof fn only_covers(m: Model, a: Around, ids: Seq<u64>, tab: u64, i: int, k: int)
    requires
        0 <= i <= k < ids.len(),
    ensures
        ({
            let effects = m.only_shown(a, ids, tab, i).1;
            let wrapper = m.tabs[ids[k]].wrapper;
            &&& effects.contains((Effect::ShowWrapper { wrapper, visible: ids[k] == tab }))
            &&& ids[k] == tab ==> effects.contains((Effect::SetInsets { wrapper, inset: 0 })) && effects.contains((Effect::Flex { wrapper, flex: 1 }))
        }),
    decreases ids.len() - i,
{
    let effects = m.only_shown(a, ids, tab, i).1;
    let wrapper = m.tabs[ids[k]].wrapper;
    let shown = (Effect::ShowWrapper { wrapper, visible: ids[k] == tab });
    let inset = (Effect::SetInsets { wrapper, inset: 0 });
    let flex = (Effect::Flex { wrapper, flex: 1 });
    let one = m.painted(a, tab, m.tabs[ids[i]].wrapper, a.frame);
    let n = one.1.len() as int;
    if i == k {
        if ids[i] == tab {
            assert(effects[0] == inset);
            assert(effects[1 + n] == flex);
            assert(effects[2 + n] == shown);
        } else {
            assert(effects[0] == shown);
        }
    } else {
        let next = if ids[i] == tab { one.0 } else { m };
        only_covers(next, a, ids, tab, i + 1, k);
        let rest = next.only_shown(a, ids, tab, i + 1).1;
        let head: int = if ids[i] == tab { 3 + n } else { 1 };
        assert forall|e: Effect| #[trigger] rest.contains(e) implies effects.contains(e) by {
            let at = choose|at: int| 0 <= at < rest.len() && rest[at] == e;
            assert(effects[head + at] == e);
        }
    }
}

/// A page in fullscreen has the area for itself: its wrapper is shown without a border, every other one is
/// taken away.
pub proof fn a_page_in_fullscreen_has_the_area_for_itself(m: Model, a: Around, tab: u64, other: u64)
    requires
        a.content,
        a.box_layout,
        m.tabs.dom().finite(),
        m.tabs.contains_key(other),
    ensures
        ({
            let effects = m.filled(a, tab).1;
            let wrapper = m.tabs[other].wrapper;
            &&& effects.contains((Effect::ShowWrapper { wrapper, visible: other == tab }))
            &&& other == tab ==> effects.contains((Effect::SetInsets { wrapper, inset: 0 })) && effects.contains((Effect::Flex { wrapper, flex: 1 }))
        }),
{
    let home = m.home(a, tab);
    assert(home.0.tabs.dom() =~= m.tabs.dom());
    assert(home.0.tabs.contains_key(other));
    assert(home.0.tabs[other].wrapper == m.tabs[other].wrapper);
    let ids = ascending_u64(home.0.tabs);
    crate::keys::ascending_lists_u64(home.0.tabs);
    assert(ids.contains(other));
    let k = choose|k: int| 0 <= k < ids.len() && ids[k] == other;
    only_covers(home.0, a, ids, tab, 0, k);
    let only = home.0.only_shown(a, ids, tab, 0).1;
    let effects = m.filled(a, tab).1;
    let head: int = home.1.len() as int + 1 + (if a.empty { 1int } else { 0 });
    assert forall|e: Effect| #[trigger] only.contains(e) implies effects.contains(e) by {
        let at = choose|at: int| 0 <= at < only.len() && only[at] == e;
        assert(effects[head + at] == e);
    }
}

/// A tab leaves page fullscreen with its border of 2, and only if it was the one.
pub proof fn leaving_fullscreen_brings_the_border_back(m: Model, tab: u64)
    requires
        m.tabs.contains_key(tab),
    ensures
        m.fullscreen is Some && m.fullscreen->0.tab == tab ==> m.unfilled(tab).0.fullscreen is None && m.unfilled(tab).1.contains(
            (Effect::SetInsets { wrapper: m.tabs[tab].wrapper, inset: 2 }),
        ),
        m.fullscreen is None || m.fullscreen->0.tab != tab ==> m.unfilled(tab) == (m, Seq::<Effect>::empty()),
{
    if m.fullscreen is Some && m.fullscreen->0.tab == tab {
        assert(m.unfilled(tab).1[0] == (Effect::SetInsets { wrapper: m.tabs[tab].wrapper, inset: 2 }));
    }
}

/// A layout that is asked for becomes what is shown; a page in fullscreen keeps the area while its tab is
/// part of the layout or was taken from Peek, else the layout takes it.
pub proof fn a_layout_ends_fullscreen_unless_it_has_the_tab(m: Model, a: Around, layout: LayoutModel)
    requires
        a.content,
        m.fullscreen is Some,
        m.tabs.contains_key(m.fullscreen->0.tab),
    ensures
        ({
            let tab = m.fullscreen->0.tab;
            let stays = m.fullscreen->0.from_peek || layout == (LayoutModel::Single { tab }) || (layout is Split && exists|i: int|
                0 <= i < layout->panes.len() && (#[trigger] layout->panes[i]).tab == tab);
            &&& m.showing(a, layout).0.shown == layout
            &&& m.showing(a, layout).0.fullscreen == (if stays { m.fullscreen } else { None })
        }),
{
    let tab = m.fullscreen->0.tab;
    let tabs = tabs_of(layout);
    let next = Model { shown: layout, ..m };
    let stays = m.fullscreen->0.from_peek || layout == (LayoutModel::Single { tab }) || (layout is Split && exists|i: int|
        0 <= i < layout->panes.len() && (#[trigger] layout->panes[i]).tab == tab);
    assert((m.fullscreen->0.from_peek || tabs.contains(tab)) == stays) by {
        match layout {
            LayoutModel::Empty => {},
            LayoutModel::Single { tab: t } => {
                assert(tabs[0] == t);
            },
            LayoutModel::Split { horizontal, panes, focused } => {
                if tabs.contains(tab) {
                    let i = choose|i: int| 0 <= i < tabs.len() && tabs[i] == tab;
                    assert(layout->panes[i].tab == tab);
                }
                if exists|i: int| 0 <= i < layout->panes.len() && (#[trigger] layout->panes[i]).tab == tab {
                    let i = choose|i: int| 0 <= i < layout->panes.len() && (#[trigger] layout->panes[i]).tab == tab;
                    assert(tabs[i] == tab);
                }
            },
        }
    }
    if stays {
        let home = next.home(a, tab).0;
        only_keeps_shown(home, a, ascending_u64(home.tabs), tab, 0);
    } else {
        layout_keeps_shown(next.unfilled(tab).0, a, layout);
    }
}

proof fn only_keeps_shown(m: Model, a: Around, ids: Seq<u64>, tab: u64, i: int)
    ensures
        m.only_shown(a, ids, tab, i).0.shown == m.shown,
        m.only_shown(a, ids, tab, i).0.fullscreen == m.fullscreen,
    decreases ids.len() - i,
{
    if 0 <= i < ids.len() {
        only_keeps_shown(m, a, ids, tab, i + 1);
        only_keeps_shown(m.painted(a, tab, m.tabs[ids[i]].wrapper, a.frame).0, a, ids, tab, i + 1);
    }
}

proof fn layout_keeps_shown(m: Model, a: Around, layout: LayoutModel)
    ensures
        m.laid_out(a, layout).0.shown == m.shown,
        m.laid_out(a, layout).0.fullscreen == m.fullscreen,
{
    let home = m.all_home(a, tabs_of(layout), 0);
    home_keeps_shown(m, a, tabs_of(layout), 0);
    let panes = panes_of(layout, a.frame, a.accent);
    let away = home.0.others_away(a, ascending_u64(home.0.tabs), panes, 0);
    away_keeps_shown(home.0, a, ascending_u64(home.0.tabs), panes, 0);
    panes_keep_shown(away.0, a, panes, 0);
}

proof fn home_keeps_shown(m: Model, a: Around, tabs: Seq<u64>, i: int)
    ensures
        m.all_home(a, tabs, i).0.shown == m.shown,
        m.all_home(a, tabs, i).0.fullscreen == m.fullscreen,
    decreases tabs.len() - i,
{
    if 0 <= i < tabs.len() {
        home_keeps_shown(m.home(a, tabs[i]).0, a, tabs, i + 1);
    }
}

proof fn away_keeps_shown(m: Model, a: Around, ids: Seq<u64>, panes: Seq<(u64, i32, u32)>, i: int)
    ensures
        m.others_away(a, ids, panes, i).0.shown == m.shown,
        m.others_away(a, ids, panes, i).0.fullscreen == m.fullscreen,
    decreases ids.len() - i,
{
    if 0 <= i < ids.len() {
        away_keeps_shown(m, a, ids, panes, i + 1);
        away_keeps_shown(m.painted(a, ids[i], m.tabs[ids[i]].wrapper, a.frame).0, a, ids, panes, i + 1);
    }
}

proof fn panes_keep_shown(m: Model, a: Around, panes: Seq<(u64, i32, u32)>, i: int)
    ensures
        m.panes_shown(a, panes, i).0.shown == m.shown,
        m.panes_shown(a, panes, i).0.fullscreen == m.fullscreen,
    decreases panes.len() - i,
{
    if 0 <= i < panes.len() {
        panes_keep_shown(m, a, panes, i + 1);
        panes_keep_shown(m.painted(a, panes[i].0, m.tabs[panes[i].0].wrapper, panes[i].2).0, a, panes, i + 1);
    }
}

/// What a wrapper shows is its own color, unless an agent acts on the tab and the tab is not in page
/// fullscreen; what is behind its page is the same, and the surface of the card in Peek.
pub proof fn agents_frame_their_tabs(m: Model, a: Around, tab: u64, base: u32)
    ensures
        m.fullscreen == Some((Fullscreen { tab, from_peek: false })) || m.fullscreen == Some((Fullscreen { tab, from_peek: true })) ==> m.shown_color(
            a,
            tab,
            base,
        ) == base,
        m.fullscreen is None && a.agents@.contains_key(tab) ==> m.shown_color(a, tab, base) == a.agents@[tab],
        !a.agents@.contains_key(tab) ==> m.shown_color(a, tab, base) == base,
        m.tabs.contains_key(tab) && m.tabs[tab].in_peek ==> m.background(a, tab) == a.surface,
        !m.tabs.contains_key(tab) && !m.colors.contains_key(tab) && !a.agents@.contains_key(tab) ==> m.background(a, tab) == a.frame,
        m.tabs.contains_key(tab) && !m.tabs[tab].in_peek && m.colors.contains_key(tab) && !a.agents@.contains_key(tab) ==> m.background(a, tab)
            == m.colors[tab],
{
}

/// A browser's view is detached once: a second detach of the same browser does nothing.
pub proof fn a_view_is_detached_once(m: Model, a: Around, browser: i32)
    ensures
        ({
            let once = m.detaching(a, browser).0;
            once.detaching(a, browser) == (once, Seq::<Effect>::empty())
        }),
{
    if m.closing.contains_key(browser) && !m.closing[browser].detached {
        let c = m.closing[browser];
        let mid = Model {
            closing: m.closing.insert(browser, (Closing { detached: true, view: None, ..c })),
            by_browser: m.by_browser.remove(browser),
            ..m
        };
        let without = Model { tabs: mid.tabs.remove(c.tab), colors: mid.colors.remove(c.tab), zoom: mid.zoom.remove(c.tab), ..mid };
        let ended = without.unfilled(c.tab);
        layout_keeps_closing(ended.0, a, ended.0.shown);
    }
}

proof fn layout_keeps_closing(m: Model, a: Around, layout: LayoutModel)
    ensures
        m.laid_out(a, layout).0.closing == m.closing,
{
    let home = m.all_home(a, tabs_of(layout), 0);
    home_keeps_closing(m, a, tabs_of(layout), 0);
    let panes = panes_of(layout, a.frame, a.accent);
    let away = home.0.others_away(a, ascending_u64(home.0.tabs), panes, 0);
    away_keeps_closing(home.0, a, ascending_u64(home.0.tabs), panes, 0);
    shown_keeps_closing(away.0, a, panes, 0);
}

proof fn home_keeps_closing(m: Model, a: Around, tabs: Seq<u64>, i: int)
    ensures
        m.all_home(a, tabs, i).0.closing == m.closing,
    decreases tabs.len() - i,
{
    if 0 <= i < tabs.len() {
        home_keeps_closing(m.home(a, tabs[i]).0, a, tabs, i + 1);
    }
}

proof fn away_keeps_closing(m: Model, a: Around, ids: Seq<u64>, panes: Seq<(u64, i32, u32)>, i: int)
    ensures
        m.others_away(a, ids, panes, i).0.closing == m.closing,
    decreases ids.len() - i,
{
    if 0 <= i < ids.len() {
        away_keeps_closing(m, a, ids, panes, i + 1);
        away_keeps_closing(m.painted(a, ids[i], m.tabs[ids[i]].wrapper, a.frame).0, a, ids, panes, i + 1);
    }
}

proof fn shown_keeps_closing(m: Model, a: Around, panes: Seq<(u64, i32, u32)>, i: int)
    ensures
        m.panes_shown(a, panes, i).0.closing == m.closing,
    decreases panes.len() - i,
{
    if 0 <= i < panes.len() {
        shown_keeps_closing(m, a, panes, i + 1);
        shown_keeps_closing(m.painted(a, panes[i].0, m.tabs[panes[i].0].wrapper, panes[i].2).0, a, panes, i + 1);
    }
}

/// A view that went to the Peek overlay and came back leaves the registry as it was.
pub proof fn a_view_comes_back_from_peek(m: Model, a: Around, tab: u64, view: u64)
    requires
        m.tabs.contains_key(tab),
        !m.tabs[tab].in_peek,
    ensures
        ({
            let moved = Model { tabs: m.tabs.insert(tab, (TabEntry { in_peek: true, ..m.tabs[tab] })), ..m };
            moved.returned(a, tab, view).0 == m
        }),
{
    let moved = Model { tabs: m.tabs.insert(tab, (TabEntry { in_peek: true, ..m.tabs[tab] })), ..m };
    assert(moved.returned(a, tab, view).0 =~= m);
}

/// Zooming in goes up, by more than half a percent, until the largest preset; zooming out goes down
/// until the smallest.
pub proof fn zooming_goes_the_right_way(doubled: int)
    ensures
        next_zoom(ZoomDirection::In, doubled) == 500 || doubled < 2 * (2 * next_zoom(ZoomDirection::In, doubled) - 1),
        next_zoom(ZoomDirection::Out, doubled) == 25 || doubled > 2 * (2 * next_zoom(ZoomDirection::Out, doubled) + 1),
        zoom_presets().contains(next_zoom(ZoomDirection::In, doubled)),
        zoom_presets().contains(next_zoom(ZoomDirection::Out, doubled)),
{
    preset_above_fits(doubled, 0);
    preset_below_fits(doubled, zoom_presets().len() - 1);
}

proof fn preset_above_fits(doubled: int, i: int)
    requires
        0 <= i <= zoom_presets().len(),
    ensures
        preset_above(doubled, i) == 500 || doubled < 2 * (2 * preset_above(doubled, i) - 1),
        zoom_presets().contains(preset_above(doubled, i)),
    decreases zoom_presets().len() - i,
{
    assert(zoom_presets()[16] == 500);
    if i < zoom_presets().len() {
        preset_above_fits(doubled, i + 1);
    }
}

proof fn preset_below_fits(doubled: int, i: int)
    requires
        -1 <= i < zoom_presets().len(),
    ensures
        preset_below(doubled, i) == 25 || doubled > 2 * (2 * preset_below(doubled, i) + 1),
        zoom_presets().contains(preset_below(doubled, i)),
    decreases i + 1,
{
    assert(zoom_presets()[0] == 25);
    if i >= 0 {
        preset_below_fits(doubled, i - 1);
    }
}

/// The page of a tab in window coordinates: the page view of its docked DevTools, or its whole card.
pub fn tab_rect_in_window(page: Option<Rect>, card: Option<Rect>) -> (r: Option<Rect>)
    ensures
        r == (if page is Some { page } else { card }),
{
    match page {
        Some(p) => Some(p),
        None => card,
    }
}

/// The card of a tab in window coordinates, where it is drawn.
pub fn wrapper_rect_in_window(state: &Tabs, tab: u64, drawn: bool, rect: Option<Rect>) -> (r: Option<Rect>)
    ensures
        r == (if drawn && state@.tabs.contains_key(tab) { rect } else { None }),
{
    if drawn && wrapper_of(state, tab).is_some() { rect } else { None }
}

// ------------------------------------------------------------------------------ tabs and browsers

impl Model {
    /// The browser of a tab.
    pub open spec fn has_browser(self, tab: u64, browser: i32) -> bool {
        self.tabs.contains_key(tab) && self.tabs[tab].browser_id == Some(browser)
    }

    /// The browser of a tab leads back to the tab, and to no other; if it is being closed, then as that
    /// tab's, and it has not left the window yet.
    pub open spec fn leads_back(self, tab: u64, browser: i32) -> bool {
        &&& self.by_browser.contains_key(browser) && self.by_browser[browser] == tab
        &&& self.closing.contains_key(browser) ==> self.closing[browser].tab == tab && !self.closing[browser].silent
            && !self.closing[browser].detached
    }

    /// The browser of every tab leads back to it.
    pub open spec fn consistent(self) -> bool {
        forall|tab: u64, browser: i32| #[trigger] self.has_browser(tab, browser) ==> self.leads_back(tab, browser)
    }

    /// The same tabs have the same browsers.
    pub open spec fn same_browsers(self, m: Model) -> bool {
        &&& self.by_browser == m.by_browser
        &&& self.closing == m.closing
        &&& forall|tab: u64, browser: i32| #[trigger] self.has_browser(tab, browser) == m.has_browser(tab, browser)
    }

    /// No tab has the browser, and it is not being closed.
    pub open spec fn is_new(self, browser: i32) -> bool {
        !self.closing.contains_key(browser) && forall|tab: u64| !#[trigger] self.has_browser(tab, browser)
    }

    /// The browser is no other tab's.
    pub open spec fn is_own(self, tab: u64, browser: i32) -> bool {
        forall|other: u64| #[trigger] self.has_browser(other, browser) ==> other == tab
    }
}

proof fn home_keeps_browsers(m: Model, a: Around, tab: u64)
    ensures
        m.home(a, tab).0.same_browsers(m),
{
}

proof fn all_home_keeps_browsers(m: Model, a: Around, tabs: Seq<u64>, i: int)
    ensures
        m.all_home(a, tabs, i).0.same_browsers(m),
    decreases tabs.len() - i,
{
    if 0 <= i < tabs.len() {
        home_keeps_browsers(m, a, tabs[i]);
        all_home_keeps_browsers(m.home(a, tabs[i]).0, a, tabs, i + 1);
    }
}

proof fn others_away_keeps_browsers(m: Model, a: Around, ids: Seq<u64>, panes: Seq<(u64, i32, u32)>, i: int)
    ensures
        m.others_away(a, ids, panes, i).0.same_browsers(m),
    decreases ids.len() - i,
{
    if 0 <= i < ids.len() {
        others_away_keeps_browsers(m, a, ids, panes, i + 1);
        others_away_keeps_browsers(m.painted(a, ids[i], m.tabs[ids[i]].wrapper, a.frame).0, a, ids, panes, i + 1);
    }
}

proof fn panes_shown_keeps_browsers(m: Model, a: Around, panes: Seq<(u64, i32, u32)>, i: int)
    ensures
        m.panes_shown(a, panes, i).0.same_browsers(m),
    decreases panes.len() - i,
{
    if 0 <= i < panes.len() {
        panes_shown_keeps_browsers(m, a, panes, i + 1);
        panes_shown_keeps_browsers(m.painted(a, panes[i].0, m.tabs[panes[i].0].wrapper, panes[i].2).0, a, panes, i + 1);
    }
}

proof fn only_shown_keeps_browsers(m: Model, a: Around, ids: Seq<u64>, tab: u64, i: int)
    ensures
        m.only_shown(a, ids, tab, i).0.same_browsers(m),
    decreases ids.len() - i,
{
    if 0 <= i < ids.len() {
        only_shown_keeps_browsers(m, a, ids, tab, i + 1);
        only_shown_keeps_browsers(m.painted(a, tab, m.tabs[ids[i]].wrapper, a.frame).0, a, ids, tab, i + 1);
    }
}

proof fn laid_out_keeps_browsers(m: Model, a: Around, layout: LayoutModel)
    ensures
        m.laid_out(a, layout).0.same_browsers(m),
{
    let home = m.all_home(a, tabs_of(layout), 0).0;
    all_home_keeps_browsers(m, a, tabs_of(layout), 0);
    let panes = panes_of(layout, a.frame, a.accent);
    others_away_keeps_browsers(home, a, ascending_u64(home.tabs), panes, 0);
    let away = home.others_away(a, ascending_u64(home.tabs), panes, 0).0;
    panes_shown_keeps_browsers(away, a, panes, 0);
}

proof fn filled_keeps_browsers(m: Model, a: Around, tab: u64)
    ensures
        m.filled(a, tab).0.same_browsers(m),
{
    let home = m.home(a, tab).0;
    home_keeps_browsers(m, a, tab);
    only_shown_keeps_browsers(home, a, ascending_u64(home.tabs), tab, 0);
}

proof fn unfilled_keeps_browsers(m: Model, a: Around, tab: u64)
    ensures
        m.unfilled(tab).0.same_browsers(m),
        m.unfilled_removed(a, tab).0.same_browsers(m),
{
    let one = m.unfilled(tab).0;
    laid_out_keeps_browsers(one, a, one.shown);
}

/// Neither a layout, nor page fullscreen, nor a color change, nor Peek gives a tab another browser.
pub proof fn what_is_shown_changes_no_browser(m: Model, a: Around, layout: LayoutModel, tab: Option<u64>, ids: Seq<u64>, focused: Option<u64>, view: u64)
    ensures
        m.showing(a, layout).0.same_browsers(m),
        m.page_fullscreen(a, tab).0.same_browsers(m),
        m.recolored(a, ids, focused, 0).0.same_browsers(m),
        tab is Some ==> m.returned(a, tab->0, view).0.same_browsers(m),
{
    let shown = Model { shown: layout, ..m };
    laid_out_keeps_browsers(shown, a, layout);
    match m.fullscreen {
        Some(fs) => {
            filled_keeps_browsers(shown, a, fs.tab);
            unfilled_keeps_browsers(shown, a, fs.tab);
            laid_out_keeps_browsers(shown.unfilled(fs.tab).0, a, layout);
            unfilled_keeps_browsers(m, a, fs.tab);
            laid_out_keeps_browsers(m.unfilled(fs.tab).0, a, m.shown);
        },
        None => {
            laid_out_keeps_browsers(m, a, m.shown);
        },
    }
    match tab {
        Some(t) => {
            let ended = match m.fullscreen {
                Some(f) => if f.tab != t { m.unfilled(f.tab).0 } else { m },
                None => m,
            };
            let from_peek = ended.in_peek(t) || (ended.is_fullscreen(t) && ended.fullscreen->0.from_peek);
            let next = Model { fullscreen: Some((Fullscreen { tab: t, from_peek })), ..ended };
            filled_keeps_browsers(next, a, t);
        },
        None => {},
    }
    recolored_keeps_browsers(m, a, ids, focused, 0);
}

proof fn recolored_keeps_browsers(m: Model, a: Around, ids: Seq<u64>, focused: Option<u64>, i: int)
    ensures
        m.recolored(a, ids, focused, i).0.same_browsers(m),
    decreases ids.len() - i,
{
    if 0 <= i < ids.len() {
        let color = if focused == Some(ids[i]) { a.accent } else { a.frame };
        recolored_keeps_browsers(m.painted(a, ids[i], m.tabs[ids[i]].wrapper, color).0, a, ids, focused, i + 1);
    }
}

/// The entry of a tab goes, and with it only its own browser.
proof fn removed_keeps_browsers(m: Model, a: Around, tab: u64)
    ensures
        ({
            let end = m.removed(a, tab).0;
            &&& end.by_browser == m.by_browser
            &&& end.closing == m.closing
            &&& forall|t: u64, browser: i32| #[trigger] end.has_browser(t, browser) == (t != tab && m.has_browser(t, browser))
        }),
{
    let without = Model { tabs: m.tabs.remove(tab), colors: m.colors.remove(tab), zoom: m.zoom.remove(tab), ..m };
    unfilled_keeps_browsers(without, a, tab);
    assert forall|t: u64, browser: i32| #[trigger] without.has_browser(t, browser) == (t != tab && m.has_browser(t, browser)) by {}
}

/// While every tab's browser leads back to it, no browser is two tabs'.
pub proof fn no_browser_is_two_tabs(m: Model, one: u64, other: u64, browser: i32)
    requires
        m.consistent(),
        m.has_browser(one, browser),
        m.has_browser(other, browser),
    ensures
        one == other,
        m.by_browser[browser] == one,
{
    assert(m.leads_back(one, browser));
    assert(m.leads_back(other, browser));
}

/// Creating a tab's browser, or adopting a popup's, keeps every browser at its tab: a browser is new
/// when it is created.
pub proof fn a_new_browser_is_its_tabs(m: Model, a: Around, tab: u64, wrapper: Option<u64>, held: u64, internal: bool, view: u64, opener: Option<i32>, browser: i32, muted: bool)
    requires
        m.consistent(),
    ensures
        m.create_wrapper(a, tab, wrapper, internal).0.consistent(),
        m.with_view(tab, held, view).0.consistent(),
        m.create_view(a, tab, held, None).0.consistent(),
        m.create_done(a, tab, held, view, None, muted).0.consistent(),
        m.create_done(a, tab, held, view, Some(browser), muted).0.consistent(),
        m.is_new(browser) ==> m.with_browser(tab, browser).0.consistent(),
        m.is_new(browser) ==> m.adopted(a, tab, opener, view, browser, wrapper).0.consistent(),
{
    let made = m.create_wrapper(a, tab, wrapper, internal).0;
    assert forall|t: u64, b: i32| #[trigger] made.has_browser(t, b) implies made.leads_back(t, b) by {
        assert(m.has_browser(t, b));
    }
    let viewed = m.with_view(tab, held, view).0;
    assert forall|t: u64, b: i32| #[trigger] viewed.has_browser(t, b) implies viewed.leads_back(t, b) by {
        assert(m.has_browser(t, b));
    }
    removed_keeps_browsers(m, a, tab);
    let ended = m.stillborn(a, tab).0;
    assert forall|t: u64, b: i32| #[trigger] ended.has_browser(t, b) implies ended.leads_back(t, b) by {
        assert(m.removed(a, tab).0.has_browser(t, b));
        assert(m.has_browser(t, b));
    }
    if m.is_new(browser) {
        let named = m.with_browser(tab, browser).0;
        assert forall|t: u64, b: i32| #[trigger] named.has_browser(t, b) implies named.leads_back(t, b) by {
            if t != tab {
                assert(m.has_browser(t, b));
            }
        }
        let adopted = m.adopted(a, tab, opener, view, browser, wrapper).0;
        assert forall|t: u64, b: i32| #[trigger] adopted.has_browser(t, b) implies adopted.leads_back(t, b) by {
            if t != tab || wrapper is None {
                assert(m.has_browser(t, b));
            }
        }
    }
}

/// Closing a tab's browser keeps every browser at its tab, from the request to the end: a close is told
/// the tab that the browser is, and a browser is gone only after its view has left the window (or
/// without having been closed at all).
pub proof fn closing_keeps_the_browsers_apart(m: Model, a: Around, tab: u64, browser: i32, closable: bool, window_closing: bool)
    requires
        m.consistent(),
        m.is_own(tab, browser),
    ensures
        m.destroyed(a, tab, closable).0.consistent(),
        m.do_close(browser, tab).0.consistent(),
        m.detaching(a, browser).0.consistent(),
        (m.closing.contains_key(browser) ==> m.closing[browser].detached) ==> m.closed(browser, tab, window_closing).0.consistent(),
{
    destroyed_keeps_browsers(m, a, tab, closable);
    let asked = m.do_close(browser, tab).0;
    assert forall|t: u64, b: i32| #[trigger] asked.has_browser(t, b) implies asked.leads_back(t, b) by {
        assert(m.has_browser(t, b));
    }
    detaching_keeps_browsers(m, a, browser);
    if m.closing.contains_key(browser) ==> m.closing[browser].detached {
        let end = m.closed(browser, tab, window_closing).0;
        assert forall|t: u64, b: i32| #[trigger] end.has_browser(t, b) implies end.leads_back(t, b) by {
            assert(m.has_browser(t, b));
            assert(m.leads_back(t, b));
        }
    }
}

proof fn detaching_keeps_browsers(m: Model, a: Around, browser: i32)
    requires
        m.consistent(),
    ensures
        m.detaching(a, browser).0.consistent(),
{
    if m.closing.contains_key(browser) && !m.closing[browser].detached {
        let c = m.closing[browser];
        let next = Model {
            closing: m.closing.insert(browser, (Closing { detached: true, view: None, ..c })),
            by_browser: m.by_browser.remove(browser),
            ..m
        };
        let without = Model { tabs: next.tabs.remove(c.tab), colors: next.colors.remove(c.tab), zoom: next.zoom.remove(c.tab), ..next };
        unfilled_keeps_browsers(without, a, c.tab);
        let end = m.detaching(a, browser).0;
        assert forall|t: u64, b: i32| #[trigger] end.has_browser(t, b) implies end.leads_back(t, b) by {
            if !c.silent && m.has_browser(c.tab, browser) {
                assert(without.unfilled_removed(a, c.tab).0.has_browser(t, b));
                assert(without.has_browser(t, b));
            }
            assert(m.has_browser(t, b));
            assert(m.leads_back(t, b));
        }
    }
}

proof fn destroyed_keeps_browsers(m: Model, a: Around, tab: u64, closable: bool)
    requires
        m.consistent(),
    ensures
        m.destroyed(a, tab, closable).0.consistent(),
{
    removed_keeps_browsers(m, a, tab);
    let end = m.destroyed(a, tab, closable).0;
    if m.tabs.contains_key(tab) {
        match m.tabs[tab].browser_id {
            Some(browser) => {
                assert(m.has_browser(tab, browser));
                let cut = Model { by_browser: m.by_browser.remove(browser), ..m };
                removed_keeps_browsers(cut, a, tab);
                assert forall|t: u64, b: i32| #[trigger] end.has_browser(t, b) implies end.leads_back(t, b) by {
                    if !m.closing.contains_key(browser) && !closable {
                        assert(cut.removed(a, tab).0.has_browser(t, b));
                        assert(cut.has_browser(t, b));
                    }
                    assert(m.has_browser(t, b));
                    assert(m.leads_back(t, b) && m.leads_back(tab, browser));
                }
            },
            None => {
                assert forall|t: u64, b: i32| #[trigger] end.has_browser(t, b) implies end.leads_back(t, b) by {
                    assert(m.removed(a, tab).0.has_browser(t, b));
                    assert(m.has_browser(t, b));
                }
            },
        }
    }
}

/// Replacing a tab's browser keeps every browser at its tab, whether the new one could be created or
/// not: the old one is no tab's in between.
pub proof fn a_replacement_keeps_the_browsers_apart(m: Model, a: Around, tab: u64, internal: bool, alive: bool, r: Replacing, view: Option<u64>, browser: Option<i32>, closable: bool)
    requires
        m.consistent(),
        r.old_id is Some ==> forall|t: u64| !#[trigger] m.has_browser(t, r.old_id->0),
    ensures
        m.replacing(a, tab, internal, alive).0.consistent(),
        m.replaced(a, r, view, browser, closable).0.consistent(),
{
    let home = m.home(a, tab).0;
    home_keeps_browsers(m, a, tab);
    let begun = m.replacing(a, tab, internal, alive).0;
    assert forall|t: u64, b: i32| #[trigger] begun.has_browser(t, b) implies begun.leads_back(t, b) by {
        assert(home.has_browser(t, b));
        assert(m.has_browser(t, b));
        if home.tabs.contains_key(tab) && home.tabs[tab].browser_id is Some {
            assert(home.has_browser(tab, home.tabs[tab].browser_id->0));
            assert(m.has_browser(tab, home.tabs[tab].browser_id->0));
        }
    }
    if view is Some && browser is Some {
        let end = m.replace_worked(r, closable).0;
        assert forall|t: u64, b: i32| #[trigger] end.has_browser(t, b) implies end.leads_back(t, b) by {
            assert(m.has_browser(t, b));
        }
    } else {
        let back = Model {
            closing: match r.old_id {
                Some(b) => m.closing.remove(b),
                None => m.closing,
            },
            by_browser: match r.old_id {
                Some(b) => m.by_browser.insert(b, r.tab),
                None => m.by_browser,
            },
            tabs: if m.tabs.contains_key(r.tab) {
                m.tabs.insert(
                    r.tab,
                    (TabEntry {
                        view: r.old_view,
                        browser_id: if r.old_alive { r.old_id } else { None },
                        internal: r.old_internal,
                        ..m.tabs[r.tab]
                    }),
                )
            } else {
                m.tabs
            },
            ..m
        };
        assert forall|t: u64, b: i32| #[trigger] back.has_browser(t, b) implies back.leads_back(t, b) by {
            if t != r.tab || !m.tabs.contains_key(r.tab) {
                assert(m.has_browser(t, b));
            }
        }
        destroyed_keeps_browsers(back, a, r.tab, closable);
    }
}

// ------------------------------------------------------------------------------ what opening and closing do

/// A tab's browser and the tab lead to each other once the browser is there, and the browser knows its role.
pub proof fn a_browser_gets_its_role(m: Model, tab: u64, browser: i32, other: i32)
    ensures
        ({
            let r = m.with_browser(tab, browser);
            &&& r.1 == seq![(Effect::SetRole { browser, tab })]
            &&& r.0.by_browser.contains_key(browser) && r.0.by_browser[browser] == tab
            &&& other != browser ==> (r.0.by_browser.contains_key(other) <==> m.by_browser.contains_key(other)) && r.0.by_browser[other]
                == m.by_browser[other]
            &&& m.tabs.contains_key(tab) ==> r.0.tabs[tab].browser_id == Some(browser) && r.0.tabs[tab].wrapper == m.tabs[tab].wrapper
                && r.0.tabs[tab].view == m.tabs[tab].view
            &&& !m.tabs.contains_key(tab) ==> !r.0.tabs.contains_key(tab)
            &&& r.0.closing == m.closing && r.0.reported == m.reported
        }),
{
}

/// A new tab gets a wrapper that is hidden at first: with a border of two, in the color of the frame, and
/// added to the window last. Without a wrapper the tab is over, and that is reported.
pub proof fn a_new_tab_is_hidden_at_first(m: Model, a: Around, tab: u64, wrapper: u64, internal: bool)
    requires
        !m.tabs.contains_key(tab),
    ensures
        ({
            let r = m.create_wrapper(a, tab, Some(wrapper), internal);
            let e = r.0.tabs[tab];
            &&& r.0.tabs.contains_key(tab) && e.wrapper == wrapper && e.view is None && e.browser_id is None && e.internal == internal && !e.in_peek
            &&& r.0.colors[tab] == a.frame
            &&& r.1.len() == 4
            &&& r.1[0] == (Effect::SetInsets { wrapper, inset: 2 })
            &&& r.1[1] is PaintWrapper && r.1[1]->PaintWrapper_wrapper == wrapper
            &&& !a.agents@.contains_key(tab) ==> r.1[1]->PaintWrapper_color == a.frame
            &&& r.1[2] == (Effect::ShowWrapper { wrapper, visible: false })
            &&& r.1[3] == (Effect::AddWrapper { wrapper })
        }),
        !m.reported.contains((tab, -1i32)) ==> m.create_wrapper(a, tab, None, internal).1 == seq![(Effect::Closed { tab })],
        m.create_wrapper(a, tab, None, internal).0.tabs == m.tabs,
{
}

/// The view of a new tab joins its wrapper and is the tab's from then on.
pub proof fn a_view_joins_its_wrapper(m: Model, a: Around, tab: u64, wrapper: u64, view: u64)
    ensures
        ({
            let r = m.create_view(a, tab, wrapper, Some(view));
            &&& r.1 == seq![(Effect::AddChild { wrapper, view })]
            &&& m.tabs.contains_key(tab) ==> r.0.tabs[tab] == (TabEntry { view: Some(view), ..m.tabs[tab] })
            &&& !m.tabs.contains_key(tab) ==> r.0 == m
        }),
{
}

/// A browser that was created is reported, and muted where the tab is; one that was not ends its tab: the
/// view leaves the wrapper and is let go, the entry is gone, and the close is reported.
pub proof fn a_created_browser_is_reported(m: Model, a: Around, tab: u64, wrapper: u64, view: u64, browser: i32, muted: bool)
    ensures
        ({
            let r = m.create_done(a, tab, wrapper, view, Some(browser), muted);
            &&& r.0 == m
            &&& r.1.len() == (if muted { 2int } else { 1 })
            &&& r.1[0] == (Effect::Created { tab })
            &&& muted ==> r.1[1] == (Effect::Mute { browser })
        }),
        ({
            let r = m.create_done(a, tab, wrapper, view, None, muted);
            &&& !r.0.tabs.contains_key(tab)
            &&& r.1.len() >= 2 && r.1[0] == (Effect::RemoveChild { wrapper, view }) && r.1[1] == (Effect::DropView { view })
            &&& !m.reported.contains((tab, -1i32)) ==> r.1.last() == (Effect::Closed { tab })
        }),
{
    removing_keeps_reports(m, a, tab);
}

/// A live browser that is to be closed is closed once, by force, and marked as closing; the developer tools of
/// the tab are told first. What is not alive any more is reported right away, and the tab is gone.
pub proof fn a_browser_is_closed_once(m: Model, a: Around, tab: u64, browser: i32)
    requires
        m.tabs.contains_key(tab),
        m.tabs[tab].browser_id == Some(browser),
    ensures
        ({
            let r = m.destroyed(a, tab, true);
            &&& r.1.len() > 0 && r.1[0] == (Effect::InspectedGone { tab })
            &&& m.closing.contains_key(browser) ==> r.0 == m && r.1.len() == 1
            &&& !m.closing.contains_key(browser) ==> {
                &&& r.1.len() == 2 && r.1[1] == (Effect::CloseBrowser { browser })
                &&& r.0.closing.contains_key(browser) && r.0.closing[browser].tab == tab && !r.0.closing[browser].silent
                    && !r.0.closing[browser].detached && r.0.closing[browser].view is None
                &&& r.0.tabs == m.tabs && r.0.by_browser == m.by_browser && r.0.reported == m.reported
            }
        }),
        !m.closing.contains_key(browser) ==> {
            let r = m.destroyed(a, tab, false);
            &&& r.1.len() > 0 && r.1[0] == (Effect::InspectedGone { tab })
            &&& !r.0.tabs.contains_key(tab) && !r.0.by_browser.contains_key(browser)
            &&& !m.reported.contains((tab, browser)) ==> r.1.last() == (Effect::Closed { tab })
        },
{
    let without = Model { by_browser: m.by_browser.remove(browser), ..m };
    removing_keeps_reports(without, a, tab);
    removed_keeps_browsers(without, a, tab);
}

/// A tab without a browser that is closed is gone at once, and that is reported.
pub proof fn a_tab_without_a_browser_is_gone_at_once(m: Model, a: Around, tab: u64, closable: bool)
    ensures
        m.tabs.contains_key(tab) && m.tabs[tab].browser_id is None ==> {
            let r = m.destroyed(a, tab, closable);
            &&& !r.0.tabs.contains_key(tab)
            &&& r.1.len() > 0 && r.1[0] == (Effect::InspectedGone { tab })
            &&& !m.reported.contains((tab, -1i32)) ==> r.1.last() == (Effect::Closed { tab })
        },
        !m.tabs.contains_key(tab) ==> m.destroyed(a, tab, closable) == (m, seq![(Effect::InspectedGone { tab })]),
{
    removing_keeps_reports(m, a, tab);
}

/// A browser that closes is detached in a task of its own, and is marked as closing where it is not yet.
pub proof fn a_closing_browser_is_detached_later(m: Model, browser: i32, tab: u64)
    ensures
        ({
            let r = m.do_close(browser, tab);
            &&& r.1 == seq![(Effect::DetachLater { browser })]
            &&& m.closing.contains_key(browser) ==> r.0 == m
            &&& !m.closing.contains_key(browser) ==> r.0.closing.contains_key(browser) && r.0.closing[browser].tab == tab
                && !r.0.closing[browser].silent && !r.0.closing[browser].detached
            &&& r.0.tabs == m.tabs && r.0.by_browser == m.by_browser
        }),
{
}

/// A browser that is gone is forgotten; its close is reported unless it was replaced, or the window closes
/// under a tab that still had it. A browser that belongs to no tab is reported to nobody.
pub proof fn a_browser_that_is_gone_is_forgotten(m: Model, browser: i32, tab: u64, window_closing: bool)
    ensures
        ({
            let r = m.closed(browser, tab, window_closing);
            let closing = m.closing.contains_key(browser);
            let owned = m.tabs.contains_key(tab) && m.tabs[tab].browser_id == Some(browser);
            let fresh = !m.reported.contains((tab, browser));
            &&& !r.0.closing.contains_key(browser) && !r.0.by_browser.contains_key(browser)
            &&& closing && !m.closing[browser].silent && fresh ==> r.1 == seq![(Effect::Closed { tab })]
            &&& closing && m.closing[browser].silent ==> r.1.len() == 0
            &&& closing ==> r.0.tabs == m.tabs
            &&& !closing && owned ==> !r.0.tabs.contains_key(tab)
            &&& !closing && owned && !window_closing && fresh ==> r.1 == seq![(Effect::Closed { tab })]
            &&& !closing && owned && window_closing ==> r.1.len() == 0
            &&& !closing && !owned ==> r.1.len() == 0 && r.0.tabs == m.tabs
        }),
{
}

/// The view of a closing browser leaves the window: of a replaced one nothing but the view it left; of
/// another the tab goes, its view is detached before its wrapper is removed and let go last. The
/// developer tools are told first.
pub proof fn a_detached_tab_leaves_the_window(m: Model, a: Around, browser: i32)
    requires
        m.closing.contains_key(browser),
        !m.closing[browser].detached,
    ensures
        ({
            let c = m.closing[browser];
            let r = m.detaching(a, browser);
            let e = m.tabs[c.tab];
            let owned = m.tabs.contains_key(c.tab) && e.browser_id == Some(browser);
            &&& c.silent && c.view is Some ==> r.1 == seq![(Effect::Detach { view: c.view->0 }), (Effect::DropView { view: c.view->0 })]
            &&& c.silent && c.view is None ==> r.1.len() == 0
            &&& c.silent ==> r.0.tabs == m.tabs
            &&& !c.silent ==> r.1.len() > 0 && r.1[0] == (Effect::InspectedGone { tab: c.tab })
            &&& !c.silent && !owned ==> r.1.len() == 1 && r.0.tabs == m.tabs
            &&& !c.silent && owned ==> !r.0.tabs.contains_key(c.tab) && r.1.contains(Effect::RemoveWrapper { wrapper: e.wrapper })
            &&& !c.silent && owned && e.view is Some ==> r.1.contains(Effect::Detach { view: e.view->0 }) && r.1.last() == (Effect::DropView {
                view: e.view->0,
            })
            &&& !r.0.by_browser.contains_key(browser)
        }),
{
    let c = m.closing[browser];
    if !c.silent && m.tabs.contains_key(c.tab) && m.tabs[c.tab].browser_id == Some(browser) {
        let e = m.tabs[c.tab];
        let marked = Model {
            closing: m.closing.insert(browser, (Closing { detached: true, view: None, ..c })),
            by_browser: m.by_browser.remove(browser),
            ..m
        };
        let without = Model { tabs: marked.tabs.remove(c.tab), colors: marked.colors.remove(c.tab), zoom: marked.zoom.remove(c.tab), ..marked };
        unfilled_keeps_browsers(without, a, c.tab);
        let left = without.unfilled(c.tab).0;
        layout_keeps(left, a, left.shown);
        let ended = without.unfilled_removed(a, c.tab);
        let head = seq![(Effect::InspectedGone { tab: c.tab })] + ended.1 + marked.peek_taken(a, c.tab);
        let tail = marked.peek_let_go(a, c.tab) + (match e.view {
            Some(view) => seq![(Effect::DropView { view })],
            None => Seq::empty(),
        });
        let all = m.detaching(a, browser).1;
        assert(all =~= head + gone(e) + tail);
        let n = head.len() as int;
        match e.view {
            Some(view) => {
                assert(gone(e)[0] == (Effect::Detach { view }) && gone(e)[1] == (Effect::RemoveWrapper { wrapper: e.wrapper }));
                assert(all[n] == gone(e)[0] && all[n + 1] == gone(e)[1]);
            },
            None => {
                assert(gone(e)[0] == (Effect::RemoveWrapper { wrapper: e.wrapper }));
                assert(all[n] == gone(e)[0]);
            },
        }
    }
}

/// What leaves the window with a tab: its view, if it has one, and then its wrapper.
pub proof fn a_view_leaves_before_its_wrapper(e: TabEntry)
    ensures
        e.view is Some ==> gone(e) == seq![(Effect::Detach { view: e.view->0 }), (Effect::RemoveWrapper { wrapper: e.wrapper })],
        e.view is None ==> gone(e) == seq![(Effect::RemoveWrapper { wrapper: e.wrapper })],
        forall|view: u64| #[trigger] let_go(Some(view)) == seq![(Effect::Detach { view }), (Effect::DropView { view })],
        let_go(None).len() == 0,
{
    match e.view {
        Some(view) => {
            assert(gone(e) =~= seq![(Effect::Detach { view }), (Effect::RemoveWrapper { wrapper: e.wrapper })]);
        },
        None => {
            assert(gone(e) =~= seq![(Effect::RemoveWrapper { wrapper: e.wrapper })]);
        },
    }
}

/// A view comes back from the Peek overlay: it leaves whatever holds it, goes where the page of the tab
/// belongs, and is painted in the tab's color again; then its developer tools are laid out.
pub proof fn a_view_that_returns_is_put_back(m: Model, a: Around, tab: u64, view: u64)
    requires
        m.tabs.contains_key(tab),
    ensures
        ({
            let r = m.returned(a, tab, view);
            &&& r.1.len() == 4
            &&& r.1[0] == (Effect::Detach { view })
            &&& r.1[1] == (Effect::AddToPage { tab, wrapper: m.tabs[tab].wrapper, view })
            &&& r.1[2] is PaintView && r.1[2]->PaintView_view == view
            &&& !a.agents@.contains_key(tab) && m.colors.contains_key(tab) ==> r.1[2]->PaintView_color == m.colors[tab]
            &&& !a.agents@.contains_key(tab) && !m.colors.contains_key(tab) ==> r.1[2]->PaintView_color == a.frame
            &&& r.1[3] == (Effect::RelayoutTools { tab })
            &&& !r.0.tabs[tab].in_peek
        }),
        forall|held: u64|
            a.peek == Some((tab, held)) && m.tabs[tab].in_peek ==> #[trigger] m.home(a, tab).1 == seq![(Effect::TakeBack { tab })] + m.returned(
                a,
                tab,
                held,
            ).1,
        !m.tabs[tab].in_peek || a.peek is None || (a.peek->0).0 != tab ==> m.home(a, tab) == (m, Seq::<Effect>::empty()),
{
}

/// A view in Peek has the color of the card.
pub proof fn a_view_in_peek_has_the_color_of_the_card(m: Model, a: Around, tab: u64)
    requires
        m.tabs.contains_key(tab),
    ensures
        m.tabs[tab].in_peek ==> m.background(a, tab) == a.surface,
        !m.tabs[tab].in_peek && !a.agents@.contains_key(tab) && m.colors.contains_key(tab) ==> m.background(a, tab) == m.colors[tab],
        !m.tabs[tab].in_peek && !a.agents@.contains_key(tab) && !m.colors.contains_key(tab) ==> m.background(a, tab) == a.frame,
{
}

/// A tab that is painted keeps its base color, and its wrapper and its view are painted in what it shows.
pub proof fn a_painted_tab_keeps_its_color(m: Model, a: Around, tab: u64, wrapper: u64, color: u32)
    ensures
        ({
            let r = m.painted(a, tab, wrapper, color);
            &&& r.0.colors[tab] == color && r.0.colors.contains_key(tab)
            &&& r.0.tabs == m.tabs
            &&& r.1.len() >= 1 && r.1[0] is PaintWrapper && r.1[0]->PaintWrapper_wrapper == wrapper
            &&& !a.agents@.contains_key(tab) ==> r.1[0]->PaintWrapper_color == color
            &&& a.agents@.contains_key(tab) && m.fullscreen is None ==> r.1[0]->PaintWrapper_color == a.agents@[tab]
            &&& m.tabs.contains_key(tab) && m.tabs[tab].view is Some ==> r.1.len() == 2 && r.1[1] is PaintView && r.1[1]->PaintView_view
                == m.tabs[tab].view->0
            &&& m.tabs.contains_key(tab) && m.tabs[tab].view is Some && !m.tabs[tab].in_peek ==> r.1[1]->PaintView_color
                == r.1[0]->PaintWrapper_color
            &&& m.tabs.contains_key(tab) && m.tabs[tab].view is Some && m.tabs[tab].in_peek ==> r.1[1]->PaintView_color == a.surface
        }),
{
}

/// A tab is on screen where the content area shows it, in page fullscreen, and in a Peek overlay that is
/// visible; the focus is stuck in every other tab that has it.
pub proof fn the_focus_is_stuck_off_screen(m: Model, tab: u64, peek_visible: bool)
    ensures
        ({
            let peeked = m.tabs.contains_key(tab) && m.tabs[tab].in_peek;
            let full = m.fullscreen is Some && m.fullscreen->0.tab == tab;
            &&& peeked ==> (m.stuck(Some(tab), peek_visible) is None <==> peek_visible)
            &&& !peeked && full ==> m.stuck(Some(tab), peek_visible) is None
            &&& !peeked && m.shown == (LayoutModel::Single { tab }) ==> m.stuck(Some(tab), peek_visible) is None
            &&& !peeked && !full && m.shown is Empty ==> m.stuck(Some(tab), peek_visible) == Some(tab)
            &&& !peeked && !full && m.shown is Single && m.shown->tab != tab ==> m.stuck(Some(tab), peek_visible) == Some(tab)
        }),
        m.stuck(None, peek_visible) is None,
        m.tabs.contains_key(tab) && m.tabs[tab].view is Some ==> m.focused(tab) == seq![(Effect::Focus { view: m.tabs[tab].view->0 })],
        !m.tabs.contains_key(tab) || m.tabs[tab].view is None ==> m.focused(tab).len() == 0,
{
    if m.shown == (LayoutModel::Single { tab }) {
        assert(tabs_of(m.shown)[0] == tab);
    }
}

/// Of a tab's earlier browsers nothing stays when its next one comes: what was reported of them, and their
/// zoom, is forgotten; of the other tabs everything stays.
pub proof fn a_new_generation_starts_fresh(m: Model, tab: u64, other: u64, browser: i32)
    ensures
        ({
            let n = m.new_generation(tab);
            &&& !n.reported.contains((tab, browser))
            &&& other != tab ==> (n.reported.contains((other, browser)) <==> m.reported.contains((other, browser)))
            &&& !n.zoom.contains_key(tab)
            &&& other != tab ==> (n.zoom.contains_key(other) <==> m.zoom.contains_key(other)) && n.zoom[other] == m.zoom[other]
            &&& n.tabs == m.tabs && n.closing == m.closing && n.by_browser == m.by_browser && n.colors == m.colors
        }),
{
}

/// A close is reported for the tab and its browser, and only the first time.
pub proof fn a_close_is_reported_for_its_browser(m: Model, tab: u64, browser: i32)
    ensures
        m.reporting(tab, Some(browser)).0.reported.contains((tab, browser)),
        !m.reported.contains((tab, browser)) ==> m.reporting(tab, Some(browser)).1 == seq![(Effect::Closed { tab })],
        m.reported.contains((tab, browser)) ==> m.reporting(tab, Some(browser)) == (m, Seq::<Effect>::empty()),
        m.reporting(tab, None).0.reported.contains((tab, -1i32)),
        m.reporting(tab, Some(browser)).0.tabs == m.tabs,
{
}

/// For a replacement the old browser leaves its tab: hidden, not found under its number any more, and closing
/// silently with its view where it is alive.
pub proof fn a_replaced_browser_makes_room(m: Model, tab: u64, internal: bool, alive: bool, browser: i32, view: u64)
    requires
        m.tabs.contains_key(tab),
        m.tabs[tab].browser_id == Some(browser),
        m.tabs[tab].view == Some(view),
    ensures
        ({
            let r = m.taken(tab, internal, alive);
            &&& r.1 == seq![(Effect::ShowView { view, visible: false })]
            &&& r.0.tabs[tab].view is None && r.0.tabs[tab].browser_id is None && r.0.tabs[tab].internal == internal
            &&& r.0.tabs[tab].wrapper == m.tabs[tab].wrapper && r.0.tabs[tab].in_peek == m.tabs[tab].in_peek
            &&& !r.0.by_browser.contains_key(browser)
            &&& alive ==> r.0.closing.contains_key(browser) && r.0.closing[browser].silent && r.0.closing[browser].tab == tab
                && r.0.closing[browser].view == Some(view) && !r.0.closing[browser].detached
            &&& !alive ==> r.0.closing == m.closing
        }),
{
}

/// A replacement begins with the developer tools and with the view back home.
pub proof fn a_replacement_begins_at_home(m: Model, a: Around, tab: u64, internal: bool, alive: bool)
    ensures
        m.replacing(a, tab, internal, alive).1.len() > 0,
        m.replacing(a, tab, internal, alive).1[0] == (Effect::InspectedGone { tab }),
        !m.tabs.contains_key(tab) ==> m.replacing(a, tab, internal, alive).0.tabs == m.tabs,
{
}

/// A replacement that worked is reported as a created browser; the old one is closed by force where it is
/// alive, its close is never reported, and what it leaves is let go where it is not.
pub proof fn a_replacement_that_works_closes_the_old_browser(m: Model, r: Replacing, browser: i32, closable: bool)
    requires
        r.old_id == Some(browser),
    ensures
        ({
            let e = m.replace_worked(r, closable);
            &&& e.1.len() > 0 && e.1[0] == (Effect::Created { tab: r.tab })
            &&& e.0.reported.contains((r.tab, browser))
            &&& r.old_alive && closable ==> e.1 == seq![(Effect::Created { tab: r.tab }), (Effect::CloseBrowser { browser })] && e.0.closing
                == m.closing
            &&& !(r.old_alive && closable) ==> !e.0.closing.contains_key(browser)
            &&& !(r.old_alive && closable) && r.old_view is Some ==> e.1 == seq![
                (Effect::Created { tab: r.tab }),
                (Effect::Detach { view: r.old_view->0 }),
                (Effect::DropView { view: r.old_view->0 }),
            ]
            &&& e.0.tabs == m.tabs && !e.0.zoom.contains_key(r.tab)
        }),
{
    let e = m.replace_worked(r, closable);
    if r.old_alive && closable {
        assert(e.1 =~= seq![(Effect::Created { tab: r.tab }), (Effect::CloseBrowser { browser })]);
    } else if r.old_view is Some {
        assert(e.1 =~= seq![
            (Effect::Created { tab: r.tab }),
            (Effect::Detach { view: r.old_view->0 }),
            (Effect::DropView { view: r.old_view->0 }),
        ]);
    }
}

/// A replacement works where both the view and the browser came.
pub proof fn a_replacement_needs_view_and_browser(m: Model, a: Around, r: Replacing, view: u64, browser: i32, closable: bool)
    ensures
        m.replaced(a, r, Some(view), Some(browser), closable) == m.replace_worked(r, closable),
        m.replaced(a, r, None, Some(browser), closable) == m.replace_failed(a, r, None, closable),
        m.replaced(a, r, Some(view), None, closable) == m.replace_failed(a, r, Some(view), closable),
        ({
            let e = m.replace_failed(a, r, Some(view), closable);
            &&& e.1.len() > 0 && e.1[0] == (Effect::RemoveChild { wrapper: r.wrapper, view })
            &&& r.old_view is Some ==> e.1.len() > 1 && e.1[1] == (Effect::ShowView { view: r.old_view->0, visible: true })
        }),
{
}

/// A popup that is adopted becomes a hidden tab with its view and its browser, under the tab of the browser
/// that opened it.
pub proof fn an_adopted_popup_is_a_hidden_tab(m: Model, a: Around, tab: u64, opener: i32, view: u64, browser: i32, wrapper: u64)
    requires
        !m.tabs.contains_key(tab),
        opener != browser,
    ensures
        ({
            let r = m.adopted(a, tab, Some(opener), view, browser, Some(wrapper));
            let e = r.0.tabs[tab];
            &&& r.0.tabs.contains_key(tab) && e.wrapper == wrapper && e.view == Some(view) && e.browser_id == Some(browser) && !e.internal && !e.in_peek
            &&& r.0.by_browser.contains_key(browser) && r.0.by_browser[browser] == tab
            &&& r.1.contains(Effect::ShowWrapper { wrapper, visible: false })
            &&& r.1.len() >= 2
            &&& r.1[r.1.len() - 2] == (Effect::AddChild { wrapper, view })
            &&& m.by_browser.contains_key(opener) ==> r.1.last() == (Effect::Adopted { tab, opener: Some(m.by_browser[opener]) })
            &&& !m.by_browser.contains_key(opener) ==> r.1.last() == (Effect::Adopted { tab, opener: None })
        }),
        m.adopted(a, tab, None, view, browser, Some(wrapper)).1.last() == (Effect::Adopted { tab, opener: None }),
        m.adopted(a, tab, Some(opener), view, browser, None).1.len() == 0,
        m.adopted(a, tab, Some(opener), view, browser, None).0.tabs == m.tabs,
{
    let r = m.adopted(a, tab, Some(opener), view, browser, Some(wrapper));
    assert(r.1[2] == (Effect::ShowWrapper { wrapper, visible: false }));
}

// ------------------------------------------------------------------------------ what popups do

/// A popup is shown as one where its features say so or the disposition does, and in the foreground unless it
/// was opened in the background; an agent's popups are presented as the agent's.
pub proof fn a_popup_is_presented_as_it_was_opened(disposition: Disposition, features_popup: bool, popup: bool, foreground: bool)
    ensures
        features_popup ==> presentation(disposition, features_popup, None).0,
        disposition is NewPopup ==> presentation(disposition, features_popup, None).0,
        !features_popup && !(disposition is NewPopup) ==> !presentation(disposition, features_popup, None).0,
        presentation(disposition, features_popup, None).1 <==> !(disposition is NewBackgroundTab),
        presentation(disposition, features_popup, Some((popup, foreground))) == (popup, foreground),
{
}

/// A popup that was aborted waits no longer; the others wait on, in order.
pub proof fn an_aborted_popup_waits_no_longer(queue: Seq<PendingPopup>, popup_id: i32, p: PendingPopup)
    ensures
        without_popup(queue, popup_id).contains(p) <==> queue.contains(p) && p.popup_id != popup_id,
        (forall|k: int| 0 <= k < queue.len() ==> (#[trigger] queue[k]).popup_id != popup_id) ==> without_popup(queue, popup_id) == queue,
        without_popup(queue, popup_id).len() <= queue.len(),
        queue.len() > 0 && queue[0].popup_id != popup_id ==> without_popup(queue, popup_id).len() > 0 && without_popup(queue, popup_id)[0] == queue[0],
    decreases queue.len(),
{
    if queue.len() > 0 {
        let rest = queue.skip(1);
        an_aborted_popup_waits_no_longer(rest, popup_id, p);
        let kept = without_popup(rest, popup_id);
        let all = without_popup(queue, popup_id);
        if queue.contains(p) {
            let k = choose|k: int| 0 <= k < queue.len() && queue[k] == p;
            if k > 0 {
                assert(rest[k - 1] == p);
            }
        }
        if rest.contains(p) {
            let k = choose|k: int| 0 <= k < rest.len() && rest[k] == p;
            assert(queue[k + 1] == p);
        }
        assert(queue[0] == queue[0]);
        if queue[0].popup_id != popup_id {
            assert(all =~= seq![queue[0]] + kept);
            assert(all[0] == queue[0]);
            if kept.contains(p) {
                let k = choose|k: int| 0 <= k < kept.len() && kept[k] == p;
                assert(all[k + 1] == p);
            }
            if all.contains(p) {
                let k = choose|k: int| 0 <= k < all.len() && all[k] == p;
                if k > 0 {
                    assert(kept[k - 1] == p);
                } else {
                    assert(queue.contains(p));
                }
            }
            if p == queue[0] {
                assert(queue.contains(p));
            }
        }
        if forall|k: int| 0 <= k < queue.len() ==> (#[trigger] queue[k]).popup_id != popup_id {
            assert forall|k: int| 0 <= k < rest.len() implies (#[trigger] rest[k]).popup_id != popup_id by {
                assert(queue[k + 1].popup_id != popup_id);
            }
            assert(seq![queue[0]] + rest =~= queue);
        }
    } else {
        assert(without_popup(queue, popup_id) =~= queue);
    }
}

/// A blank popup is reported with what its page shows; any other with what it was opened for.
pub proof fn a_popup_is_reported_with_its_address(pending: Seq<char>, page: Seq<char>)
    ensures
        page.len() > 0 ==> url_adopted("about:blank"@, Some(page)) == page,
        url_adopted("about:blank"@, None) == "about:blank"@,
        url_adopted("about:blank"@, Some(Seq::empty())) == "about:blank"@,
        pending != "about:blank"@ ==> url_adopted(pending, Some(page)) == pending && url_adopted(pending, None) == pending,
{
}

/// A popup is queued behind those of its opener, and the queues of the others stay as they are.
pub proof fn a_popup_is_queued_behind_the_others(before: Map<i32, VecDeque<PendingPopup>>, after: Map<i32, VecDeque<PendingPopup>>, opener: i32, p: PendingPopup, other: i32)
    requires
        is_queued(before, after, opener, p),
    ensures
        queue_of(after, opener).len() == queue_of(before, opener).len() + 1,
        queue_of(after, opener).last() == p,
        queue_of(after, opener).drop_last() == queue_of(before, opener),
        other != opener ==> queue_of(after, other) == queue_of(before, other),
{
    assert(queue_of(after, opener).drop_last() =~= queue_of(before, opener));
    if other != opener {
        assert(after.remove(opener).contains_key(other) <==> after.contains_key(other));
        assert(before.remove(opener).contains_key(other) <==> before.contains_key(other));
        assert(after.remove(opener)[other] == after[other]);
        assert(before.remove(opener)[other] == before[other]);
    }
}

// ------------------------------------------------------------------------------ what is on screen

/// The focused pane of a split is the one that is numbered; nothing else is split.
pub proof fn the_focused_pane_is_the_numbered_one(horizontal: bool, panes: Seq<Pane>, focused: int, tab: u64)
    ensures
        0 <= focused < panes.len() ==> focused_tab(LayoutModel::Split { horizontal, panes, focused }) == Some(panes[focused].tab),
        !(0 <= focused < panes.len()) ==> focused_tab(LayoutModel::Split { horizontal, panes, focused }) is None,
        focused_tab(LayoutModel::Single { tab }) is None,
        focused_tab(LayoutModel::Empty) is None,
{
}

/// After the colors of the chrome changed the focused pane has the accent, and every other one the frame.
pub proof fn the_focused_pane_has_the_accent(m: Model, a: Around, ids: Seq<u64>, focused: Option<u64>, i: int, k: int)
    requires
        0 <= i <= k < ids.len(),
        forall|x: int, y: int| 0 <= x < y < ids.len() ==> ids[x] != ids[y],
    ensures
        ({
            let n = m.recolored(a, ids, focused, i).0;
            &&& n.colors.contains_key(ids[k])
            &&& focused == Some(ids[k]) ==> n.colors[ids[k]] == a.accent
            &&& focused != Some(ids[k]) ==> n.colors[ids[k]] == a.frame
            &&& n.tabs == m.tabs && n.shown == m.shown
        }),
    decreases k - i,
{
    let one = m.painted(a, ids[i], m.tabs[ids[i]].wrapper, if focused == Some(ids[i]) { a.accent } else { a.frame });
    if i < k {
        the_focused_pane_has_the_accent(one.0, a, ids, focused, i + 1, k);
    } else {
        recoloring_leaves(one.0, a, ids, focused, i + 1, ids[i]);
    }
}

proof fn recoloring_leaves(m: Model, a: Around, ids: Seq<u64>, focused: Option<u64>, i: int, tab: u64)
    requires
        0 <= i,
        forall|x: int| i <= x < ids.len() ==> #[trigger] ids[x] != tab,
    ensures
        m.recolored(a, ids, focused, i).0.colors.contains_key(tab) == m.colors.contains_key(tab),
        m.recolored(a, ids, focused, i).0.colors[tab] == m.colors[tab],
        m.recolored(a, ids, focused, i).0.tabs == m.tabs,
        m.recolored(a, ids, focused, i).0.shown == m.shown,
    decreases ids.len() - i,
{
    if i < ids.len() {
        let one = m.painted(a, ids[i], m.tabs[ids[i]].wrapper, if focused == Some(ids[i]) { a.accent } else { a.frame });
        recoloring_leaves(one.0, a, ids, focused, i + 1, tab);
    }
}

/// The one tab that the content area shows is one pane where it is drawn, in the color of the frame; in page
/// fullscreen nothing is masked, a tab in Peek has its own card, and the view of the empty state counts as
/// one pane.
pub proof fn a_shown_tab_is_a_pane(m: Model, a: Around, tab: u64, empty: Option<Rect>, rects: Map<u64, Rect>)
    ensures
        m.fullscreen is Some ==> m.visible_panes(a, empty, rects).len() == 0,
        m.fullscreen is None && m.shown == (LayoutModel::Single { tab }) ==> {
            let drawn = m.tabs.contains_key(tab) && !m.tabs[tab].in_peek && rects.contains_key(tab) && rects[tab].width > 0 && rects[tab].height > 0;
            &&& drawn && !a.agents@.contains_key(tab) ==> m.visible_panes(a, empty, rects) == seq![(rects[tab], a.frame)]
            &&& drawn && a.agents@.contains_key(tab) ==> m.visible_panes(a, empty, rects) == seq![(rects[tab], a.agents@[tab])]
            &&& !drawn ==> m.visible_panes(a, empty, rects).len() == 0
        },
        m.fullscreen is None && m.shown is Empty ==> {
            &&& empty is Some && empty->0.width > 0 && empty->0.height > 0 ==> m.visible_panes(a, empty, rects) == seq![(empty->0, a.frame)]
            &&& empty is None || empty->0.width <= 0 || empty->0.height <= 0 ==> m.visible_panes(a, empty, rects).len() == 0
        },
{
    if m.shown == (LayoutModel::Single { tab }) {
        let tabs = tabs_of(m.shown);
        assert(tabs.len() == 1 && tabs[0] == tab);
        assert(m.panes_on_screen(a, tabs, rects, 1) =~= Seq::empty());
        let one = m.panes_on_screen(a, tabs, rects, 0);
        if m.tabs.contains_key(tab) && !m.tabs[tab].in_peek && rects.contains_key(tab) && has_area(rects[tab]) {
            assert(one.len() == 1);
            assert(one =~= seq![(rects[tab], m.shown_color(a, tab, a.frame))]);
        }
    }
}

/// Every pane of a split that is drawn is masked, in order, the focused one in the accent.
pub proof fn a_split_is_masked_in_order(m: Model, a: Around, tabs: Seq<u64>, rects: Map<u64, Rect>, i: int)
    requires
        0 <= i <= tabs.len(),
        m.fullscreen is None,
        forall|k: int|
            i <= k < tabs.len() ==> {
                let t = #[trigger] tabs[k];
                &&& m.tabs.contains_key(t) && !m.tabs[t].in_peek && rects.contains_key(t) && rects[t].width > 0 && rects[t].height > 0
                &&& !a.agents@.contains_key(t)
            },
    ensures
        m.panes_on_screen(a, tabs, rects, i).len() == tabs.len() - i,
        forall|k: int|
            i <= k < tabs.len() ==> {
                let t = #[trigger] tabs[k];
                let p = m.panes_on_screen(a, tabs, rects, i)[k - i];
                &&& p.0 == rects[t]
                &&& p.1 == (if m.shown is Split && 0 <= m.shown->focused < m.shown->panes.len() && m.shown->panes[m.shown->focused].tab == t {
                    a.accent
                } else {
                    a.frame
                })
            },
    decreases tabs.len() - i,
{
    if i < tabs.len() {
        assert(has_area(rects[tabs[i]]));
        a_split_is_masked_in_order(m, a, tabs, rects, i + 1);
        let rest = m.panes_on_screen(a, tabs, rects, i + 1);
        let all = m.panes_on_screen(a, tabs, rects, i);
        let t = tabs[i];
        let base = if focused_tab(m.shown) == Some(t) { a.accent } else { a.frame };
        assert(all =~= seq![(rects[t], m.shown_color(a, t, base))] + rest);
        assert forall|k: int| i <= k < tabs.len() implies {
            let t = #[trigger] tabs[k];
            let p = all[k - i];
            &&& p.0 == rects[t]
            &&& p.1 == (if m.shown is Split && 0 <= m.shown->focused < m.shown->panes.len() && m.shown->panes[m.shown->focused].tab == t {
                a.accent
            } else {
                a.frame
            })
        } by {
            if k > i {
                assert(all[k - i] == rest[k - (i + 1)]);
            }
        }
    }
}

// ------------------------------------------------------------------------------ what boosts and zooming do

/// A boost is sent where it has a host and something to apply there.
pub proof fn a_boost_without_effect_is_not_sent(b: BoostData)
    ensures
        b.host@.len() == 0 ==> !worth_sending(b),
        b.css@.len() == 0 && b.js@.len() == 0 ==> !worth_sending(b),
        trimmed(b.host@).len() > 0 && trimmed(b.css@).len() > 0 ==> worth_sending(b),
        trimmed(b.host@).len() > 0 && trimmed(b.js@).len() > 0 ==> worth_sending(b),
        worth_sending(b) ==> b.host@.len() > 0 && (b.css@.len() > 0 || b.js@.len() > 0),
{
}

/// The boosts are sent as a list, those that are worth it and in order, each as an object with its host, its
/// style sheet and its script.
pub proof fn boosts_are_sent_as_a_list(a: BoostData, b: BoostData, idle: BoostData)
    requires
        worth_sending(a),
        worth_sending(b),
        !worth_sending(idle),
    ensures
        boosts_json(Seq::empty()) == "[]"@,
        boosts_json(seq![idle]) == "[]"@,
        boosts_json(seq![idle, a]) == "[{\"host\":"@ + json_quoted(a.host@) + ",\"css\":"@ + json_quoted(a.css@) + ",\"js\":"@ + json_quoted(a.js@) + "}]"@,
        boosts_json(seq![a, idle, b]) == "[{\"host\":"@ + json_quoted(a.host@) + ",\"css\":"@ + json_quoted(a.css@) + ",\"js\":"@ + json_quoted(a.js@)
            + "},{\"host\":"@ + json_quoted(b.host@) + ",\"css\":"@ + json_quoted(b.css@) + ",\"js\":"@ + json_quoted(b.js@) + "}]"@,
        worth_count(seq![a, idle, b]) == 2,
        worth_count(seq![idle]) == 0,
{
    reveal_strlit("[");
    reveal_strlit("]");
    reveal_strlit("[]");
    reveal_strlit(",");
    reveal_strlit("{\"host\":");
    reveal_strlit("[{\"host\":");
    reveal_strlit("},{\"host\":");
    reveal_strlit("}");
    reveal_strlit("}]");
    reveal_with_fuel(boosts_json_from, 4);
    reveal_with_fuel(worth_count, 4);
    assert(boosts_json(Seq::empty()) =~= "[]"@);
    let (one, two, three) = (seq![idle], seq![idle, a], seq![a, idle, b]);
    assert(boosts_json(one) =~= "[]"@);
    assert(two[0] == idle && two[1] == a);
    assert(boosts_json(two) =~= "[{\"host\":"@ + json_quoted(a.host@) + ",\"css\":"@ + json_quoted(a.css@) + ",\"js\":"@ + json_quoted(a.js@) + "}]"@);
    assert(three[0] == a && three[1] == idle && three[2] == b);
    assert(boosts_json(three) =~= "[{\"host\":"@ + json_quoted(a.host@) + ",\"css\":"@ + json_quoted(a.css@) + ",\"js\":"@ + json_quoted(a.js@)
        + "},{\"host\":"@ + json_quoted(b.host@) + ",\"css\":"@ + json_quoted(b.css@) + ",\"js\":"@ + json_quoted(b.js@) + "}]"@);
    assert(one.drop_last() =~= Seq::empty());
    assert(three.drop_last() =~= seq![a, idle]);
    assert(three.drop_last().drop_last() =~= seq![a]);
    assert(three.drop_last().drop_last().drop_last() =~= Seq::empty());
    assert(worth_count(seq![a]) == 1);
    assert(worth_count(seq![a, idle]) == 1) by {
        assert(seq![a, idle].drop_last() =~= seq![a]);
    }
}

/// Zooming takes the nearest preset in its direction, and resetting goes back to a hundred.
pub proof fn zooming_takes_the_nearest_preset(doubled: int, p: int)
    requires
        p == 25 || p == 33 || p == 50 || p == 67 || p == 75 || p == 80 || p == 90 || p == 100 || p == 110 || p == 125 || p == 150 || p == 175 || p == 200
            || p == 250 || p == 300 || p == 400 || p == 500,
    ensures
        doubled < 4 * p - 2 ==> next_zoom(ZoomDirection::In, doubled) <= p,
        doubled > 4 * p + 2 ==> next_zoom(ZoomDirection::Out, doubled) >= p,
        next_zoom(ZoomDirection::Reset, doubled) == 100,
        next_zoom(ZoomDirection::In, 4 * p) > p || p == 500,
        next_zoom(ZoomDirection::Out, 4 * p) < p || p == 25,
{
    let s = zoom_presets();
    assert(s[0] == 25 && s[1] == 33 && s[2] == 50 && s[3] == 67 && s[4] == 75 && s[5] == 80 && s[6] == 90 && s[7] == 100 && s[8] == 110 && s[9] == 125
        && s[10] == 150 && s[11] == 175 && s[12] == 200 && s[13] == 250 && s[14] == 300 && s[15] == 400 && s[16] == 500);
    let k = choose|k: int| 0 <= k < s.len() && s[k] == p;
    if doubled < 4 * p - 2 {
        nothing_nearer_above(doubled, 0, k);
    }
    if doubled > 4 * p + 2 {
        nothing_nearer_below(doubled, 16, k);
    }
    zooming_goes_the_right_way(4 * p);
}

proof fn presets_ascend()
    ensures
        forall|i: int, j: int| 0 <= i <= j < zoom_presets().len() ==> zoom_presets()[i] <= zoom_presets()[j],
{
}

proof fn nothing_nearer_above(doubled: int, i: int, k: int)
    requires
        0 <= i <= k < zoom_presets().len(),
        doubled < 2 * (2 * zoom_presets()[k] - 1),
    ensures
        preset_above(doubled, i) <= zoom_presets()[k],
    decreases k - i,
{
    presets_ascend();
    if i < k {
        nothing_nearer_above(doubled, i + 1, k);
    }
}

proof fn nothing_nearer_below(doubled: int, i: int, k: int)
    requires
        0 <= k <= i < zoom_presets().len(),
        doubled > 2 * (2 * zoom_presets()[k] + 1),
    ensures
        preset_below(doubled, i) >= zoom_presets()[k],
    decreases i - k,
{
    presets_ascend();
    if k < i {
        nothing_nearer_below(doubled, i - 1, k);
    }
}

/// The popups that wait are counted over all openers.
pub proof fn waiting_popups_are_counted(queues: Map<i32, VecDeque<PendingPopup>>, openers: Seq<i32>, i: int)
    ensures
        openers.len() == 0 ==> waiting_popups(queues, openers, i) == 0,
        0 <= i < openers.len() ==> waiting_popups(queues, openers, i) == queues[openers[i]]@.len() + waiting_popups(queues, openers, i + 1),
        waiting_popups(queues, openers, openers.len() as int) == 0,
{
}

/// What a tab looks like from outside is what the registry has of it.
pub proof fn a_tab_is_described_as_it_is(m: Model, sent: Map<i32, String>, tab: u64, seen: TabSeen, s: TabState)
    requires
        looks_like(m, sent, tab, seen, s),
    ensures
        s.tab == tab && s.browser_id == m.tabs[tab].browser_id && s.internal == m.tabs[tab].internal && s.in_peek == m.tabs[tab].in_peek,
        s.has_view <==> m.tabs[tab].view is Some,
        s.view_origin is Some <==> m.tabs[tab].view is Some,
        s.color is Some <==> m.colors.contains_key(tab),
        s.color is Some ==> s.color->0@.len() == 9 && s.color->0@[0] == '#',
        s.url is Some ==> m.tabs[tab].browser_id is Some,
        s.boosts is Some <==> !m.tabs[tab].internal && m.tabs[tab].browser_id is Some && seen.url is Some,
        s.boosts is Some ==> s.boosts->0.count == worth_count(seen.boosts@),
{
    reveal_strlit("#");
    if s.color is Some {
        crate::text::hex_reads_back(m.colors[tab] as nat, 8);
    }
}

/// The widths of the borders and the spaces of the content area.
pub proof fn the_measures_of_the_content_area()
    ensures
        WRAPPER_BORDER == 2,
        SPLIT_SPACING == 6,
{
}

/// An address for another program goes there; any other is loaded by the browser of the tab, where it has one.
pub proof fn an_address_is_loaded_by_the_tabs_browser(m: Model, tab: u64)
    ensures
        load_of(m, tab, true) is External,
        m.tabs.contains_key(tab) && m.tabs[tab].browser_id is Some ==> load_of(m, tab, false) == Load::Page(m.tabs[tab].browser_id->0),
        !m.tabs.contains_key(tab) || m.tabs[tab].browser_id is None ==> load_of(m, tab, false) is Nothing,
{
}

/// A zoom level is reported where it changed, for the first time, and where that is asked for.
pub proof fn a_zoom_that_stays_is_not_reported(m: Model, tab: u64, level: u64)
    ensures
        zoom_is_news(m, tab, level, true),
        !m.zoom.contains_key(tab) ==> zoom_is_news(m, tab, level, false),
        m.zoom.contains_key(tab) ==> (zoom_is_news(m, tab, level, false) <==> m.zoom[tab] != level),
{
}

} // verus!
