//! The main window: where it goes, how its sidebar is placed, its colors, its draggable areas, its
//! reports and how it shuts down.
//!
//! The sidebar is docked in the window, or (while hidden) parked in the floating sidebar. Parking waits
//! until the page has hidden its contents. [`Shell`] is the state; its functions say what has to be
//! done ([`Effect`]).
use crate::counter::{bump, next_number};
use crate::rect::{in_i32, larger, smaller, Rect};
use crate::rounded::ChromeColors;
use crate::text::{hex, hex_text, join2, join3};
use vstd::prelude::*;

verus! {

/// Height of the top bar (DIP).
pub const TOPBAR_HEIGHT: i32 = 40;

/// Content inset from the window edges (DIP).
pub const CONTENT_INSET: i32 = 8;

/// Minimum window size (DIP).
pub const MIN_WIDTH: i32 = 640;

pub const MIN_HEIGHT: i32 = 420;

/// Give up waiting for browsers to close after this long.
pub const SHUTDOWN_TIMEOUT_MS: i64 = 8000;

// ------------------------------------------------------------------------------ state

/// What was last reported of the window.
#[derive(Debug, Clone, Copy, PartialEq, Eq, Structural)]
pub struct Report {
    pub maximized: bool,
    pub fullscreen: bool,
    pub focused: bool,
    pub bounds: Option<Rect>,
}

/// The state of the window.
#[derive(Debug, Clone, Copy, PartialEq, Eq, Structural)]
pub struct Shell {
    pub frame: u32,
    pub accent: u32,
    pub dark: bool,
    /// The theme of the system, as last read.
    pub system_dark: Option<bool>,
    /// The system's "animation effects", as last read.
    pub system_animations: Option<bool>,
    /// How often that setting was read, how often it changed, how many change messages came.
    pub reads: u64,
    pub changes: u64,
    pub messages: u64,
    /// Colors have been applied.
    pub chrome_applied: bool,
    /// The newest colors that wait win.
    pub chrome_gen: u64,
    pub chrome_calls: u64,
    pub chrome_delayed: u64,
    pub sidebar_width: i32,
    /// The sidebar is to be docked.
    pub sidebar_visible: bool,
    /// The sidebar is pinned open in the floating sidebar.
    pub sidebar_floating: bool,
    /// The sidebar is parked in the floating sidebar (else it is in the window).
    pub parked: bool,
    /// A park waits for the page to hide its contents.
    pub park_pending: bool,
    /// Docked only for a panel that holds input (the setting says hidden).
    pub panel_dock: bool,
    pub park_gen: u64,
    pub active: bool,
    pub closing: bool,
    /// The tab in page fullscreen.
    pub page_fullscreen: Option<u64>,
    /// The window was fullscreen already when page fullscreen started.
    pub fullscreen_before_page: bool,
    /// The draggable areas are due to be applied.
    pub regions_pending: bool,
    pub last_report: Option<Report>,
}

/// Distances from the edges.
#[derive(Debug, Clone, Copy, PartialEq, Eq, Structural)]
pub struct Insets {
    pub top: i32,
    pub left: i32,
    pub bottom: i32,
    pub right: i32,
}

/// The docked surfaces.
#[derive(Debug, Clone, Copy, PartialEq, Eq, Structural)]
pub enum Surface {
    Sidebar,
    Topbar,
    Empty,
}

/// What has to be done.
#[derive(Debug, Clone, Copy, PartialEq, Eq, Structural)]
pub enum Effect {
    /// Have the sidebar page hide its contents; when it did, [`on_exit_done`] with this number is due.
    BeginExit { generation: u64 },
    /// The sidebar page need not hide its contents any more.
    CancelExit,
    /// Tell the sidebar page that its contents are on screen.
    EmitContents,
    /// Take the sidebar out of the window.
    RemoveSidebar,
    /// Put the sidebar into the floating sidebar.
    AdoptSidebar,
    /// Give the focus back to the main content, later.
    RestoreFocusLater,
    /// The sidebar was parked (after a panel).
    Parked { after_panel: bool },
    /// Take the sidebar out of the floating sidebar.
    ReleaseSidebar,
    /// Put the sidebar into the window, first.
    AddSidebar,
    /// The sidebar was docked.
    Docked,
    /// Give the sidebar the focus, later.
    FocusSidebarLater,
    ShowSidebar { visible: bool },
    InvalidateSidebar,
    /// Lay out the content frame with these insets.
    RelayoutFrame { insets: Insets },
    LayoutWindow,
    LayoutOverlays,
    LayoutMasks,
    /// Apply the draggable areas later.
    ApplyRegionsLater,
    /// Look at the floating sidebar again.
    RefreshHover,
    /// The floating sidebar is pinned open, or not.
    SetPinned { pinned: bool },
    ShowTopbar { visible: bool },
    /// Show a tab in page fullscreen, or the content again.
    FillContent { tab: Option<u64> },
    SetFullscreen { on: bool },
    Minimize,
    Maximize,
    Restore,
    /// Leave the page fullscreen of this tab.
    ExitPageFullscreen { tab: u64 },
    /// Ask for the window to be closed.
    RequestClose,
    /// Save everything and begin the shutdown, later.
    ShutDownLater,
    /// Close the window, later.
    CloseWindowLater,
    CancelDownloads,
    CloseTools,
    CloseExtensionPopup,
    CloseExtensionBackend,
    CloseForeign,
    /// Leave the process if the window is still there after this long.
    ExitLater { after_ms: i64 },
    /// Close every browser.
    CloseBrowsers,
}

/// What the window needs to know about what is around it.
#[derive(Debug, Clone, Copy, PartialEq, Eq, Structural)]
pub struct Around {
    /// The window and the sidebar exist.
    pub views: bool,
    /// The sidebar page can be told to hide its contents.
    pub ready: bool,
    pub minimized: bool,
    /// The pointer is where the floating sidebar would stay open.
    pub pointer_in_keep_zone: bool,
    /// The sidebar has the focus.
    pub had_focus: bool,
    /// The floating sidebar is on screen.
    pub floating_visible: bool,
    /// The setting says that the sidebar is hidden.
    pub hidden_by_setting: bool,
    /// A panel of the sidebar holds input.
    pub panel_wants_keys: bool,
}

impl Shell {
    /// At startup.
    pub fn new(sidebar_width: i32) -> (r: Shell)
        ensures
            r == Shell::resting(sidebar_width),
    {
        Shell {
            frame: 0xFF26_222E,
            accent: 0xFF7B_5CD6,
            dark: false,
            system_dark: None,
            system_animations: None,
            reads: 0,
            changes: 0,
            messages: 0,
            chrome_applied: false,
            chrome_gen: 0,
            chrome_calls: 0,
            chrome_delayed: 0,
            sidebar_width,
            sidebar_visible: true,
            sidebar_floating: false,
            parked: false,
            park_pending: false,
            panel_dock: false,
            park_gen: 0,
            active: false,
            closing: false,
            page_fullscreen: None,
            fullscreen_before_page: false,
            regions_pending: false,
            last_report: None,
        }
    }

    /// At startup.
    pub open spec fn resting(sidebar_width: i32) -> Shell {
        Shell {
            frame: 0xFF26_222E,
            accent: 0xFF7B_5CD6,
            dark: false,
            system_dark: None,
            system_animations: None,
            reads: 0,
            changes: 0,
            messages: 0,
            chrome_applied: false,
            chrome_gen: 0,
            chrome_calls: 0,
            chrome_delayed: 0,
            sidebar_width,
            sidebar_visible: true,
            sidebar_floating: false,
            parked: false,
            park_pending: false,
            panel_dock: false,
            park_gen: 0,
            active: false,
            closing: false,
            page_fullscreen: None,
            fullscreen_before_page: false,
            regions_pending: false,
            last_report: None,
        }
    }

    /// The docked sidebar is shown.
    pub open spec fn shown(self) -> bool {
        !self.parked && self.page_fullscreen is None
    }

    /// The insets of the content frame.
    pub open spec fn insets(self) -> Insets {
        if self.page_fullscreen is Some {
            Insets { top: 0, left: 0, bottom: 0, right: 0 }
        } else {
            Insets { top: 0, left: if self.parked { CONTENT_INSET } else { 0 }, bottom: CONTENT_INSET, right: CONTENT_INSET }
        }
    }

    /// The sidebar is parked.
    pub open spec fn park(self, a: Around) -> (Shell, Seq<Effect>) {
        (
            Shell { panel_dock: false, parked: true, ..self },
            seq![Effect::RemoveSidebar, Effect::AdoptSidebar] + (if a.had_focus {
                seq![Effect::RestoreFocusLater]
            } else {
                Seq::empty()
            }) + seq![(Effect::Parked { after_panel: self.panel_dock })],
        )
    }

    /// The sidebar is docked.
    pub open spec fn dock(self, a: Around) -> (Shell, Seq<Effect>) {
        (
            Shell { parked: false, panel_dock: a.hidden_by_setting, ..self },
            seq![Effect::ReleaseSidebar, Effect::AddSidebar, Effect::Docked, Effect::EmitContents] + (if a.floating_visible
                && a.panel_wants_keys {
                seq![Effect::FocusSidebarLater]
            } else {
                Seq::empty()
            }),
        )
    }

    /// A park waits until the page has hidden its contents.
    pub open spec fn may_fade(self, a: Around) -> bool {
        self.shown() && a.ready && !self.closing && !a.minimized && !(self.panel_dock && a.pointer_in_keep_zone)
    }

    /// Placement and visibility of the sidebar.
    #[verifier::opaque]
    pub open spec fn placed(self, a: Around, allow_fade: bool) -> (Shell, Seq<Effect>) {
        if !a.views {
            (self, Seq::empty())
        } else {
            let want_parked = !self.sidebar_visible;
            let one = if want_parked && !self.parked {
                if self.park_pending {
                    (self, Seq::empty())
                } else if allow_fade && self.may_fade(a) {
                    (
                        Shell { park_pending: true, park_gen: next_number(self.park_gen), ..self },
                        seq![(Effect::BeginExit { generation: next_number(self.park_gen) })],
                    )
                } else {
                    self.park(a)
                }
            } else if !want_parked && self.parked {
                self.dock(a)
            } else if !want_parked && self.park_pending {
                (
                    Shell { park_pending: false, park_gen: next_number(self.park_gen), ..self },
                    seq![Effect::CancelExit, Effect::EmitContents],
                )
            } else {
                (self, Seq::empty())
            };
            (one.0, one.1.push((Effect::ShowSidebar { visible: one.0.parked || one.0.shown() })))
        }
    }

    /// The draggable areas are due.
    pub open spec fn scheduled(self) -> (Shell, Seq<Effect>) {
        if self.regions_pending {
            (self, Seq::empty())
        } else {
            (Shell { regions_pending: true, ..self }, seq![Effect::ApplyRegionsLater])
        }
    }

    /// The sidebar is placed, and the window laid out.
    pub open spec fn arranged(self, a: Around, allow_fade: bool) -> (Shell, Seq<Effect>) {
        let one = self.placed(a, allow_fade);
        if !a.views {
            one
        } else {
            let two = one.0.scheduled();
            (two.0, one.1 + seq![
                Effect::InvalidateSidebar,
                (Effect::RelayoutFrame { insets: one.0.insets() }),
                Effect::LayoutWindow,
                Effect::LayoutOverlays,
            ] + two.1 + seq![Effect::RefreshHover])
        }
    }

    /// Page fullscreen begins, moves to another tab or ends. `fullscreen`: the window is fullscreen.
    pub open spec fn page_filled(self, a: Around, window: bool, fullscreen: bool, tab: Option<u64>) -> (Shell, Seq<Effect>) {
        if !window || self.page_fullscreen == tab {
            (self, Seq::empty())
        } else {
            let before = if self.page_fullscreen is None { fullscreen } else { self.fullscreen_before_page };
            let m = Shell { page_fullscreen: tab, fullscreen_before_page: before, ..self };
            let one = m.placed(a, true);
            let two = one.0.scheduled();
            (two.0, one.1 + around_content(a, tab, one.0.insets()) + window_filled(tab, before, fullscreen) + seq![
                Effect::LayoutWindow,
                Effect::LayoutMasks,
                Effect::LayoutOverlays,
            ] + two.1 + seq![Effect::RefreshHover])
        }
    }
}

/// What surrounds the content goes or comes back.
pub open spec fn around_content(a: Around, tab: Option<u64>, insets: Insets) -> Seq<Effect> {
    (if a.views { seq![Effect::InvalidateSidebar] } else { Seq::empty() }) + seq![
        (Effect::ShowTopbar { visible: tab is None }),
        (Effect::FillContent { tab }),
        (Effect::RelayoutFrame { insets }),
    ]
}

/// The window becomes fullscreen for a tab, or no longer is, if it was not before.
pub open spec fn window_filled(tab: Option<u64>, before: bool, fullscreen: bool) -> Seq<Effect> {
    if tab is Some && !fullscreen {
        seq![(Effect::SetFullscreen { on: true })]
    } else if tab is None && !before && fullscreen {
        seq![(Effect::SetFullscreen { on: false })]
    } else {
        Seq::empty()
    }
}

// ------------------------------------------------------------------------------ geometry

/// Half of a number, towards zero.
pub open spec fn halved(n: int) -> int {
    if n >= 0 { n / 2 } else { -((-n) / 2) }
}

fn min64(a: i64, b: i64) -> (r: i64)
    ensures
        r == smaller(a as int, b as int),
{
    if a < b { a } else { b }
}

fn max64(a: i64, b: i64) -> (r: i64)
    ensures
        r == larger(a as int, b as int),
{
    if a > b { a } else { b }
}

/// The width of the sidebar within its limits.
pub fn clamp_sidebar_width(width: u32, limits: Limits) -> (r: i32)
    requires
        limits.valid(),
    ensures
        r == limits.clamped(width),
{
    if width < limits.min {
        limits.min as i32
    } else if width > limits.max {
        limits.max as i32
    } else {
        width as i32
    }
}

/// The limits of the width of the sidebar.
#[derive(Debug, Clone, Copy, PartialEq, Eq, Structural)]
pub struct Limits {
    pub min: u32,
    pub max: u32,
}

impl Limits {
    /// There is a width within them.
    pub open spec fn valid(self) -> bool {
        self.min <= self.max <= i32::MAX
    }

    /// A width brought within them.
    pub open spec fn clamped(self, width: u32) -> int {
        if width < self.min {
            self.min as int
        } else if width > self.max {
            self.max as int
        } else {
            width as int
        }
    }
}

/// A rectangle moved and shrunk into a work area.
pub open spec fn clamped_side(at: int, size: int, area: int, area_size: int, smallest: int) -> (int, int) {
    let fit = smaller(larger(size, smallest), larger(area_size, 1));
    (larger(smaller(at, area + area_size - fit), area), fit)
}

/// Shrinks `r` to fit the work area (but not below the minimum size, unless the area is smaller) and
/// moves it inside.
pub fn clamp_to_work_area(r: Rect, wa: Rect) -> (out: Rect)
    ensures
        (out.x as int, out.width as int) == clamped_side(r.x as int, r.width as int, wa.x as int, wa.width as int, MIN_WIDTH as int),
        (out.y as int, out.height as int) == clamped_side(r.y as int, r.height as int, wa.y as int, wa.height as int, MIN_HEIGHT as int),
{
    let width: i64 = min64(max64(r.width as i64, MIN_WIDTH as i64), max64(wa.width as i64, 1));
    let height: i64 = min64(max64(r.height as i64, MIN_HEIGHT as i64), max64(wa.height as i64, 1));
    let x: i64 = max64(min64(r.x as i64, wa.x as i64 + wa.width as i64 - width), wa.x as i64);
    let y: i64 = max64(min64(r.y as i64, wa.y as i64 + wa.height as i64 - height), wa.y as i64);
    Rect { x: x as i32, y: y as i32, width: width as i32, height: height as i32 }
}

/// A side of the default window: a preferred size, with a margin, centered.
pub open spec fn centered_side(area: int, area_size: int, preferred: int, margin: int, smallest: int) -> (int, int) {
    let size = larger(smaller(preferred, area_size - margin), smallest);
    (area + halved(area_size - size), size)
}

/// The work area of the screen, where none is known.
pub open spec fn default_area() -> Rect {
    Rect { x: 0, y: 0, width: 1920, height: 1040 }
}

fn half64(n: i64) -> (r: i64)
    requires
        -0x1_0000_0000_0000 < n < 0x1_0000_0000_0000,
    ensures
        r == halved(n as int),
{
    if n >= 0 { n / 2 } else { -((-n) / 2) }
}

/// Where the window opens: where it was saved, within the work area of the screen that matches, else
/// in the middle of the primary screen.
pub fn initial_bounds(saved: Option<Rect>, matching: Option<Rect>, primary: Option<Rect>) -> (r: Rect)
    requires
        saved is Some && saved->0.width > 0 && saved->0.height > 0 && matching is Some || ({
            let wa = match primary {
                Some(wa) => wa,
                None => default_area(),
            };
            &&& in_i32(centered_side(wa.x as int, wa.width as int, 1280, 80, MIN_WIDTH as int).0)
            &&& in_i32(centered_side(wa.y as int, wa.height as int, 820, 60, MIN_HEIGHT as int).0)
        }),
    ensures
        ({
            let wa = match primary {
                Some(wa) => wa,
                None => default_area(),
            };
            if saved is Some && saved->0.width > 0 && saved->0.height > 0 && matching is Some {
                let s = saved->0;
                let m = matching->0;
                &&& (r.x as int, r.width as int) == clamped_side(s.x as int, s.width as int, m.x as int, m.width as int, MIN_WIDTH as int)
                &&& (r.y as int, r.height as int) == clamped_side(s.y as int, s.height as int, m.y as int, m.height as int, MIN_HEIGHT as int)
            } else {
                &&& (r.x as int, r.width as int) == centered_side(wa.x as int, wa.width as int, 1280, 80, MIN_WIDTH as int)
                &&& (r.y as int, r.height as int) == centered_side(wa.y as int, wa.height as int, 820, 60, MIN_HEIGHT as int)
            }
        }),
{
    match (saved, matching) {
        (Some(s), Some(m)) => {
            if s.width > 0 && s.height > 0 {
                return clamp_to_work_area(s, m);
            }
        },
        _ => {},
    }
    let wa: Rect = match primary {
        Some(wa) => wa,
        None => Rect { x: 0, y: 0, width: 1920, height: 1040 },
    };
    let width: i64 = max64(min64(1280, wa.width as i64 - 80), MIN_WIDTH as i64);
    let height: i64 = max64(min64(820, wa.height as i64 - 60), MIN_HEIGHT as i64);
    let x: i64 = wa.x as i64 + half64(wa.width as i64 - width);
    let y: i64 = wa.y as i64 + half64(wa.height as i64 - height);
    Rect { x: x as i32, y: y as i32, width: width as i32, height: height as i32 }
}

/// A window that is moved into a work area lies inside it, and has the minimum size where there is
/// room for it.
pub proof fn a_clamped_window_lies_inside(at: int, size: int, area: int, area_size: int, smallest: int)
    requires
        area_size >= 1,
        smallest >= 1,
    ensures
        ({
            let side = clamped_side(at, size, area, area_size, smallest);
            &&& area <= side.0
            &&& side.0 + side.1 <= area + area_size
            &&& side.1 >= smaller(smallest, area_size)
        }),
{
}

/// A window that fits is left where it is.
pub proof fn a_window_that_fits_stays(at: int, size: int, area: int, area_size: int, smallest: int)
    requires
        smallest <= size,
        area <= at,
        at + size <= area + area_size,
        area_size >= 1,
    ensures
        clamped_side(at, size, area, area_size, smallest) == (at, size),
{
}

/// A view above another one.
#[derive(Debug, Clone, Copy, PartialEq, Eq, Structural)]
pub struct Ancestor {
    pub bounds: Rect,
    pub is_window: bool,
}

/// A view and what is above it, from its parent up.
pub struct Chain {
    pub attached: bool,
    pub is_window: bool,
    pub bounds: Rect,
    pub above: Vec<Ancestor>,
    /// Where the topmost view lies in the window, if it is the contents of an overlay.
    pub root_origin: Option<(i32, i32)>,
}

/// How far the views above from position `i` on move a view: up to the window, or to the topmost view,
/// whose own bounds do not count.
pub open spec fn moved_by(above: Seq<Ancestor>, root_origin: Option<(i32, i32)>, i: int) -> (int, int)
    decreases above.len() - i,
{
    if i < 0 || i >= above.len() {
        match root_origin {
            Some(o) => (o.0 as int, o.1 as int),
            None => (0, 0),
        }
    } else if above[i].is_window {
        (0, 0)
    } else {
        let rest = moved_by(above, root_origin, i + 1);
        if i + 1 < above.len() {
            (above[i].bounds.x + rest.0, above[i].bounds.y + rest.1)
        } else {
            rest
        }
    }
}

/// Where a view lies in the window.
pub open spec fn origin_in_window(c: Chain) -> (int, int) {
    if c.is_window {
        (0, 0)
    } else if c.above@.len() == 0 {
        match c.root_origin {
            Some(o) => (o.0 as int, o.1 as int),
            None => (c.bounds.x as int, c.bounds.y as int),
        }
    } else {
        let by = moved_by(c.above@, c.root_origin, 0);
        (c.bounds.x + by.0, c.bounds.y + by.1)
    }
}

/// Where an attached view lies in the window: the bounds of the views above it added up, up to the
/// window. The contents of an overlay have no window above them; the overlay's place counts instead.
pub fn view_rect_in_window(c: &Chain) -> (r: Option<Rect>)
    requires
        in_i32(origin_in_window(*c).0),
        in_i32(origin_in_window(*c).1),
    ensures
        !c.attached ==> r is None,
        c.attached ==> r is Some && (r->0.x as int, r->0.y as int) == origin_in_window(*c) && r->0.width == c.bounds.width && r->0.height
            == c.bounds.height,
{
    if !c.attached {
        return None;
    }
    let width: i32 = c.bounds.width;
    let height: i32 = c.bounds.height;
    if c.is_window {
        return Some(Rect { x: 0, y: 0, width, height });
    }
    let total: usize = c.above.len();
    if total == 0 {
        return Some(
            match c.root_origin {
                Some(o) => Rect { x: o.0, y: o.1, width, height },
                None => Rect { x: c.bounds.x, y: c.bounds.y, width, height },
            },
        );
    }
    let mut x: i128 = c.bounds.x as i128;
    let mut y: i128 = c.bounds.y as i128;
    let mut i: usize = 0;
    while i < c.above.len() && !c.above[i].is_window
        invariant
            i <= c.above@.len() <= usize::MAX,
            origin_in_window(*c) == (x + moved_by(c.above@, c.root_origin, i as int).0, y + moved_by(c.above@, c.root_origin, i as int).1),
            -0x8000_0000 * (i + 1) <= x <= 0x8000_0000 * (i + 1),
            -0x8000_0000 * (i + 1) <= y <= 0x8000_0000 * (i + 1),
        decreases c.above@.len() - i,
    {
        if i + 1 < c.above.len() {
            x = x + c.above[i].bounds.x as i128;
            y = y + c.above[i].bounds.y as i128;
        }
        i = i + 1;
    }
    if i == c.above.len() {
        match c.root_origin {
            Some(o) => {
                x = x + o.0 as i128;
                y = y + o.1 as i128;
            },
            None => {},
        }
    }
    Some(Rect { x: x as i32, y: y as i32, width, height })
}

// ------------------------------------------------------------------------------ the sidebar

/// The insets of the content frame: none in page fullscreen, and one on the left while the sidebar is
/// parked.
pub fn content_insets(state: &Shell) -> (r: Insets)
    ensures
        r == state.insets(),
{
    if state.page_fullscreen.is_some() {
        return Insets { top: 0, left: 0, bottom: 0, right: 0 };
    }
    let left: i32 = if state.parked { CONTENT_INSET } else { 0 };
    Insets { top: 0, left, bottom: CONTENT_INSET, right: CONTENT_INSET }
}

/// The docked sidebar is shown.
pub fn sidebar_shown(state: &Shell) -> (r: bool)
    ensures
        r == state.shown(),
{
    !state.parked && state.page_fullscreen.is_none()
}

/// The sidebar page is on screen: docked and shown, or floating and revealed.
pub fn sidebar_on_screen(state: &Shell, floating_visible: bool) -> (r: bool)
    ensures
        r == (if state.parked { floating_visible } else { state.shown() }),
{
    if state.parked { floating_visible } else { sidebar_shown(state) }
}

/// Whether the sidebar is to be docked, and its width.
pub fn sidebar_state(state: &Shell) -> (r: (bool, i32))
    ensures
        r == (state.sidebar_visible, state.sidebar_width),
{
    (state.sidebar_visible, state.sidebar_width)
}

/// Moves the sidebar from the window into the floating sidebar (hidden).
fn park(state: &mut Shell, a: &Around, out: &mut Vec<Effect>)
    ensures
        *final(state) == old(state).park(*a).0,
        final(out)@ == old(out)@ + old(state).park(*a).1,
{
    let after_panel = state.panel_dock;
    state.panel_dock = false;
    out.push(Effect::RemoveSidebar);
    state.parked = true;
    out.push(Effect::AdoptSidebar);
    if a.had_focus {
        // The floating sidebar never holds keyboard focus.
        out.push(Effect::RestoreFocusLater);
    }
    out.push(Effect::Parked { after_panel });
    proof {
        assert(out@ =~= old(out)@ + old(state).park(*a).1);
    }
}

/// Moves the parked sidebar back into the window.
fn dock(state: &mut Shell, a: &Around, out: &mut Vec<Effect>)
    ensures
        *final(state) == old(state).dock(*a).0,
        final(out)@ == old(out)@ + old(state).dock(*a).1,
{
    out.push(Effect::ReleaseSidebar);
    out.push(Effect::AddSidebar);
    state.parked = false;
    state.panel_dock = a.hidden_by_setting;
    out.push(Effect::Docked);
    out.push(Effect::EmitContents);
    // Docked for a panel that holds input: the user is working in the sidebar, so it takes the focus.
    if a.floating_visible && a.panel_wants_keys {
        out.push(Effect::FocusSidebarLater);
    }
    proof {
        assert(out@ =~= old(out)@ + old(state).dock(*a).1);
    }
}

/// Placement and visibility of the sidebar.
pub fn place_sidebar(state: &mut Shell, a: &Around, allow_fade: bool, out: &mut Vec<Effect>)
    ensures
        *final(state) == old(state).placed(*a, allow_fade).0,
        final(out)@ == old(out)@ + old(state).placed(*a, allow_fade).1,
{
    proof {
        reveal(Shell::placed);
    }
    if !a.views {
        proof {
            assert(out@ =~= old(out)@ + Seq::<Effect>::empty());
        }
        return;
    }
    let want_parked = !state.sidebar_visible;
    if want_parked && !state.parked {
        if state.park_pending {
            // The fade that is running parks it.
        } else if allow_fade && sidebar_shown(state) && a.ready && !state.closing && !a.minimized && !(state.panel_dock
            && a.pointer_in_keep_zone) {
            // The page hides its contents first: the parked page renders no frames, and the first
            // reveal would otherwise show the docked frame for a moment.
            state.park_pending = true;
            state.park_gen = bump(state.park_gen);
            out.push(Effect::BeginExit { generation: state.park_gen });
        } else {
            park(state, a, out);
        }
    } else if !want_parked && state.parked {
        dock(state, a, out);
    } else if !want_parked && state.park_pending {
        // Docked again before the fade ended.
        state.park_pending = false;
        state.park_gen = bump(state.park_gen);
        out.push(Effect::CancelExit);
        out.push(Effect::EmitContents);
    }
    out.push(Effect::ShowSidebar { visible: state.parked || sidebar_shown(state) });
    proof {
        assert(out@ =~= old(out)@ + old(state).placed(*a, allow_fade).1);
    }
}

/// Places the sidebar (docked or parked), sets its visibility and lays out the window.
pub fn apply_sidebar_placement(state: &mut Shell, a: &Around, allow_fade: bool, out: &mut Vec<Effect>)
    ensures
        *final(state) == old(state).arranged(*a, allow_fade).0,
        final(out)@ == old(out)@ + old(state).arranged(*a, allow_fade).1,
{
    place_sidebar(state, a, allow_fade, out);
    if !a.views {
        return;
    }
    out.push(Effect::InvalidateSidebar);
    out.push(Effect::RelayoutFrame { insets: content_insets(state) });
    out.push(Effect::LayoutWindow);
    out.push(Effect::LayoutOverlays);
    schedule_draggable_regions(state, out);
    out.push(Effect::RefreshHover);
    proof {
        assert(out@ =~= old(out)@ + old(state).arranged(*a, allow_fade).1);
    }
}

/// The sidebar is to be docked or not, and pinned open in the floating sidebar or not. Its width is
/// brought within the limits.
pub fn set_sidebar(state: &mut Shell, a: &Around, visible: bool, width: u32, limits: Limits, floating: bool) -> (r: Vec<Effect>)
    requires
        limits.valid(),
    ensures
        ({
            let m = Shell {
                sidebar_visible: visible,
                sidebar_floating: floating,
                sidebar_width: limits.clamped(width) as i32,
                ..*old(state)
            };
            let one = m.arranged(*a, true);
            *final(state) == one.0 && r@ == one.1.push((Effect::SetPinned { pinned: floating }))
        }),
{
    let mut out: Vec<Effect> = Vec::new();
    state.sidebar_visible = visible;
    state.sidebar_floating = floating;
    state.sidebar_width = clamp_sidebar_width(width, limits);
    let ghost m = *state;
    apply_sidebar_placement(state, a, true, &mut out);
    out.push(Effect::SetPinned { pinned: floating });
    proof {
        assert(out@ =~= m.arranged(*a, true).1.push((Effect::SetPinned { pinned: floating })));
    }
    out
}

/// The sidebar was toggled: it is no longer docked only for a panel.
pub fn note_sidebar_toggled(state: &mut Shell)
    ensures
        *final(state) == (Shell { panel_dock: false, ..*old(state) }),
{
    state.panel_dock = false;
}

/// The page has hidden its contents for park number `generation`.
pub fn on_exit_done(state: &mut Shell, a: &Around, generation: u64) -> (r: Vec<Effect>)
    ensures
        if old(state).park_gen == generation && old(state).park_pending {
            (*final(state), r@) == (Shell { park_pending: false, ..*old(state) }).arranged(*a, false)
        } else {
            *final(state) == *old(state) && r@.len() == 0
        },
{
    let mut out: Vec<Effect> = Vec::new();
    if state.park_gen == generation && state.park_pending {
        state.park_pending = false;
        let ghost m = *state;
        apply_sidebar_placement(state, a, false, &mut out);
        proof {
            assert(out@ =~= m.arranged(*a, false).1);
        }
    }
    out
}

/// The sidebar is resized live, within the limits of its width.
pub fn set_sidebar_width_live(state: &mut Shell, width: u32, limits: Limits) -> (r: Vec<Effect>)
    requires
        limits.valid(),
    ensures
        ({
            let m = Shell { sidebar_width: limits.clamped(width) as i32, ..*old(state) };
            &&& *final(state) == m.scheduled().0
            &&& r@ == seq![Effect::InvalidateSidebar, Effect::LayoutWindow] + (if m.parked {
                seq![Effect::LayoutOverlays]
            } else {
                Seq::empty()
            }) + m.scheduled().1
        }),
{
    let mut out: Vec<Effect> = Vec::new();
    state.sidebar_width = clamp_sidebar_width(width, limits);
    let ghost m = *state;
    out.push(Effect::InvalidateSidebar);
    out.push(Effect::LayoutWindow);
    if state.parked {
        out.push(Effect::LayoutOverlays);
    }
    schedule_draggable_regions(state, &mut out);
    proof {
        assert(out@ =~= seq![Effect::InvalidateSidebar, Effect::LayoutWindow] + (if m.parked {
            seq![Effect::LayoutOverlays]
        } else {
            Seq::empty()
        }) + m.scheduled().1);
    }
    out
}

/// At startup: what the saved state says of the sidebar. Its width is brought within the limits.
pub fn restore_sidebar(state: &mut Shell, visible: bool, width: u32, limits: Limits)
    requires
        limits.valid(),
    ensures
        *final(state) == (Shell {
            sidebar_visible: visible,
            parked: !visible,
            sidebar_width: limits.clamped(width) as i32,
            ..*old(state)
        }),
{
    state.sidebar_visible = visible;
    state.parked = !visible;
    state.sidebar_width = clamp_sidebar_width(width, limits);
}

/// Wherever the sidebar was, placing it without a fade puts it where it is wanted; and with one, it is
/// there or a park waits.
pub proof fn the_sidebar_goes_where_it_is_wanted(m: Shell, a: Around)
    requires
        a.views,
    ensures
        m.sidebar_visible ==> !m.placed(a, true).0.parked,
        !m.sidebar_visible ==> m.placed(a, true).0.parked || m.placed(a, true).0.park_pending,
        !m.sidebar_visible && !m.park_pending ==> m.placed(a, false).0.parked,
{
    reveal(Shell::placed);
}

/// A park that waited is done when the page has hidden its contents, unless the sidebar is wanted again
/// by then; then the number has moved on and nothing happens.
pub proof fn a_pending_park_is_done_or_called_off(m: Shell, a: Around)
    requires
        a.views,
        !m.parked,
        m.park_pending,
    ensures
        !m.sidebar_visible ==> (Shell { park_pending: false, ..m }).placed(a, false).0.parked,
        m.sidebar_visible ==> {
            let off = m.placed(a, true).0;
            !off.park_pending && off.park_gen == next_number(m.park_gen) && !off.parked
        },
{
    reveal(Shell::placed);
}

// ------------------------------------------------------------------------------ system settings

/// The theme of the system was read: whether it changed.
pub fn check_system_theme(state: &mut Shell, dark: bool) -> (r: bool)
    ensures
        r == (old(state).system_dark != Some(dark)),
        *final(state) == (Shell { system_dark: Some(dark), ..*old(state) }),
{
    let changed = match state.system_dark {
        Some(d) => d != dark,
        None => true,
    };
    state.system_dark = Some(dark);
    changed
}

/// The theme of the system at startup.
pub fn init_system_dark(state: &mut Shell, dark: bool)
    ensures
        *final(state) == (Shell { system_dark: Some(dark), ..*old(state) }),
{
    state.system_dark = Some(dark);
}

/// The animation setting of the system at startup.
pub fn init_system_animations(state: &mut Shell, enabled: bool)
    ensures
        *final(state) == (Shell { system_animations: Some(enabled), reads: 1, changes: 0, messages: 0, ..*old(state) }),
{
    state.system_animations = Some(enabled);
    state.reads = 1;
    state.changes = 0;
    state.messages = 0;
}

/// A setting changed; the animation setting is to be read later.
pub fn on_setting_change(state: &mut Shell)
    ensures
        *final(state) == (Shell { messages: next_number(old(state).messages), ..*old(state) }),
{
    state.messages = bump(state.messages);
}

/// The animation setting of the system was read: whether it changed.
pub fn check_system_animations(state: &mut Shell, enabled: bool) -> (r: bool)
    ensures
        r == (old(state).system_animations != Some(enabled)),
        *final(state) == (Shell {
            system_animations: Some(enabled),
            reads: next_number(old(state).reads),
            changes: if r { next_number(old(state).changes) } else { old(state).changes },
            ..*old(state)
        }),
{
    let changed = match state.system_animations {
        Some(e) => e != enabled,
        None => true,
    };
    state.system_animations = Some(enabled);
    state.reads = bump(state.reads);
    if changed {
        state.changes = bump(state.changes);
    }
    changed
}

// ------------------------------------------------------------------------------ colors

/// When colors are applied.
#[derive(Debug, Clone, Copy, PartialEq, Eq, Structural)]
pub enum When {
    Now,
    /// After this long, if [`chrome_due`] says so for this number.
    Later { after_ms: i64, generation: u64 },
}

/// New colors came: at once, or in the middle of the fade that the pages play. There is no fade to meet
/// at the first call, in a minimized or closing window, or where the fade is switched off.
pub fn set_chrome(state: &mut Shell, delay_ms: i64, window: bool, minimized: bool) -> (r: When)
    ensures
        ({
            let now = delay_ms == 0 || !old(state).chrome_applied || !window || minimized || old(state).closing;
            let m = Shell { chrome_applied: true, chrome_calls: next_number(old(state).chrome_calls), ..*old(state) };
            if now {
                r == When::Now && *final(state) == m
            } else {
                &&& r == (When::Later { after_ms: delay_ms, generation: next_number(old(state).chrome_gen) })
                &&& *final(state) == (Shell {
                    chrome_delayed: next_number(m.chrome_delayed),
                    chrome_gen: next_number(m.chrome_gen),
                    ..m
                })
            }
        }),
{
    let first = !state.chrome_applied;
    state.chrome_applied = true;
    let hidden = !window || minimized || state.closing;
    state.chrome_calls = bump(state.chrome_calls);
    if delay_ms == 0 || first || hidden {
        return When::Now;
    }
    state.chrome_delayed = bump(state.chrome_delayed);
    state.chrome_gen = bump(state.chrome_gen);
    When::Later { after_ms: delay_ms, generation: state.chrome_gen }
}

/// Colors that waited are applied: the newest ones, unless the window is closing.
pub fn chrome_due(state: &Shell, generation: u64) -> (r: bool)
    ensures
        r == (state.chrome_gen == generation && !state.closing),
{
    state.chrome_gen == generation && !state.closing
}

/// The colors of the cards: accent, surface, border and the border towards the frame.
#[derive(Debug, Clone, Copy, PartialEq, Eq, Structural)]
pub struct CardColors {
    pub accent: u32,
    pub surface: u32,
    pub border: u32,
    pub frame_border: u32,
}

/// A color that was sent, made opaque, or the one that the theme gives.
pub open spec fn picked(sent: u32, derived: u32) -> u32 {
    if sent != 0 { sent | 0xFF00_0000 } else { derived }
}

fn pick(sent: u32, derived: u32) -> (r: u32)
    ensures
        r == picked(sent, derived),
{
    if sent != 0 { sent | 0xFF00_0000 } else { derived }
}

/// The theme's colors are needed: a color was not sent.
pub fn needs_theme(card: CardColors) -> (r: bool)
    ensures
        r == (card.accent == 0 || card.surface == 0 || card.border == 0 || card.frame_border == 0),
{
    card.accent == 0 || card.surface == 0 || card.border == 0 || card.frame_border == 0
}

/// Applies colors. `theme`: the colors that the theme gives, for those that were not sent. Returns the
/// colors and whether dark mode changed.
pub fn apply_chrome(state: &mut Shell, frame_argb: u32, dark: bool, card: CardColors, theme: CardColors) -> (r: (ChromeColors, bool))
    ensures
        r.0 == (ChromeColors {
            frame: frame_argb | 0xFF00_0000,
            accent: picked(card.accent, theme.accent),
            surface: picked(card.surface, theme.surface),
            border: picked(card.border, theme.border),
            frame_border: picked(card.frame_border, theme.frame_border),
            dark,
        }),
        r.1 == (old(state).dark != dark),
        *final(state) == (Shell { frame: r.0.frame, dark, accent: r.0.accent, ..*old(state) }),
{
    let frame: u32 = frame_argb | 0xFF00_0000;
    state.frame = frame;
    let changed = state.dark != dark;
    state.dark = dark;
    let colors = ChromeColors {
        frame,
        accent: pick(card.accent, theme.accent),
        surface: pick(card.surface, theme.surface),
        border: pick(card.border, theme.border),
        frame_border: pick(card.frame_border, theme.frame_border),
        dark,
    };
    state.accent = colors.accent;
    (colors, changed)
}

/// The newest colors win: of two runs of delayed colors only the number of the later one is due.
pub proof fn the_newest_colors_win(m: Shell)
    ensures
        next_number(next_number(m.chrome_gen)) != next_number(m.chrome_gen),
{
}

// ------------------------------------------------------------------------------ fullscreen and actions

/// Page fullscreen: the sidebar, the top bar and the content insets go and the window becomes
/// fullscreen for `Some(tab)`; the previous state comes back for `None`.
pub fn set_page_fullscreen(state: &mut Shell, a: &Around, window: bool, fullscreen: bool, tab: Option<u64>) -> (r: Vec<Effect>)
    ensures
        (*final(state), r@) == old(state).page_filled(*a, window, fullscreen, tab),
{
    let mut out: Vec<Effect> = Vec::new();
    let same = match (state.page_fullscreen, tab) {
        (Some(x), Some(y)) => x == y,
        (None, None) => true,
        _ => false,
    };
    if !window || same {
        return out;
    }
    if state.page_fullscreen.is_none() {
        state.fullscreen_before_page = fullscreen;
    }
    state.page_fullscreen = tab;
    let ghost m = *state;
    place_sidebar(state, a, true, &mut out);
    let ghost one = m.placed(*a, true);
    proof {
        placing_keeps(m, *a, true);
    }
    push_around(a, tab, content_insets(state), &mut out);
    push_filled(tab, state.fullscreen_before_page, fullscreen, &mut out);
    let ghost head = out@;
    proof {
        assert(head =~= one.1 + around_content(*a, tab, one.0.insets()) + window_filled(tab, m.fullscreen_before_page, fullscreen));
    }
    push_layout(state, &mut out);
    proof {
        assert(out@ =~= old(state).page_filled(*a, window, fullscreen, tab).1);
    }
    out
}

fn push_around(a: &Around, tab: Option<u64>, insets: Insets, out: &mut Vec<Effect>)
    ensures
        final(out)@ == old(out)@ + around_content(*a, tab, insets),
{
    if a.views {
        out.push(Effect::InvalidateSidebar);
    }
    out.push(Effect::ShowTopbar { visible: tab.is_none() });
    out.push(Effect::FillContent { tab });
    out.push(Effect::RelayoutFrame { insets });
    proof {
        assert(out@ =~= old(out)@ + around_content(*a, tab, insets));
    }
}

fn push_filled(tab: Option<u64>, before: bool, fullscreen: bool, out: &mut Vec<Effect>)
    ensures
        final(out)@ == old(out)@ + window_filled(tab, before, fullscreen),
{
    if tab.is_some() && !fullscreen {
        out.push(Effect::SetFullscreen { on: true });
    } else if tab.is_none() && !before && fullscreen {
        out.push(Effect::SetFullscreen { on: false });
    }
    proof {
        assert(out@ =~= old(out)@ + window_filled(tab, before, fullscreen));
    }
}

fn push_layout(state: &mut Shell, out: &mut Vec<Effect>)
    ensures
        *final(state) == old(state).scheduled().0,
        final(out)@ == old(out)@ + seq![Effect::LayoutWindow, Effect::LayoutMasks, Effect::LayoutOverlays] + old(state).scheduled().1 + seq![
            Effect::RefreshHover,
        ],
{
    out.push(Effect::LayoutWindow);
    out.push(Effect::LayoutMasks);
    out.push(Effect::LayoutOverlays);
    schedule_draggable_regions(state, out);
    out.push(Effect::RefreshHover);
    proof {
        assert(out@ =~= old(out)@ + seq![Effect::LayoutWindow, Effect::LayoutMasks, Effect::LayoutOverlays] + old(state).scheduled().1 + seq![
            Effect::RefreshHover,
        ]);
    }
}

/// Placing the sidebar leaves fullscreen alone.
proof fn placing_keeps(m: Shell, a: Around, allow_fade: bool)
    ensures
        m.placed(a, allow_fade).0.fullscreen_before_page == m.fullscreen_before_page,
        m.placed(a, allow_fade).0.page_fullscreen == m.page_fullscreen,
        forall|i: int| 0 <= i < m.placed(a, allow_fade).1.len() ==> !(#[trigger] m.placed(a, allow_fade).1[i] is SetFullscreen),
{
    reveal(Shell::placed);
}

/// Leaving page fullscreen gives the window back as it was: fullscreen if it was fullscreen before, and
/// not otherwise.
pub proof fn page_fullscreen_gives_the_window_back(m: Shell, a: Around, tab: u64, before: bool)
    requires
        m.page_fullscreen is None,
    ensures
        ({
            let on = m.page_filled(a, true, before, Some(tab));
            let off = on.0.page_filled(a, true, true, None);
            &&& on.0.page_fullscreen == Some(tab)
            &&& off.0.page_fullscreen is None
            &&& off.1.contains((Effect::SetFullscreen { on: false })) <==> !before
            &&& !off.1.contains((Effect::SetFullscreen { on: true }))
        }),
{
    let on = m.page_filled(a, true, before, Some(tab)).0;
    placing_keeps((Shell { page_fullscreen: Some(tab), fullscreen_before_page: before, ..m }), a, true);
    assert(on.fullscreen_before_page == before);
    let mid = Shell { page_fullscreen: None, ..on };
    placing_keeps(mid, a, true);
    let one = mid.placed(a, true);
    let two = one.0.scheduled();
    let off = on.page_filled(a, true, true, None).1;
    let head = one.1 + around_content(a, None, one.0.insets());
    let set = window_filled(None, before, true);
    let tail = seq![Effect::LayoutWindow, Effect::LayoutMasks, Effect::LayoutOverlays] + two.1 + seq![Effect::RefreshHover];
    assert(off =~= head + set + tail);
    if !before {
        assert(off[head.len() as int] == (Effect::SetFullscreen { on: false }));
    }
    assert forall|i: int| 0 <= i < off.len() && (before || i != head.len()) implies !(#[trigger] off[i] is SetFullscreen) by {
        if i < one.1.len() {
            assert(off[i] == one.1[i]);
        } else if i < head.len() {
            assert(off[i] == head[i]);
        } else {
            assert(off[i] == tail[i - head.len() - set.len()]);
        }
    }
}

/// What the user can ask of the window.
#[derive(Debug, Clone, Copy, PartialEq, Eq, Structural)]
pub enum WindowAction {
    Minimize,
    ToggleMaximize,
    ToggleFullscreen,
    Close,
}

/// What an action takes. Leaving window fullscreen ends page fullscreen too.
pub open spec fn action_effect(state: Shell, action: WindowAction, maximized: bool, fullscreen: bool) -> Effect {
    match action {
        WindowAction::Minimize => Effect::Minimize,
        WindowAction::ToggleMaximize => if maximized { Effect::Restore } else { Effect::Maximize },
        WindowAction::ToggleFullscreen => match state.page_fullscreen {
            Some(tab) => (Effect::ExitPageFullscreen { tab }),
            None => (Effect::SetFullscreen { on: !fullscreen }),
        },
        WindowAction::Close => Effect::RequestClose,
    }
}

/// What an action takes. Leaving window fullscreen ends page fullscreen too.
pub fn window_action(state: &Shell, action: WindowAction, maximized: bool, fullscreen: bool) -> (r: Effect)
    ensures
        r == action_effect(*state, action, maximized, fullscreen),
        r == (match action {
            WindowAction::Minimize => Effect::Minimize,
            WindowAction::ToggleMaximize => if maximized { Effect::Restore } else { Effect::Maximize },
            WindowAction::ToggleFullscreen => match state.page_fullscreen {
                Some(tab) => (Effect::ExitPageFullscreen { tab }),
                None => (Effect::SetFullscreen { on: !fullscreen }),
            },
            WindowAction::Close => Effect::RequestClose,
        }),
{
    match action {
        WindowAction::Minimize => Effect::Minimize,
        WindowAction::ToggleMaximize => if maximized { Effect::Restore } else { Effect::Maximize },
        WindowAction::ToggleFullscreen => match state.page_fullscreen {
            Some(tab) => Effect::ExitPageFullscreen { tab },
            None => Effect::SetFullscreen { on: !fullscreen },
        },
        WindowAction::Close => Effect::RequestClose,
    }
}

/// The surface that takes the keyboard focus when no tab can: the empty state if it is drawn, else the
/// docked sidebar, else the top bar. The arguments say which are drawn (and exist).
pub open spec fn fallback_surface(state: Shell, empty: bool, sidebar: bool, topbar: bool) -> Option<Surface> {
    if empty {
        Some(Surface::Empty)
    } else if sidebar && !state.parked {
        Some(Surface::Sidebar)
    } else if topbar {
        Some(Surface::Topbar)
    } else {
        None
    }
}

/// The surface that takes the keyboard focus when no tab can: the empty state if it is drawn, else the
/// docked sidebar, else the top bar. The arguments say which are drawn (and exist).
pub fn focus_fallback_view(state: &Shell, empty: bool, sidebar: bool, topbar: bool) -> (r: Option<Surface>)
    ensures
        r == fallback_surface(*state, empty, sidebar, topbar),
        r == (if empty {
            Some(Surface::Empty)
        } else if sidebar && !state.parked {
            Some(Surface::Sidebar)
        } else if topbar {
            Some(Surface::Topbar)
        } else {
            None
        }),
{
    if empty {
        Some(Surface::Empty)
    } else if sidebar && !state.parked {
        Some(Surface::Sidebar)
    } else if topbar {
        Some(Surface::Topbar)
    } else {
        None
    }
}

/// What there is to report of the window, if it changed. The bounds count only for a normal window.
pub open spec fn state_report(state: Shell, minimized: bool, maximized: bool, fullscreen: bool, bounds: Rect) -> Report {
    Report {
        maximized,
        fullscreen,
        focused: state.active,
        bounds: if !minimized && !maximized && !fullscreen { Some(bounds) } else { None },
    }
}

/// What there is to report of the window, if it changed. The bounds count only for a normal window.
pub fn report_state(state: &mut Shell, minimized: bool, maximized: bool, fullscreen: bool, bounds: Rect) -> (r: Option<Report>)
    ensures
        !old(state).closing ==> final(state).last_report == Some(state_report(*old(state), minimized, maximized, fullscreen, bounds)),
        ({
            let report = (Report {
                maximized,
                fullscreen,
                focused: old(state).active,
                bounds: if !minimized && !maximized && !fullscreen { Some(bounds) } else { None },
            });
            if old(state).closing {
                r is None && *final(state) == *old(state)
            } else {
                &&& *final(state) == (Shell { last_report: Some(report), ..*old(state) })
                &&& r == (if old(state).last_report == Some(report) { None } else { Some(report) })
            }
        }),
{
    if state.closing {
        return None;
    }
    let kept: Option<Rect> = if !minimized && !maximized && !fullscreen { Some(bounds) } else { None };
    let report = Report { maximized, fullscreen, focused: state.active, bounds: kept };
    let same = match state.last_report {
        Some(last) => last == report,
        None => false,
    };
    state.last_report = Some(report);
    if same { None } else { Some(report) }
}

// ------------------------------------------------------------------------------ draggable areas

/// An area that does or does not move the window when it is dragged.
#[derive(Debug, Clone, Copy, PartialEq, Eq, Structural)]
pub struct Region {
    pub bounds: Rect,
    pub draggable: bool,
}

/// Asks for the draggable areas to be applied, once.
pub fn schedule_draggable_regions(state: &mut Shell, out: &mut Vec<Effect>)
    ensures
        *final(state) == old(state).scheduled().0,
        final(out)@ == old(out)@ + old(state).scheduled().1,
{
    if !state.regions_pending {
        state.regions_pending = true;
        out.push(Effect::ApplyRegionsLater);
    }
    proof {
        assert(out@ =~= old(out)@ + old(state).scheduled().1);
    }
}

/// The draggable areas are applied now.
pub fn regions_applied(state: &mut Shell)
    ensures
        *final(state) == (Shell { regions_pending: false, ..*old(state) }),
{
    state.regions_pending = false;
}

/// An area of a view, in the window: the part of it inside the view, moved by the view's place.
pub open spec fn region_in_window(r: Region, view: Rect) -> Option<Region> {
    let x0 = larger(r.bounds.x as int, 0);
    let y0 = larger(r.bounds.y as int, 0);
    let x1 = smaller(r.bounds.x + r.bounds.width, view.width as int);
    let y1 = smaller(r.bounds.y + r.bounds.height, view.height as int);
    if x1 <= x0 || y1 <= y0 {
        None
    } else {
        Some(
            (Region {
                bounds: Rect {
                    x: (view.x + x0) as i32,
                    y: (view.y + y0) as i32,
                    width: (x1 - x0) as i32,
                    height: (y1 - y0) as i32,
                },
                draggable: r.draggable,
            }),
        )
    }
}

/// The areas of a view from position `i` on, in the window.
pub open spec fn regions_in_window(list: Seq<Region>, view: Rect, i: int) -> Seq<Region>
    decreases list.len() - i,
{
    if i < 0 || i >= list.len() {
        Seq::empty()
    } else {
        match region_in_window(list[i], view) {
            Some(r) => seq![r] + regions_in_window(list, view, i + 1),
            None => regions_in_window(list, view, i + 1),
        }
    }
}

/// A view whose place and far corner have coordinates.
pub open spec fn reachable(view: Rect) -> bool {
    in_i32(view.x + view.width) && in_i32(view.y + view.height)
}

fn convert_regions(list: &Vec<Region>, view: Rect, out: &mut Vec<Region>)
    requires
        reachable(view),
    ensures
        final(out)@ == old(out)@ + regions_in_window(list@, view, 0),
{
    let ghost whole = old(out)@ + regions_in_window(list@, view, 0);
    let mut i: usize = 0;
    while i < list.len()
        invariant
            i <= list@.len(),
            reachable(view),
            whole == out@ + regions_in_window(list@, view, i as int),
        decreases list@.len() - i,
    {
        let r: Region = list[i];
        let ghost before = out@;
        let ghost rest = regions_in_window(list@, view, i + 1);
        // Clip to the view, then offset by the view's origin in the window.
        let x0: i64 = max64(r.bounds.x as i64, 0);
        let y0: i64 = max64(r.bounds.y as i64, 0);
        let x1: i64 = min64(r.bounds.x as i64 + r.bounds.width as i64, view.width as i64);
        let y1: i64 = min64(r.bounds.y as i64 + r.bounds.height as i64, view.height as i64);
        if x1 > x0 && y1 > y0 {
            let region = Region {
                bounds: Rect {
                    x: (view.x as i64 + x0) as i32,
                    y: (view.y as i64 + y0) as i32,
                    width: (x1 - x0) as i32,
                    height: (y1 - y0) as i32,
                },
                draggable: r.draggable,
            };
            out.push(region);
            proof {
                assert(before + (seq![region] + rest) =~= out@ + rest);
            }
        }
        i = i + 1;
    }
    proof {
        assert(out@ + Seq::<Region>::empty() =~= out@);
    }
}

/// The areas of the docked surfaces.
pub struct Regions {
    pub sidebar: Option<Vec<Region>>,
    pub topbar: Option<Vec<Region>>,
}

/// The areas of a surface that is drawn at `view`, in the window.
pub open spec fn surface_regions(list: Option<Vec<Region>>, view: Option<Rect>) -> Seq<Region> {
    match (list, view) {
        (Some(l), Some(v)) => regions_in_window(l@, v, 0),
        _ => Seq::empty(),
    }
}

/// Overlays: nothing under them can be dragged.
pub open spec fn holes(overlays: Seq<Rect>) -> Seq<Region> {
    overlays.map_values(|bounds: Rect| (Region { bounds, draggable: false }))
}

/// The draggable areas of the window: those of the docked sidebar and of the top bar, and a hole for
/// each overlay that is visible. `sidebar` and `topbar`: where each is in the window, if it is drawn.
/// The floating sidebar is never a drag area.
pub fn apply_draggable_regions(state: &Shell, regions: &Regions, sidebar: Option<Rect>, topbar: Option<Rect>, overlays: &Vec<Rect>) -> (r: Vec<
    Region,
>)
    requires
        sidebar is Some ==> reachable(sidebar->0),
        topbar is Some ==> reachable(topbar->0),
    ensures
        r@ == (if state.parked { Seq::empty() } else { surface_regions(regions.sidebar, sidebar) }) + surface_regions(
            regions.topbar,
            topbar,
        ) + holes(overlays@),
{
    let mut out: Vec<Region> = Vec::new();
    if !state.parked {
        match (&regions.sidebar, sidebar) {
            (Some(list), Some(view)) => convert_regions(list, view, &mut out),
            _ => {},
        }
    }
    let ghost first = out@;
    proof {
        assert(first =~= (if state.parked { Seq::empty() } else { surface_regions(regions.sidebar, sidebar) }));
    }
    match (&regions.topbar, topbar) {
        (Some(list), Some(view)) => convert_regions(list, view, &mut out),
        _ => {},
    }
    let ghost second = out@;
    proof {
        assert(second =~= first + surface_regions(regions.topbar, topbar));
    }
    let mut i: usize = 0;
    while i < overlays.len()
        invariant
            i <= overlays@.len(),
            out@ == second + holes(overlays@.take(i as int)),
        decreases overlays@.len() - i,
    {
        out.push(Region { bounds: overlays[i], draggable: false });
        i = i + 1;
        proof {
            assert(out@ =~= second + holes(overlays@.take(i as int)));
        }
    }
    proof {
        assert(overlays@.take(i as int) =~= overlays@);
    }
    out
}

/// The areas of a surface changed; only those of the sidebar and the top bar count.
pub fn on_draggable_regions_changed(state: &mut Shell, regions: &mut Regions, surface: Surface, list: Vec<Region>) -> (r: Vec<Effect>)
    ensures
        match surface {
            Surface::Sidebar => final(regions).sidebar == Some(list) && final(regions).topbar == old(regions).topbar,
            Surface::Topbar => final(regions).topbar == Some(list) && final(regions).sidebar == old(regions).sidebar,
            Surface::Empty => *final(regions) == *old(regions),
        },
        if surface == Surface::Empty {
            *final(state) == *old(state) && r@.len() == 0
        } else {
            (*final(state), r@) == old(state).scheduled()
        },
{
    let mut out: Vec<Effect> = Vec::new();
    match surface {
        Surface::Sidebar => {
            regions.sidebar = Some(list);
        },
        Surface::Topbar => {
            regions.topbar = Some(list);
        },
        Surface::Empty => {
            return out;
        },
    }
    schedule_draggable_regions(state, &mut out);
    proof {
        assert(out@ =~= old(state).scheduled().1);
    }
    out
}

/// The browser of a surface is gone, and its areas with it.
pub fn on_surface_closed(regions: &mut Regions, surface: Surface)
    ensures
        final(regions).sidebar == (if surface == Surface::Sidebar { None } else { old(regions).sidebar }),
        final(regions).topbar == (if surface == Surface::Topbar { None } else { old(regions).topbar }),
{
    match surface {
        Surface::Sidebar => {
            regions.sidebar = None;
        },
        Surface::Topbar => {
            regions.topbar = None;
        },
        Surface::Empty => {},
    }
}

/// A draggable area never reaches out of the view that it belongs to.
pub proof fn areas_stay_inside_their_view(r: Region, view: Rect)
    requires
        reachable(view),
    ensures
        match region_in_window(r, view) {
            Some(q) => view.x <= q.bounds.x && q.bounds.x + q.bounds.width <= view.x + view.width && view.y <= q.bounds.y
                && q.bounds.y + q.bounds.height <= view.y + view.height && q.bounds.width > 0 && q.bounds.height > 0,
            None => true,
        },
{
}

// ------------------------------------------------------------------------------ shutdown

/// Whether the window may close now. Otherwise a close is asked for, or the shutdown is begun where
/// everything is shutting down already.
pub open spec fn close_answer(state: Shell, open_browsers: usize, shutting_down: bool) -> (bool, Option<Effect>) {
    if state.closing {
        (open_browsers == 0, None)
    } else if shutting_down {
        (false, Some(Effect::ShutDownLater))
    } else {
        (false, Some(Effect::RequestClose))
    }
}

/// Whether the window may close now. Otherwise a close is asked for, or the shutdown is begun where
/// everything is shutting down already.
pub fn can_close(state: &Shell, open_browsers: usize, shutting_down: bool) -> (r: (bool, Option<Effect>))
    ensures
        r == close_answer(*state, open_browsers, shutting_down),
        r == (if state.closing {
            (open_browsers == 0, None)
        } else if shutting_down {
            (false, Some(Effect::ShutDownLater))
        } else {
            (false, Some(Effect::RequestClose))
        }),
{
    if state.closing {
        return (open_browsers == 0, None);
    }
    if shutting_down {
        (false, Some(Effect::ShutDownLater))
    } else {
        (false, Some(Effect::RequestClose))
    }
}

/// The shutdown begins (once): every browser is closed, and the window closes when the last one is gone.
/// Once all this was done, [`on_browser_closed`] says whether none was left to wait for.
pub open spec fn shutdown_effects(state: Shell, timeout_ms: i64) -> Seq<Effect> {
    if state.closing {
        Seq::empty()
    } else {
        seq![
            Effect::RefreshHover,
            Effect::CancelDownloads,
            Effect::CloseTools,
            Effect::CloseExtensionPopup,
            Effect::CloseExtensionBackend,
            Effect::CloseForeign,
            (Effect::ExitLater { after_ms: timeout_ms }),
            Effect::CloseBrowsers,
        ]
    }
}

/// The shutdown begins (once): every browser is closed, and the window closes when the last one is gone.
/// Once all this was done, [`on_browser_closed`] says whether none was left to wait for.
pub fn begin_shutdown(state: &mut Shell, timeout_ms: i64) -> (r: Vec<Effect>)
    ensures
        r@ == shutdown_effects(*old(state), timeout_ms),
        if old(state).closing {
            *final(state) == *old(state) && r@.len() == 0
        } else {
            &&& *final(state) == (Shell { closing: true, ..*old(state) })
            &&& r@ == seq![
                Effect::RefreshHover,
                Effect::CancelDownloads,
                Effect::CloseTools,
                Effect::CloseExtensionPopup,
                Effect::CloseExtensionBackend,
                Effect::CloseForeign,
                (Effect::ExitLater { after_ms: timeout_ms }),
                Effect::CloseBrowsers,
            ]
        },
{
    if state.closing {
        return Vec::new();
    }
    state.closing = true;
    vec![
        Effect::RefreshHover,
        Effect::CancelDownloads,
        Effect::CloseTools,
        Effect::CloseExtensionPopup,
        Effect::CloseExtensionBackend,
        Effect::CloseForeign,
        Effect::ExitLater { after_ms: timeout_ms },
        Effect::CloseBrowsers,
    ]
}

/// A browser is gone, or the close of all was asked for: the window closes when none is left.
pub fn on_browser_closed(state: &Shell, open_browsers: usize) -> (r: Option<Effect>)
    ensures
        r == (if state.closing && open_browsers == 0 { Some(Effect::CloseWindowLater) } else { None }),
{
    if state.closing && open_browsers == 0 { Some(Effect::CloseWindowLater) } else { None }
}

/// How a surface is let go of.
#[derive(Debug, Clone, Copy, PartialEq, Eq, Structural)]
pub enum Release {
    /// From the floating sidebar.
    FromFloating,
    /// From its panel.
    FromParent,
    Nothing,
}

/// How a docked surface is let go of. `parent` and `view`: its panel and its view exist.
pub open spec fn release_of(state: Shell, surface: Surface, parent: bool, view: bool) -> Release {
    if view && surface == Surface::Sidebar && state.parked {
        Release::FromFloating
    } else if view && parent {
        Release::FromParent
    } else {
        Release::Nothing
    }
}

/// How a docked surface is let go of. `parent` and `view`: its panel and its view exist.
pub fn release_surface(state: &Shell, surface: Surface, parent: bool, view: bool) -> (r: Release)
    ensures
        r == release_of(*state, surface, parent, view),
        r == (if view && surface == Surface::Sidebar && state.parked {
            Release::FromFloating
        } else if view && parent {
            Release::FromParent
        } else {
            Release::Nothing
        }),
{
    if view && surface == Surface::Sidebar && state.parked {
        Release::FromFloating
    } else if view && parent {
        Release::FromParent
    } else {
        Release::Nothing
    }
}

/// What the window itself says.
#[derive(Debug, Clone, Copy, PartialEq, Eq, Structural)]
pub struct WindowSeen {
    pub bounds: Rect,
    /// The part of its display that windows may cover.
    pub work_area: Option<Rect>,
    pub maximized: bool,
    pub minimized: bool,
    pub fullscreen: bool,
}

/// What the views say, of each that exists.
#[derive(Debug, Clone, Copy, PartialEq, Eq, Structural)]
pub struct Seen {
    pub window: Option<WindowSeen>,
    /// The sidebar is drawn.
    pub sidebar_drawn: Option<bool>,
    pub topbar_visible: Option<bool>,
    /// The content panel in the window.
    pub content: Option<Rect>,
    pub empty_visible: Option<bool>,
}

/// The window as it looks from outside.
pub struct Snapshot {
    pub exists: bool,
    pub bounds: Option<Rect>,
    pub work_area: Option<Rect>,
    pub maximized: Option<bool>,
    pub minimized: Option<bool>,
    pub fullscreen: Option<bool>,
    pub active: bool,
    pub closing: bool,
    pub sidebar_visible: bool,
    pub sidebar_shown: bool,
    pub sidebar_width: i32,
    pub sidebar_floating: bool,
    pub parked: bool,
    pub park_pending: bool,
    pub sidebar_drawn: Option<bool>,
    pub topbar_visible: Option<bool>,
    pub page_fullscreen: Option<u64>,
    /// `#` and eight digits.
    pub frame: String,
    pub dark: bool,
    pub content_rect: Option<Rect>,
    pub empty_visible: Option<bool>,
    pub draggable_regions: Vec<Region>,
}

/// The window as it looks from outside. `applied`: the draggable areas that were applied last.
pub fn debug_snapshot(state: &Shell, seen: &Seen, applied: &Vec<Region>) -> (r: Snapshot)
    ensures
        r.exists == (seen.window is Some),
        match seen.window {
            Some(w) => {
                &&& r.bounds == Some(w.bounds)
                &&& r.work_area == w.work_area
                &&& r.maximized == Some(w.maximized)
                &&& r.minimized == Some(w.minimized)
                &&& r.fullscreen == Some(w.fullscreen)
            },
            None => r.bounds is None && r.work_area is None && r.maximized is None && r.minimized is None && r.fullscreen is None,
        },
        r.active == state.active && r.closing == state.closing,
        r.sidebar_visible == state.sidebar_visible && r.sidebar_shown == state.shown(),
        r.sidebar_width == state.sidebar_width && r.sidebar_floating == state.sidebar_floating,
        r.parked == state.parked && r.park_pending == state.park_pending,
        r.sidebar_drawn == seen.sidebar_drawn && r.topbar_visible == seen.topbar_visible,
        r.page_fullscreen == state.page_fullscreen && r.dark == state.dark,
        r.frame@ == "#"@ + hex(state.frame as nat, 8),
        r.content_rect == seen.content && r.empty_visible == seen.empty_visible,
        r.draggable_regions@ == applied@,
{
    let digits = hex_text(state.frame as u64, 8);
    let mut draggable_regions: Vec<Region> = Vec::new();
    while draggable_regions.len() < applied.len()
        invariant
            draggable_regions@.len() <= applied@.len(),
            draggable_regions@ == applied@.take(draggable_regions@.len() as int),
        decreases applied@.len() - draggable_regions@.len(),
    {
        let k: usize = draggable_regions.len();
        draggable_regions.push(applied[k]);
        proof {
            assert(draggable_regions@ =~= applied@.take(k + 1));
        }
    }
    proof {
        assert(draggable_regions@ =~= applied@);
    }
    let (bounds, work_area, maximized, minimized, fullscreen) = match seen.window {
        Some(w) => (Some(w.bounds), w.work_area, Some(w.maximized), Some(w.minimized), Some(w.fullscreen)),
        None => (None, None, None, None, None),
    };
    Snapshot {
        exists: seen.window.is_some(),
        bounds,
        work_area,
        maximized,
        minimized,
        fullscreen,
        active: state.active,
        closing: state.closing,
        sidebar_visible: state.sidebar_visible,
        sidebar_shown: sidebar_shown(state),
        sidebar_width: state.sidebar_width,
        sidebar_floating: state.sidebar_floating,
        parked: state.parked,
        park_pending: state.park_pending,
        sidebar_drawn: seen.sidebar_drawn,
        topbar_visible: seen.topbar_visible,
        page_fullscreen: state.page_fullscreen,
        frame: join2("#", digits.as_str()),
        dark: state.dark,
        content_rect: seen.content,
        empty_visible: seen.empty_visible,
        draggable_regions,
    }
}

// ------------------------------------------------------------------------------ building the window

/// The parts that the window is built of.
#[derive(Debug, Clone, Copy, PartialEq, Eq, Structural)]
pub enum Part {
    Window,
    Sidebar,
    /// The column right of the sidebar: the top bar over the content frame.
    Right,
    Topbar,
    ContentFrame,
    Content,
    Empty,
}

/// Why the window could not be built.
#[derive(Debug, Clone, Copy, PartialEq, Eq, Structural)]
pub enum StartupError {
    /// A test wants startup to fail.
    Forced,
    Window,
    Sidebar,
    Panel,
    Topbar,
    Empty,
    Browser,
}

impl StartupError {
    pub open spec fn text(self) -> Seq<char> {
        match self {
            StartupError::Forced => "startup failure forced by STA_DEBUG_FAIL_STARTUP"@,
            StartupError::Window => "the main window could not be created"@,
            StartupError::Sidebar => "the sidebar view could not be created"@,
            StartupError::Panel => "panel_create failed"@,
            StartupError::Topbar => "the top bar view could not be created"@,
            StartupError::Empty => "the empty-state view could not be created"@,
            StartupError::Browser => "a UI browser could not be created"@,
        }
    }

    /// What is said of it.
    pub fn message(self) -> (r: &'static str)
        ensures
            r@ == self.text(),
    {
        match self {
            StartupError::Forced => "startup failure forced by STA_DEBUG_FAIL_STARTUP",
            StartupError::Window => "the main window could not be created",
            StartupError::Sidebar => "the sidebar view could not be created",
            StartupError::Panel => "panel_create failed",
            StartupError::Topbar => "the top bar view could not be created",
            StartupError::Empty => "the empty-state view could not be created",
            StartupError::Browser => "a UI browser could not be created",
        }
    }
}

/// What the user reads when startup cannot go on.
pub fn fatal_startup_error(error: StartupError, logs: &str) -> (r: String)
    ensures
        r@ == "sta could not start: "@ + error.text() + ".\n\nLogs: "@ + logs@,
{
    let mut out = join3("sta could not start: ", error.message(), ".\n\nLogs: ");
    out.append(logs);
    out
}

/// A step of building the window.
#[derive(Debug, Clone, Copy, PartialEq, Eq, Structural)]
pub enum BuildStep {
    /// Give the native frame the theme.
    ApplyChrome { dark: bool },
    Paint { part: Part, color: u32 },
    /// Lay out the children of a part in a row or a column.
    SetBox { part: Part, horizontal: bool },
    Create { part: Part },
    Show { part: Part },
    AddChild { parent: Part, child: Part },
    /// A child takes the room that is left.
    Flex { parent: Part, child: Part },
    RelayoutFrame { insets: Insets },
    CreateMasks,
    CreateHosts,
    /// Put the sidebar into the floating sidebar.
    AdoptSidebar,
    CheckBrowsers,
    InstallAccelerators,
    SetIcons,
    SetTitle,
    StartUp,
    StartTick,
    /// Tell the user and exit: no invisible instance stays behind.
    Fatal { error: StartupError },
}

/// The first steps: the window itself.
pub open spec fn window_steps(m: Shell) -> Seq<BuildStep> {
    seq![
        (BuildStep::ApplyChrome { dark: m.dark }),
        (BuildStep::Paint { part: Part::Window, color: m.frame }),
        (BuildStep::SetBox { part: Part::Window, horizontal: true }),
    ]
}

/// The sidebar goes into the window unless it starts parked.
pub open spec fn sidebar_steps(m: Shell) -> Seq<BuildStep> {
    seq![(BuildStep::Show { part: Part::Sidebar })] + (if m.parked {
        Seq::empty()
    } else {
        seq![(BuildStep::AddChild { parent: Part::Window, child: Part::Sidebar })]
    })
}

pub open spec fn right_steps(m: Shell) -> Seq<BuildStep> {
    seq![
        (BuildStep::Paint { part: Part::Right, color: m.frame }),
        (BuildStep::SetBox { part: Part::Right, horizontal: false }),
        (BuildStep::AddChild { parent: Part::Window, child: Part::Right }),
        (BuildStep::Flex { parent: Part::Window, child: Part::Right }),
    ]
}

pub open spec fn topbar_steps() -> Seq<BuildStep> {
    seq![(BuildStep::AddChild { parent: Part::Right, child: Part::Topbar })]
}

pub open spec fn frame_steps(m: Shell) -> Seq<BuildStep> {
    seq![
        (BuildStep::Paint { part: Part::ContentFrame, color: m.frame }),
        (BuildStep::AddChild { parent: Part::Right, child: Part::ContentFrame }),
        (BuildStep::Flex { parent: Part::Right, child: Part::ContentFrame }),
    ]
}

pub open spec fn content_steps(m: Shell) -> Seq<BuildStep> {
    seq![
        (BuildStep::Paint { part: Part::Content, color: m.frame }),
        (BuildStep::SetBox { part: Part::Content, horizontal: true }),
        (BuildStep::AddChild { parent: Part::ContentFrame, child: Part::Content }),
        (BuildStep::RelayoutFrame { insets: m.insets() }),
    ]
}

/// The overlays come last, on top; a parked sidebar is adopted by its host.
pub open spec fn empty_steps(m: Shell) -> Seq<BuildStep> {
    seq![
        (BuildStep::AddChild { parent: Part::Content, child: Part::Empty }),
        (BuildStep::Flex { parent: Part::Content, child: Part::Empty }),
        BuildStep::CreateMasks,
        BuildStep::CreateHosts,
    ] + (if m.parked { seq![BuildStep::AdoptSidebar] } else { Seq::empty() })
}

pub open spec fn last_steps() -> Seq<BuildStep> {
    seq![
        BuildStep::InstallAccelerators,
        BuildStep::SetIcons,
        BuildStep::SetTitle,
        BuildStep::StartUp,
        (BuildStep::Show { part: Part::Window }),
        BuildStep::StartTick,
    ]
}

/// What building the window waits for.
#[derive(Debug, Clone, Copy, PartialEq, Eq, Structural)]
pub enum Stage {
    Sidebar,
    Right,
    Topbar,
    ContentFrame,
    Content,
    Empty,
    /// The sidebar, the top bar and the empty state are to have their browsers.
    Browsers,
}

/// How many stages there are.
pub const STAGES: usize = 7;

impl Stage {
    /// How many stages come before.
    pub open spec fn number(self) -> int {
        match self {
            Stage::Sidebar => 0,
            Stage::Right => 1,
            Stage::Topbar => 2,
            Stage::ContentFrame => 3,
            Stage::Content => 4,
            Stage::Empty => 5,
            Stage::Browsers => 6,
        }
    }

    /// The step whose outcome is waited for.
    pub open spec fn first(self) -> BuildStep {
        match self {
            Stage::Sidebar => BuildStep::Create { part: Part::Sidebar },
            Stage::Right => BuildStep::Create { part: Part::Right },
            Stage::Topbar => BuildStep::Create { part: Part::Topbar },
            Stage::ContentFrame => BuildStep::Create { part: Part::ContentFrame },
            Stage::Content => BuildStep::Create { part: Part::Content },
            Stage::Empty => BuildStep::Create { part: Part::Empty },
            Stage::Browsers => BuildStep::CheckBrowsers,
        }
    }

    /// What it means that the step failed.
    pub open spec fn error(self) -> StartupError {
        match self {
            Stage::Sidebar => StartupError::Sidebar,
            Stage::Right => StartupError::Panel,
            Stage::Topbar => StartupError::Topbar,
            Stage::ContentFrame => StartupError::Panel,
            Stage::Content => StartupError::Panel,
            Stage::Empty => StartupError::Empty,
            Stage::Browsers => StartupError::Browser,
        }
    }

    /// What follows once the step worked.
    pub open spec fn rest(self, m: Shell) -> Seq<BuildStep> {
        match self {
            Stage::Sidebar => sidebar_steps(m),
            Stage::Right => right_steps(m),
            Stage::Topbar => topbar_steps(),
            Stage::ContentFrame => frame_steps(m),
            Stage::Content => content_steps(m),
            Stage::Empty => empty_steps(m),
            Stage::Browsers => last_steps(),
        }
    }

    /// The stage after it.
    pub open spec fn next(self) -> Option<Stage> {
        match self {
            Stage::Sidebar => Some(Stage::Right),
            Stage::Right => Some(Stage::Topbar),
            Stage::Topbar => Some(Stage::ContentFrame),
            Stage::ContentFrame => Some(Stage::Content),
            Stage::Content => Some(Stage::Empty),
            Stage::Empty => Some(Stage::Browsers),
            Stage::Browsers => None,
        }
    }
}

/// Building begins: what it waits for next, and what is done until then.
pub open spec fn begun(m: Shell, forced: bool) -> (Option<Stage>, Seq<BuildStep>) {
    if forced {
        (None, seq![(BuildStep::Fatal { error: StartupError::Forced })])
    } else {
        (Some(Stage::Sidebar), window_steps(m).push(Stage::Sidebar.first()))
    }
}

/// The step of a stage worked, or did not: what building waits for next, and what is done until then.
pub open spec fn advanced(m: Shell, stage: Stage, made: bool) -> (Option<Stage>, Seq<BuildStep>) {
    if !made {
        (None, seq![(BuildStep::Fatal { error: stage.error() })])
    } else {
        (stage.next(), match stage.next() {
            Some(next) => stage.rest(m).push(next.first()),
            None => stage.rest(m),
        })
    }
}

/// Builds the window: the sidebar, the column with the top bar and the content, the overlays above them.
/// Returns what building waits for ([`on_built`] goes on from there; `None`: it is over) and what is to be
/// done. `forced`: a test wants startup to fail.
pub fn build(state: &Shell, forced: bool) -> (r: (Option<Stage>, Vec<BuildStep>))
    ensures
        (r.0, r.1@) == begun(*state, forced),
{
    if forced {
        let out = vec![BuildStep::Fatal { error: StartupError::Forced }];
        proof {
            assert(out@ =~= begun(*state, forced).1);
        }
        return (None, out);
    }
    let out = vec![
        BuildStep::ApplyChrome { dark: state.dark },
        BuildStep::Paint { part: Part::Window, color: state.frame },
        BuildStep::SetBox { part: Part::Window, horizontal: true },
        BuildStep::Create { part: Part::Sidebar },
    ];
    proof {
        assert(out@ =~= begun(*state, forced).1);
    }
    (Some(Stage::Sidebar), out)
}

fn error_of(stage: Stage) -> (r: StartupError)
    ensures
        r == stage.error(),
{
    match stage {
        Stage::Sidebar => StartupError::Sidebar,
        Stage::Topbar => StartupError::Topbar,
        Stage::Empty => StartupError::Empty,
        Stage::Browsers => StartupError::Browser,
        _ => StartupError::Panel,
    }
}

fn stage_after(stage: Stage) -> (r: Option<(Stage, BuildStep)>)
    ensures
        r == (match stage.next() {
            Some(next) => Some((next, next.first())),
            None => None,
        }),
{
    match stage {
        Stage::Sidebar => Some((Stage::Right, BuildStep::Create { part: Part::Right })),
        Stage::Right => Some((Stage::Topbar, BuildStep::Create { part: Part::Topbar })),
        Stage::Topbar => Some((Stage::ContentFrame, BuildStep::Create { part: Part::ContentFrame })),
        Stage::ContentFrame => Some((Stage::Content, BuildStep::Create { part: Part::Content })),
        Stage::Content => Some((Stage::Empty, BuildStep::Create { part: Part::Empty })),
        Stage::Empty => Some((Stage::Browsers, BuildStep::CheckBrowsers)),
        Stage::Browsers => None,
    }
}

fn steps_of(state: &Shell, stage: Stage) -> (r: Vec<BuildStep>)
    ensures
        r@ == stage.rest(*state),
{
    let out: Vec<BuildStep> = match stage {
        Stage::Sidebar => {
            let mut steps = vec![BuildStep::Show { part: Part::Sidebar }];
            if !state.parked {
                steps.push(BuildStep::AddChild { parent: Part::Window, child: Part::Sidebar });
            }
            steps
        },
        Stage::Right => vec![
            BuildStep::Paint { part: Part::Right, color: state.frame },
            BuildStep::SetBox { part: Part::Right, horizontal: false },
            BuildStep::AddChild { parent: Part::Window, child: Part::Right },
            BuildStep::Flex { parent: Part::Window, child: Part::Right },
        ],
        Stage::Topbar => vec![BuildStep::AddChild { parent: Part::Right, child: Part::Topbar }],
        Stage::ContentFrame => vec![
            BuildStep::Paint { part: Part::ContentFrame, color: state.frame },
            BuildStep::AddChild { parent: Part::Right, child: Part::ContentFrame },
            BuildStep::Flex { parent: Part::Right, child: Part::ContentFrame },
        ],
        Stage::Content => vec![
            BuildStep::Paint { part: Part::Content, color: state.frame },
            BuildStep::SetBox { part: Part::Content, horizontal: true },
            BuildStep::AddChild { parent: Part::ContentFrame, child: Part::Content },
            BuildStep::RelayoutFrame { insets: content_insets(state) },
        ],
        Stage::Empty => {
            let mut steps = vec![
                BuildStep::AddChild { parent: Part::Content, child: Part::Empty },
                BuildStep::Flex { parent: Part::Content, child: Part::Empty },
                BuildStep::CreateMasks,
                BuildStep::CreateHosts,
            ];
            if state.parked {
                steps.push(BuildStep::AdoptSidebar);
            }
            steps
        },
        Stage::Browsers => vec![
            BuildStep::InstallAccelerators,
            BuildStep::SetIcons,
            BuildStep::SetTitle,
            BuildStep::StartUp,
            BuildStep::Show { part: Part::Window },
            BuildStep::StartTick,
        ],
    };
    proof {
        assert(out@ =~= stage.rest(*state));
    }
    out
}

/// The step that building waits for worked, or did not: what it waits for next, and what is to be done. If
/// a part cannot be made, startup ends there.
pub fn on_built(state: &Shell, stage: Stage, made: bool) -> (r: (Option<Stage>, Vec<BuildStep>))
    ensures
        (r.0, r.1@) == advanced(*state, stage, made),
{
    if !made {
        let out = vec![BuildStep::Fatal { error: error_of(stage) }];
        proof {
            assert(out@ =~= advanced(*state, stage, made).1);
        }
        return (None, out);
    }
    let mut out = steps_of(state, stage);
    match stage_after(stage) {
        Some(next) => {
            out.push(next.1);
            (Some(next.0), out)
        },
        None => (None, out),
    }
}

/// Building up to where the outcomes of its steps lead, one after the other: what it waits for then, and
/// everything that was to be done. (Once it is over, nothing more is.)
pub open spec fn built(m: Shell, forced: bool, made: Seq<bool>) -> (Option<Stage>, Seq<BuildStep>)
    decreases made.len(),
{
    if made.len() == 0 {
        begun(m, forced)
    } else {
        let before = built(m, forced, made.drop_last());
        match before.0 {
            None => before,
            Some(stage) => {
                let one = advanced(m, stage, made.last());
                (one.0, before.1 + one.1)
            },
        }
    }
}

/// The first `n` steps worked.
pub open spec fn worked(made: Seq<bool>, n: int) -> bool {
    made.len() >= n && forall|i: int| 0 <= i < n ==> made[i]
}

/// A joined row has what its two parts have.
proof fn joined_has(a: Seq<BuildStep>, b: Seq<BuildStep>, x: BuildStep)
    ensures
        (a + b).contains(x) <==> a.contains(x) || b.contains(x),
{
    if a.contains(x) {
        assert((a + b)[a.index_of(x)] == x);
    }
    if b.contains(x) {
        assert((a + b)[a.len() + b.index_of(x)] == x);
    }
    if (a + b).contains(x) {
        let i = (a + b).index_of(x);
        if i < a.len() {
            assert(a[i] == x);
        } else {
            assert(b[i - a.len()] == x);
        }
    }
}

/// What one stage adds, of the steps that matter.
proof fn stage_has(m: Shell, stage: Stage, made: bool)
    ensures
        ({
            let r = advanced(m, stage, made);
            &&& r.1.len() > 0
            &&& r.1.last() is Fatal <==> !made
            &&& r.0 is Some <==> made && stage != Stage::Browsers
            &&& r.0 is Some ==> r.0->0.number() == stage.number() + 1
            &&& r.1.contains(BuildStep::Show { part: Part::Window }) <==> made && stage == Stage::Browsers
            &&& r.1.contains(BuildStep::AdoptSidebar) <==> made && stage == Stage::Empty && m.parked
            &&& r.1.contains(BuildStep::AddChild { parent: Part::Window, child: Part::Sidebar }) <==> made && stage == Stage::Sidebar && !m.parked
        }),
{
    let r = advanced(m, stage, made).1;
    let show = BuildStep::Show { part: Part::Window };
    let dock = BuildStep::AddChild { parent: Part::Window, child: Part::Sidebar };
    if made && stage == Stage::Browsers {
        assert(r[4] == show);
    }
    if made && stage == Stage::Empty && m.parked {
        assert(r[4] == BuildStep::AdoptSidebar);
    }
    if made && stage == Stage::Sidebar && !m.parked {
        assert(r[1] == dock);
    }
    assert(r.len() <= 7);
    assert forall|x: BuildStep| #[trigger] r.contains(x) implies x == r[0] || (r.len() > 1 && x == r[1]) || (r.len() > 2 && x == r[2]) || (r.len() > 3
        && x == r[3]) || (r.len() > 4 && x == r[4]) || (r.len() > 5 && x == r[5]) || (r.len() > 6 && x == r[6]) by {
        let i = r.index_of(x);
        assert(r[i] == x);
    }
}

/// The window is shown if and only if every step worked; building ends with an error if and only if one of
/// them did not. The sidebar of a complete window is in one place: docked, or parked with its host.
pub proof fn only_a_complete_window_is_shown(m: Shell, forced: bool, made: Seq<bool>)
    ensures
        ({
            let r = built(m, forced, made);
            let complete = !forced && worked(made, STAGES as int);
            &&& r.0 is Some <==> !forced && made.len() < STAGES && worked(made, made.len() as int)
            &&& r.0 is Some ==> r.0->0.number() == made.len()
            &&& r.1.contains(BuildStep::Show { part: Part::Window }) <==> complete
            &&& r.1.len() > 0 && (r.1.last() is Fatal <==> r.0 is None && !complete)
            &&& r.1.contains(BuildStep::AdoptSidebar) <==> !forced && worked(made, 6) && m.parked
            &&& r.1.contains(BuildStep::AddChild { parent: Part::Window, child: Part::Sidebar }) <==> !forced && worked(made, 1) && !m.parked
        }),
    decreases made.len(),
{
    let show = BuildStep::Show { part: Part::Window };
    let dock = BuildStep::AddChild { parent: Part::Window, child: Part::Sidebar };
    let adopt = BuildStep::AdoptSidebar;
    if made.len() == 0 {
        let r = begun(m, forced).1;
        assert(forall|i: int| 0 <= i < r.len() ==> #[trigger] r[i] != show && r[i] != dock && r[i] != adopt);
    } else {
        let front = made.drop_last();
        only_a_complete_window_is_shown(m, forced, front);
        let before = built(m, forced, front);
        assert(forall|n: int| n <= front.len() ==> worked(made, n) == worked(front, n)) by {
            assert forall|n: int| n <= front.len() implies worked(made, n) == worked(front, n) by {
                if worked(made, n) {
                    assert(forall|i: int| 0 <= i < n ==> front[i] == made[i]);
                }
                if worked(front, n) {
                    assert(forall|i: int| 0 <= i < n ==> front[i] == made[i]);
                }
            }
        }
        match before.0 {
            Some(stage) => {
                let one = advanced(m, stage, made.last());
                stage_has(m, stage, made.last());
                joined_has(before.1, one.1, show);
                joined_has(before.1, one.1, dock);
                joined_has(before.1, one.1, adopt);
                assert((before.1 + one.1).last() == one.1.last());
                assert(worked(made, made.len() as int) == made.last());
            },
            None => {},
        }
    }
}

/// The size that a docked surface asks for (DIP). Neither side may be 0; the layout stretches the other.
pub open spec fn size_wanted(state: Shell, surface: Surface) -> (i32, i32) {
    match surface {
        Surface::Sidebar => (state.sidebar_width, 1i32),
        Surface::Topbar => (1i32, TOPBAR_HEIGHT),
        Surface::Empty => (1i32, 1i32),
    }
}

/// The size that a docked surface asks for (DIP). Neither side may be 0; the layout stretches the other.
pub fn preferred_size(state: &Shell, surface: Surface) -> (r: (i32, i32))
    ensures
        r == size_wanted(*state, surface),
        r == (match surface {
            Surface::Sidebar => (state.sidebar_width, 1i32),
            Surface::Topbar => (1i32, TOPBAR_HEIGHT),
            Surface::Empty => (1i32, 1i32),
        }),
{
    match surface {
        Surface::Sidebar => (state.sidebar_width, 1),
        Surface::Topbar => (1, TOPBAR_HEIGHT),
        Surface::Empty => (1, 1),
    }
}

// ------------------------------------------------------------------------------ looking at the window

/// The color of the frame (ARGB).
pub fn frame_color(state: &Shell) -> (r: u32)
    ensures
        r == state.frame,
{
    state.frame
}

/// The accent color (ARGB).
pub fn accent_color(state: &Shell) -> (r: u32)
    ensures
        r == state.accent,
{
    state.accent
}

/// The theme is dark.
pub fn is_dark(state: &Shell) -> (r: bool)
    ensures
        r == state.dark,
{
    state.dark
}

/// The window is shutting down.
pub fn is_closing(state: &Shell) -> (r: bool)
    ensures
        r == state.closing,
{
    state.closing
}

/// The window is the active one.
pub fn is_active(state: &Shell) -> (r: bool)
    ensures
        r == state.active,
{
    state.active
}

/// The width of the sidebar (DIP), docked or floating.
pub fn sidebar_width(state: &Shell) -> (r: i32)
    ensures
        r == state.sidebar_width,
{
    state.sidebar_width
}

/// The sidebar is parked in the floating sidebar.
pub fn sidebar_parked(state: &Shell) -> (r: bool)
    ensures
        r == state.parked,
{
    state.parked
}

/// The tab in page fullscreen.
pub fn page_fullscreen_tab(state: &Shell) -> (r: Option<u64>)
    ensures
        r == state.page_fullscreen,
{
    state.page_fullscreen
}

/// What brings the window to the front: a minimized one is restored first.
pub fn activate(window: bool, minimized: bool) -> (r: (bool, bool))
    ensures
        r.0 == (window && minimized),
        r.1 == window,
{
    (window && minimized, window)
}

/// The window was activated or deactivated.
pub fn on_window_activation_changed(state: &mut Shell, active: bool)
    ensures
        *final(state) == (Shell { active, ..*old(state) }),
{
    state.active = active;
}

/// The waits and fades around a surface's blank frame (milliseconds).
#[derive(Debug, Clone, Copy, PartialEq, Eq, Structural)]
pub struct Waits {
    pub hide: i64,
    pub park: i64,
    pub toast: i64,
    pub switcher: i64,
    pub fade: i64,
    pub chrome: i64,
}

/// The motion settings as they look from outside.
#[derive(Debug, Clone, Copy, PartialEq, Eq, Structural)]
pub struct MotionSnapshot {
    /// The setting as last read from the system.
    pub system_animations: Option<bool>,
    pub waits: Waits,
    pub chrome_calls: u64,
    pub chrome_delayed: u64,
    pub reads: u64,
    pub changes: u64,
    pub messages: u64,
}

/// The motion settings as they look from outside.
pub fn motion_snapshot(state: &Shell, waits: Waits) -> (r: MotionSnapshot)
    ensures
        r == (MotionSnapshot {
            system_animations: state.system_animations,
            waits,
            chrome_calls: state.chrome_calls,
            chrome_delayed: state.chrome_delayed,
            reads: state.reads,
            changes: state.changes,
            messages: state.messages,
        }),
{
    MotionSnapshot {
        system_animations: state.system_animations,
        waits,
        chrome_calls: state.chrome_calls,
        chrome_delayed: state.chrome_delayed,
        reads: state.reads,
        changes: state.changes,
        messages: state.messages,
    }
}

// ------------------------------------------------------------------------------ what holds

/// The content stands 8 from the bottom and the right, and 8 from the left where no docked sidebar is; a
/// page in fullscreen has no distance from any edge.
pub proof fn the_content_keeps_its_distance(m: Shell)
    ensures
        m.page_fullscreen is Some ==> m.insets() == (Insets { top: 0, left: 0, bottom: 0, right: 0 }),
        m.page_fullscreen is None && m.parked ==> m.insets() == (Insets { top: 0, left: 8, bottom: 8, right: 8 }),
        m.page_fullscreen is None && !m.parked ==> m.insets() == (Insets { top: 0, left: 0, bottom: 8, right: 8 }),
{
}

/// A sidebar that is wanted in the window comes back into it, is told that its contents are on screen, and
/// takes the focus if it was open beside the window for a panel that holds input.
pub proof fn a_wanted_sidebar_is_docked(m: Shell, a: Around, allow_fade: bool)
    requires
        a.views,
        m.sidebar_visible,
        m.parked,
    ensures
        ({
            let (after, effects) = m.placed(a, allow_fade);
            &&& !after.parked && after.panel_dock == a.hidden_by_setting
            &&& effects.contains(Effect::ReleaseSidebar) && effects.contains(Effect::AddSidebar)
            &&& effects.contains(Effect::Docked) && effects.contains(Effect::EmitContents)
            &&& effects.contains(Effect::FocusSidebarLater) == (a.floating_visible && a.panel_wants_keys)
            &&& !effects.contains(Effect::RemoveSidebar) && !effects.contains(Effect::AdoptSidebar)
            &&& effects.last() == (Effect::ShowSidebar { visible: m.page_fullscreen is None })
        }),
{
    reveal(Shell::placed);
    let effects = m.placed(a, allow_fade).1;
    assert(effects[0] == Effect::ReleaseSidebar && effects[1] == Effect::AddSidebar && effects[2] == Effect::Docked && effects[3]
        == Effect::EmitContents);
    if a.floating_visible && a.panel_wants_keys {
        assert(effects[4] == Effect::FocusSidebarLater);
    }
}

/// A sidebar that is not wanted in the window leaves it: at once, or after its page has hidden its contents
/// where it is on screen, ready, and nobody is about to use it beside the window.
pub proof fn an_unwanted_sidebar_is_parked(m: Shell, a: Around, allow_fade: bool)
    requires
        a.views,
        !m.sidebar_visible,
        !m.parked,
        !m.park_pending,
    ensures
        ({
            let (after, effects) = m.placed(a, allow_fade);
            let waits = allow_fade && m.page_fullscreen is None && a.ready && !m.closing && !a.minimized && !(m.panel_dock && a.pointer_in_keep_zone);
            &&& after.parked == !waits && after.park_pending == waits
            &&& waits ==> after.park_gen != m.park_gen && effects.contains((Effect::BeginExit { generation: after.park_gen }))
            &&& effects.contains(Effect::RemoveSidebar) == !waits && effects.contains(Effect::AdoptSidebar) == !waits
            &&& !waits ==> effects.contains((Effect::Parked { after_panel: m.panel_dock })) && !after.panel_dock
            &&& effects.contains(Effect::RestoreFocusLater) == (!waits && a.had_focus)
            &&& effects.last() == (Effect::ShowSidebar { visible: !waits || m.page_fullscreen is None })
        }),
{
    reveal(Shell::placed);
    let (after, effects) = m.placed(a, allow_fade);
    let waits = allow_fade && m.page_fullscreen is None && a.ready && !m.closing && !a.minimized && !(m.panel_dock && a.pointer_in_keep_zone);
    if waits {
        assert(effects[0] == (Effect::BeginExit { generation: after.park_gen }));
    } else {
        assert(effects[0] == Effect::RemoveSidebar && effects[1] == Effect::AdoptSidebar);
        if a.had_focus {
            assert(effects[2] == Effect::RestoreFocusLater);
            assert(effects[3] == (Effect::Parked { after_panel: m.panel_dock }));
        } else {
            assert(effects[2] == (Effect::Parked { after_panel: m.panel_dock }));
        }
    }
}

/// A sidebar that is where it is wanted stays there; one that was about to leave is called back.
pub proof fn a_placed_sidebar_stays(m: Shell, a: Around, allow_fade: bool)
    requires
        m.sidebar_visible == !m.parked,
    ensures
        !a.views ==> m.placed(a, allow_fade) == (m, Seq::<Effect>::empty()),
        a.views && !(m.sidebar_visible && m.park_pending) ==> m.placed(a, allow_fade) == (
            m,
            seq![(Effect::ShowSidebar { visible: m.parked || m.page_fullscreen is None })],
        ),
        a.views && m.sidebar_visible && m.park_pending ==> {
            let (after, effects) = m.placed(a, allow_fade);
            &&& !after.park_pending && after.park_gen != m.park_gen && !after.parked
            &&& effects.contains(Effect::CancelExit) && effects.contains(Effect::EmitContents)
        },
{
    reveal(Shell::placed);
    let effects = m.placed(a, allow_fade).1;
    if a.views && m.sidebar_visible && m.park_pending {
        assert(effects[0] == Effect::CancelExit && effects[1] == Effect::EmitContents);
    } else if a.views {
        assert(effects =~= seq![(Effect::ShowSidebar { visible: m.parked || m.page_fullscreen is None })]);
    }
}

/// Wherever the sidebar went, the window is laid out for it: the content frame with its distances, the
/// window, the overlays; the draggable areas are due, once; and the floating sidebar is looked at last.
pub proof fn a_placed_sidebar_is_laid_out(m: Shell, a: Around, allow_fade: bool)
    requires
        a.views,
    ensures
        ({
            let (after, effects) = m.arranged(a, allow_fade);
            &&& effects.contains((Effect::RelayoutFrame { insets: after.insets() }))
            &&& effects.contains(Effect::InvalidateSidebar) && effects.contains(Effect::LayoutWindow) && effects.contains(Effect::LayoutOverlays)
            &&& effects.last() == Effect::RefreshHover
            &&& after.regions_pending
            &&& !m.regions_pending ==> effects.contains(Effect::ApplyRegionsLater)
        }),
{
    reveal(Shell::placed);
    let one = m.placed(a, allow_fade);
    let (after, effects) = m.arranged(a, allow_fade);
    let n = one.1.len() as int;
    assert(effects[n] == Effect::InvalidateSidebar);
    assert(effects[n + 1] == (Effect::RelayoutFrame { insets: after.insets() }));
    assert(effects[n + 2] == Effect::LayoutWindow && effects[n + 3] == Effect::LayoutOverlays);
    if !m.regions_pending {
        assert(effects[n + 4] == Effect::ApplyRegionsLater);
    }
}

/// A page that goes into fullscreen has the window for itself: the top bar goes, the distances go, the
/// window fills the screen if it did not; when it leaves, the top bar and the content come back.
pub proof fn page_fullscreen_takes_the_window(m: Shell, a: Around, fullscreen: bool, tab: Option<u64>)
    requires
        m.page_fullscreen != tab,
    ensures
        m.page_filled(a, false, fullscreen, tab) == (m, Seq::<Effect>::empty()),
        m.page_filled(a, true, fullscreen, m.page_fullscreen) == (m, Seq::<Effect>::empty()),
        ({
            let (after, effects) = m.page_filled(a, true, fullscreen, tab);
            &&& after.page_fullscreen == tab
            &&& effects.contains((Effect::ShowTopbar { visible: tab is None })) && effects.contains((Effect::FillContent { tab }))
            &&& tab is Some ==> effects.contains((Effect::RelayoutFrame { insets: (Insets { top: 0, left: 0, bottom: 0, right: 0 }) }))
            &&& tab is None && !after.parked ==> effects.contains((Effect::RelayoutFrame { insets: (Insets { top: 0, left: 0, bottom: 8, right: 8 }) }))
            &&& tab is Some ==> effects.contains((Effect::SetFullscreen { on: true })) == !fullscreen
            &&& tab is Some ==> !effects.contains((Effect::SetFullscreen { on: false }))
            &&& effects.contains(Effect::LayoutMasks) && effects.contains(Effect::LayoutOverlays) && effects.contains(Effect::LayoutWindow)
            &&& effects.last() == Effect::RefreshHover
            &&& m.page_fullscreen is None ==> after.fullscreen_before_page == fullscreen
            &&& m.page_fullscreen is Some ==> after.fullscreen_before_page == m.fullscreen_before_page
        }),
{
    let before = if m.page_fullscreen is None { fullscreen } else { m.fullscreen_before_page };
    let mid = (Shell { page_fullscreen: tab, fullscreen_before_page: before, ..m });
    placing_keeps(mid, a, true);
    let one = mid.placed(a, true);
    let two = one.0.scheduled();
    let effects = m.page_filled(a, true, fullscreen, tab).1;
    let n = one.1.len() as int + (if a.views { 1int } else { 0 });
    assert(effects[n] == (Effect::ShowTopbar { visible: tab is None }));
    assert(effects[n + 1] == (Effect::FillContent { tab }));
    assert(effects[n + 2] == (Effect::RelayoutFrame { insets: one.0.insets() }));
    let set = window_filled(tab, before, fullscreen);
    let k = n + 3 + set.len() as int;
    assert(effects[k] == Effect::LayoutWindow && effects[k + 1] == Effect::LayoutMasks && effects[k + 2] == Effect::LayoutOverlays);
    if tab is Some {
        if !fullscreen {
            assert(effects[n + 3] == (Effect::SetFullscreen { on: true }));
        }
        assert forall|i: int| 0 <= i < effects.len() && #[trigger] effects[i] is SetFullscreen implies !fullscreen && i == n + 3 by {
            if i < one.1.len() {
                assert(effects[i] == one.1[i]);
            } else if i < n + 3 {
                assert(effects[i] == around_content(a, tab, one.0.insets())[i - one.1.len()]);
            } else if i >= k {
                assert(effects[i] == (seq![Effect::LayoutWindow, Effect::LayoutMasks, Effect::LayoutOverlays] + two.1 + seq![Effect::RefreshHover])[i
                    - k]);
            }
        }
    }
}

/// A side of a window that is brought into a work area keeps its length where it fits, and moves no further
/// than it has to: what reached over an edge ends at that edge.
pub proof fn a_window_moves_no_further_than_needed(at: int, size: int, area: int, area_size: int, smallest: int)
    requires
        area_size >= 1,
        smallest >= 1,
    ensures
        ({
            let (to, fit) = clamped_side(at, size, area, area_size, smallest);
            &&& smallest <= size <= area_size ==> fit == size
            &&& size < smallest <= area_size ==> fit == smallest
            &&& size > area_size || smallest > area_size ==> fit == area_size
            &&& at < area ==> to == area
            &&& at >= area && at + fit > area + area_size ==> to + fit == area + area_size
            &&& at >= area && at + fit <= area + area_size ==> to == at
        }),
{
}

/// A new window stands in the middle of the screen, as large as it likes to be where a margin is left, and
/// never smaller than a window may be.
pub proof fn a_new_window_stands_in_the_middle(area: int, area_size: int, preferred: int, margin: int, smallest: int)
    ensures
        ({
            let (at, size) = centered_side(area, area_size, preferred, margin, smallest);
            let before = at - area;
            let behind = area + area_size - (at + size);
            &&& -1 <= behind - before <= 1
            &&& size >= smallest
            &&& area_size - margin >= preferred >= smallest ==> size == preferred
            &&& smallest <= area_size - margin < preferred ==> size == area_size - margin
            &&& area_size - margin < smallest ==> size >= smallest && size == smallest
        }),
        default_area() == (Rect { x: 0, y: 0, width: 1920, height: 1040 }),
{
}

/// The width of the sidebar stays within its limits, and is what was asked for where that is within them.
pub proof fn the_sidebar_width_stays_within_its_limits(limits: Limits, width: u32)
    requires
        limits.min <= limits.max,
    ensures
        limits.min <= limits.clamped(width) <= limits.max,
        limits.min <= width <= limits.max ==> limits.clamped(width) == width,
        width < limits.min ==> limits.clamped(width) == limits.min,
        width > limits.max ==> limits.clamped(width) == limits.max,
{
}

/// A view inside another one lies where that one lies, moved by its own place in it; the window itself lies
/// at the origin, and what an overlay holds lies where the overlay is.
pub proof fn a_view_lies_inside_its_parent(child: Chain, parent: Chain)
    requires
        !child.is_window,
        child.above@ == seq![(Ancestor { bounds: parent.bounds, is_window: parent.is_window })] + parent.above@,
        child.root_origin == parent.root_origin,
        parent.is_window ==> parent.above@.len() == 0,
    ensures
        parent.is_window ==> origin_in_window(parent) == (0int, 0int) && origin_in_window(child) == (child.bounds.x as int, child.bounds.y as int),
        !parent.is_window && (parent.above@.len() > 0 || parent.root_origin is Some) ==> {
            &&& origin_in_window(child).0 == child.bounds.x + origin_in_window(parent).0
            &&& origin_in_window(child).1 == child.bounds.y + origin_in_window(parent).1
        },
        parent.above@.len() == 0 && !parent.is_window && parent.root_origin is Some ==> origin_in_window(parent) == (
            (parent.root_origin->0).0 as int,
            (parent.root_origin->0).1 as int,
        ),
{
    let above = child.above@;
    assert(above.skip(1) =~= parent.above@);
    moves_alike(parent.above@, above, parent.root_origin, 0);
}

proof fn moves_alike(rest: Seq<Ancestor>, above: Seq<Ancestor>, root_origin: Option<(i32, i32)>, i: int)
    requires
        above.len() == rest.len() + 1,
        above.skip(1) == rest,
        0 <= i,
    ensures
        moved_by(above, root_origin, i + 1) == moved_by(rest, root_origin, i),
    decreases rest.len() - i,
{
    if i < rest.len() {
        assert(above.skip(1)[i] == above[i + 1]);
        moves_alike(rest, above, root_origin, i + 1);
    }
}

/// The point lies in the rectangle (left and top included, right and bottom not).
pub open spec fn has_point(r: Rect, x: int, y: int) -> bool {
    r.x <= x < r.x + r.width && r.y <= y < r.y + r.height
}

/// A point of the window belongs to an area of a view exactly if it lies in the view and, seen from the
/// view, in the area; whether it can be dragged is as the page said.
pub proof fn a_draggable_area_is_where_the_page_has_it(r: Region, view: Rect, x: int, y: int)
    requires
        reachable(view),
    ensures
        (has_point(view, x, y) && has_point(r.bounds, x - view.x, y - view.y)) <==> (region_in_window(r, view) is Some && has_point(
            region_in_window(r, view)->0.bounds,
            x,
            y,
        )),
        region_in_window(r, view) is Some ==> region_in_window(r, view)->0.draggable == r.draggable,
{
}

/// No area is lost on the way, and an overlay that is visible is a hole: nothing under it can be dragged.
pub proof fn every_area_is_applied(list: Seq<Region>, view: Rect, overlays: Seq<Rect>, k: int)
    requires
        0 <= k < list.len(),
        region_in_window(list[k], view) is Some,
    ensures
        regions_in_window(list, view, 0).contains(region_in_window(list[k], view)->0),
        holes(overlays).len() == overlays.len(),
        forall|i: int| 0 <= i < overlays.len() ==> (#[trigger] holes(overlays)[i]).bounds == overlays[i] && !holes(overlays)[i].draggable,
{
    areas_from(list, view, 0, k);
}

proof fn areas_from(list: Seq<Region>, view: Rect, i: int, k: int)
    requires
        0 <= i <= k < list.len(),
        region_in_window(list[k], view) is Some,
    ensures
        regions_in_window(list, view, i).contains(region_in_window(list[k], view)->0),
    decreases k - i,
{
    let all = regions_in_window(list, view, i);
    let q = region_in_window(list[k], view)->0;
    if i == k {
        assert(all[0] == q);
    } else {
        areas_from(list, view, i + 1, k);
        let rest = regions_in_window(list, view, i + 1);
        let at = choose|at: int| 0 <= at < rest.len() && rest[at] == q;
        if region_in_window(list[i], view) is Some {
            assert(all[at + 1] == q);
        }
    }
}

/// A color that was sent is taken, and made opaque; one that was not sent is the theme's.
pub proof fn a_sent_color_is_made_opaque(sent: u32, derived: u32)
    ensures
        sent != 0 ==> picked(sent, derived) % 0x100_0000 == sent % 0x100_0000 && picked(sent, derived) / 0x100_0000 == 0xFF,
        sent == 0 ==> picked(sent, derived) == derived,
{
    assert((sent | 0xFF00_0000) % 0x100_0000 == sent % 0x100_0000 && (sent | 0xFF00_0000) / 0x100_0000 == 0xFF) by (bit_vector);
}

/// How the window is put together: the sidebar and the rest side by side in it, the top bar above the
/// content, the content inside its frame and the panes side by side; everything in the color of the frame.
pub proof fn the_window_is_put_together(m: Shell)
    ensures
        begun(m, false).1.contains((BuildStep::SetBox { part: Part::Window, horizontal: true })),
        begun(m, false).1.contains((BuildStep::Paint { part: Part::Window, color: m.frame })),
        begun(m, false).1.contains((BuildStep::ApplyChrome { dark: m.dark })),
        begun(m, true).1 == seq![(BuildStep::Fatal { error: StartupError::Forced })] && begun(m, true).0 is None,
        advanced(m, Stage::Right, true).1.contains((BuildStep::SetBox { part: Part::Right, horizontal: false })),
        advanced(m, Stage::Right, true).1.contains((BuildStep::AddChild { parent: Part::Window, child: Part::Right })),
        advanced(m, Stage::Right, true).1.contains((BuildStep::Flex { parent: Part::Window, child: Part::Right })),
        advanced(m, Stage::Topbar, true).1.contains((BuildStep::AddChild { parent: Part::Right, child: Part::Topbar })),
        advanced(m, Stage::ContentFrame, true).1.contains((BuildStep::AddChild { parent: Part::Right, child: Part::ContentFrame })),
        advanced(m, Stage::ContentFrame, true).1.contains((BuildStep::Flex { parent: Part::Right, child: Part::ContentFrame })),
        advanced(m, Stage::Content, true).1.contains((BuildStep::SetBox { part: Part::Content, horizontal: true })),
        advanced(m, Stage::Content, true).1.contains((BuildStep::AddChild { parent: Part::ContentFrame, child: Part::Content })),
        advanced(m, Stage::Content, true).1.contains((BuildStep::RelayoutFrame { insets: m.insets() })),
        advanced(m, Stage::Empty, true).1.contains((BuildStep::AddChild { parent: Part::Content, child: Part::Empty })),
        advanced(m, Stage::Empty, true).1.contains(BuildStep::CreateMasks) && advanced(m, Stage::Empty, true).1.contains(BuildStep::CreateHosts),
        advanced(m, Stage::Browsers, true).1.contains(BuildStep::StartUp) && advanced(m, Stage::Browsers, true).1.contains(BuildStep::StartTick),
        advanced(m, Stage::Browsers, true).1.contains(BuildStep::SetTitle) && advanced(m, Stage::Browsers, true).1.contains(BuildStep::SetIcons),
        advanced(m, Stage::Browsers, true).1.contains(BuildStep::InstallAccelerators),
{
    let a = begun(m, false).1;
    assert(a[0] == (BuildStep::ApplyChrome { dark: m.dark }) && a[1] == (BuildStep::Paint { part: Part::Window, color: m.frame }) && a[2]
        == (BuildStep::SetBox { part: Part::Window, horizontal: true }));
    let b = advanced(m, Stage::Right, true).1;
    assert(b[1] == (BuildStep::SetBox { part: Part::Right, horizontal: false }) && b[2] == (BuildStep::AddChild {
        parent: Part::Window,
        child: Part::Right,
    }) && b[3] == (BuildStep::Flex { parent: Part::Window, child: Part::Right }));
    let c = advanced(m, Stage::Topbar, true).1;
    assert(c[0] == (BuildStep::AddChild { parent: Part::Right, child: Part::Topbar }));
    let d = advanced(m, Stage::ContentFrame, true).1;
    assert(d[1] == (BuildStep::AddChild { parent: Part::Right, child: Part::ContentFrame }) && d[2] == (BuildStep::Flex {
        parent: Part::Right,
        child: Part::ContentFrame,
    }));
    let e = advanced(m, Stage::Content, true).1;
    assert(e[1] == (BuildStep::SetBox { part: Part::Content, horizontal: true }) && e[2] == (BuildStep::AddChild {
        parent: Part::ContentFrame,
        child: Part::Content,
    }) && e[3] == (BuildStep::RelayoutFrame { insets: m.insets() }));
    let f = advanced(m, Stage::Empty, true).1;
    assert(f[0] == (BuildStep::AddChild { parent: Part::Content, child: Part::Empty }) && f[2] == BuildStep::CreateMasks && f[3]
        == BuildStep::CreateHosts);
    let g = advanced(m, Stage::Browsers, true).1;
    assert(g[0] == BuildStep::InstallAccelerators && g[1] == BuildStep::SetIcons && g[2] == BuildStep::SetTitle && g[3] == BuildStep::StartUp && g[5]
        == BuildStep::StartTick);
}

/// Building waits for one part after the other, and says of each that could not be created which one it was.
pub proof fn building_names_what_failed(m: Shell)
    ensures
        begun(m, false).0 == Some(Stage::Sidebar) && begun(m, false).1.last() == (BuildStep::Create { part: Part::Sidebar }),
        advanced(m, Stage::Sidebar, true).0 == Some(Stage::Right) && advanced(m, Stage::Sidebar, true).1.last() == (BuildStep::Create {
            part: Part::Right,
        }),
        advanced(m, Stage::Right, true).0 == Some(Stage::Topbar) && advanced(m, Stage::Right, true).1.last() == (BuildStep::Create {
            part: Part::Topbar,
        }),
        advanced(m, Stage::Topbar, true).0 == Some(Stage::ContentFrame) && advanced(m, Stage::Topbar, true).1.last() == (BuildStep::Create {
            part: Part::ContentFrame,
        }),
        advanced(m, Stage::ContentFrame, true).0 == Some(Stage::Content) && advanced(m, Stage::ContentFrame, true).1.last() == (BuildStep::Create {
            part: Part::Content,
        }),
        advanced(m, Stage::Content, true).0 == Some(Stage::Empty) && advanced(m, Stage::Content, true).1.last() == (BuildStep::Create {
            part: Part::Empty,
        }),
        advanced(m, Stage::Empty, true).0 == Some(Stage::Browsers) && advanced(m, Stage::Empty, true).1.last() == BuildStep::CheckBrowsers,
        advanced(m, Stage::Browsers, true).0 is None,
        advanced(m, Stage::Sidebar, false).1 == seq![(BuildStep::Fatal { error: StartupError::Sidebar })],
        advanced(m, Stage::Right, false).1 == seq![(BuildStep::Fatal { error: StartupError::Panel })],
        advanced(m, Stage::Topbar, false).1 == seq![(BuildStep::Fatal { error: StartupError::Topbar })],
        advanced(m, Stage::ContentFrame, false).1 == seq![(BuildStep::Fatal { error: StartupError::Panel })],
        advanced(m, Stage::Content, false).1 == seq![(BuildStep::Fatal { error: StartupError::Panel })],
        advanced(m, Stage::Empty, false).1 == seq![(BuildStep::Fatal { error: StartupError::Empty })],
        advanced(m, Stage::Browsers, false).1 == seq![(BuildStep::Fatal { error: StartupError::Browser })],
        StartupError::Forced.text() == "startup failure forced by STA_DEBUG_FAIL_STARTUP"@,
        StartupError::Window.text() == "the main window could not be created"@,
        StartupError::Sidebar.text() == "the sidebar view could not be created"@,
        StartupError::Panel.text() == "panel_create failed"@,
        StartupError::Topbar.text() == "the top bar view could not be created"@,
        StartupError::Empty.text() == "the empty-state view could not be created"@,
        StartupError::Browser.text() == "a UI browser could not be created"@,
{
}

/// The measures of the window.
pub proof fn the_measures_of_the_window()
    ensures
        TOPBAR_HEIGHT == 40,
        CONTENT_INSET == 8,
        MIN_WIDTH == 640,
        MIN_HEIGHT == 420,
        SHUTDOWN_TIMEOUT_MS == 8_000,
{
}

/// A window at startup: the sidebar docked and nothing pending, in the colors that pages start with.
pub proof fn a_window_starts_docked(sidebar_width: i32)
    ensures
        ({
            let m = Shell::resting(sidebar_width);
            &&& m.sidebar_visible && !m.parked && !m.park_pending && !m.sidebar_floating && !m.panel_dock
            &&& m.page_fullscreen is None && !m.closing && !m.active && !m.regions_pending && m.last_report is None
            &&& m.frame == 0xFF26222E && m.accent == 0xFF7B5CD6 && !m.dark
            &&& m.sidebar_width == sidebar_width
        }),
{
}

/// A sidebar that is docked is taken from its overlay and added to the window, and then the page is told; it gets
/// the focus later where the floating one had the keys.
pub proof fn docking_adds_the_sidebar_to_the_window(s: Shell, a: Around)
    ensures
        ({
            let r = s.dock(a);
            &&& !r.0.parked && r.0.panel_dock == a.hidden_by_setting
            &&& r.1.len() >= 4
            &&& r.1[0] == Effect::ReleaseSidebar && r.1[1] == Effect::AddSidebar && r.1[2] == Effect::Docked && r.1[3] == Effect::EmitContents
            &&& a.floating_visible && a.panel_wants_keys ==> r.1.len() == 5 && r.1[4] == Effect::FocusSidebarLater
            &&& !(a.floating_visible && a.panel_wants_keys) ==> r.1.len() == 4
        }),
{
}

/// A surface has draggable areas where it has a page that named some and a view that is drawn.
pub proof fn areas_need_a_page_and_a_view(list: Vec<Region>, view: Rect)
    ensures
        surface_regions(Some(list), Some(view)) == regions_in_window(list@, view, 0),
        surface_regions(None, Some(view)).len() == 0,
        surface_regions(Some(list), None).len() == 0,
{
}

/// A window that is maximized is restored and one that is not is maximized; the key for fullscreen leaves a page's
/// fullscreen first, and else turns the window's own around.
pub proof fn window_actions_turn_their_state_around(state: Shell, maximized: bool, fullscreen: bool)
    ensures
        action_effect(state, WindowAction::ToggleMaximize, true, fullscreen) == Effect::Restore,
        action_effect(state, WindowAction::ToggleMaximize, false, fullscreen) == Effect::Maximize,
        action_effect(state, WindowAction::Minimize, maximized, fullscreen) == Effect::Minimize,
        action_effect(state, WindowAction::Close, maximized, fullscreen) == Effect::RequestClose,
        state.page_fullscreen is Some ==> action_effect(state, WindowAction::ToggleFullscreen, maximized, fullscreen) == (Effect::ExitPageFullscreen {
            tab: state.page_fullscreen->0,
        }),
        state.page_fullscreen is None ==> action_effect(state, WindowAction::ToggleFullscreen, maximized, true) == (Effect::SetFullscreen { on: false }),
        state.page_fullscreen is None ==> action_effect(state, WindowAction::ToggleFullscreen, maximized, false) == (Effect::SetFullscreen { on: true }),
{
}

/// The focus falls back on the empty state, then on a sidebar that is docked, then on the topbar, and on nothing
/// that is not there.
pub proof fn the_focus_falls_back_on_what_is_there(state: Shell, sidebar: bool, topbar: bool)
    ensures
        fallback_surface(state, true, sidebar, topbar) == Some(Surface::Empty),
        !state.parked ==> fallback_surface(state, false, true, topbar) == Some(Surface::Sidebar),
        fallback_surface(state, false, false, true) == Some(Surface::Topbar),
        state.parked ==> fallback_surface(state, false, sidebar, true) == Some(Surface::Topbar),
        fallback_surface(state, false, false, false) is None,
        state.parked ==> fallback_surface(state, false, sidebar, false) is None,
{
}

/// A window closes once it is closing and its last browser is gone; before that a close is asked for, or the
/// shutdown waited for.
pub proof fn a_window_closes_when_its_browsers_are_gone(state: Shell, open_browsers: usize, shutting_down: bool)
    ensures
        close_answer(state, open_browsers, shutting_down).0 <==> state.closing && open_browsers == 0,
        state.closing ==> close_answer(state, open_browsers, shutting_down).1 is None,
        !state.closing && shutting_down ==> close_answer(state, open_browsers, shutting_down).1 == Some(Effect::ShutDownLater),
        !state.closing && !shutting_down ==> close_answer(state, open_browsers, shutting_down).1 == Some(Effect::RequestClose),
{
}

/// A shutdown begins once. The browsers are closed last, and the way out is prepared before that; downloads, tools
/// and what belongs to extensions go before the browsers.
pub proof fn a_shutdown_closes_the_browsers_last(state: Shell, timeout_ms: i64)
    ensures
        state.closing ==> shutdown_effects(state, timeout_ms).len() == 0,
        !state.closing ==> {
            let e = shutdown_effects(state, timeout_ms);
            &&& e.len() == 8
            &&& e.last() == Effect::CloseBrowsers
            &&& e[6] == (Effect::ExitLater { after_ms: timeout_ms })
            &&& e[0] == Effect::RefreshHover
            &&& e[1] == Effect::CancelDownloads && e[2] == Effect::CloseTools && e[3] == Effect::CloseExtensionPopup && e[4] == Effect::CloseExtensionBackend
                && e[5] == Effect::CloseForeign
        },
{
}

/// A sidebar that is parked is taken from its overlay, any other view from its parent where it has one.
pub proof fn a_view_is_taken_from_what_holds_it(state: Shell, surface: Surface, parent: bool)
    ensures
        release_of(state, surface, parent, false) is Nothing,
        state.parked ==> release_of(state, Surface::Sidebar, parent, true) is FromFloating,
        !state.parked && parent ==> release_of(state, Surface::Sidebar, parent, true) is FromParent,
        surface != Surface::Sidebar && parent ==> release_of(state, surface, parent, true) is FromParent,
        surface != Surface::Sidebar && !parent ==> release_of(state, surface, parent, true) is Nothing,
        !state.parked && !parent ==> release_of(state, surface, parent, true) is Nothing,
{
}

/// The sidebar has its width, the topbar its height of forty, and the rest is given by the layout.
pub proof fn surfaces_ask_for_their_size(state: Shell)
    ensures
        size_wanted(state, Surface::Sidebar) == (state.sidebar_width, 1i32),
        size_wanted(state, Surface::Topbar) == (1i32, 40i32),
        size_wanted(state, Surface::Empty) == (1i32, 1i32),
{
}

/// The bounds of a window are reported only where they are its own: not those of a minimized, maximized or
/// fullscreen one.
pub proof fn only_restored_bounds_are_reported(state: Shell, minimized: bool, maximized: bool, fullscreen: bool, bounds: Rect)
    ensures
        ({
            let r = state_report(state, minimized, maximized, fullscreen, bounds);
            &&& minimized || maximized || fullscreen ==> r.bounds is None
            &&& !minimized && !maximized && !fullscreen ==> r.bounds == Some(bounds)
            &&& r.maximized == maximized && r.fullscreen == fullscreen && r.focused == state.active
        }),
{
}

} // verus!
