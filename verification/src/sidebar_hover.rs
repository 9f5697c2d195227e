//! The hover reveal of the floating sidebar.
//!
//! While the sidebar is hidden, its view is parked in an overlay. [`Machine`] decides from pointer
//! samples when that overlay is shown and hidden; [`Hover`] is the state around it, and its functions
//! say what the shell has to do ([`Effect`]).
//!
//! - reveal: the pointer rests in the left edge zone for [`DWELL_MS`]. A button pressed in the zone or
//!   in the resize band blocks the reveal until it is released; after a park, an Escape or a window
//!   move with the pointer in the zone, the pointer must leave the zone first;
//! - hide: at the first sample outside the keep zone, unless a button is held, the pointer is over a
//!   popup of ours, or the overlay is pinned or locked;
//! - dismiss: a press outside the shown overlay; refocus: a click inside it ended.
//!
//! Pointer positions are counted in half DIP: an even number `2 * n` is exactly `n` DIP, an odd number
//! `2 * n + 1` lies strictly between `n` and `n + 1`. Every limit is a whole number of DIP, so no
//! comparison depends on where in between.
use crate::counter::{bump, next_number};
use crate::json::Json;
use crate::text::{copy_text, decimal, decimal_text, same_text};
use vstd::prelude::*;

verus! {

/// The pointer rests in the edge zone this long before the sidebar appears.
pub const DWELL_MS: i64 = 120;

/// Grace period before a hide once the pointer has left the keep zone: none.
pub const HIDE_MS: i64 = 0;

/// Width of the reveal zone (DIP), measured from the window's left edge inwards.
pub const EDGE_ZONE: i64 = 8;

/// How far outside the window's left edge the reveal zone and the keep zone reach (DIP).
pub const OUTSIDE_SLOP: i64 = 64;

/// Resize band of a restored frameless window (DIP).
pub const RESIZE_BAND: i64 = 4;

/// Keep zone: the overlay bounds grown by this much (DIP)...
pub const KEEP_MARGIN: i64 = 8;

/// ...plus the strip left of this x (DIP).
pub const KEEP_STRIP: i64 = 16;

/// Poll fast while the pointer is this close to the left edge (DIP).
pub const NEAR_EDGE: i64 = 96;

/// Poll interval while the pointer is over the window, near its left edge or the overlay is shown.
pub const FAST_POLL_MS: i64 = 33;

/// Poll interval otherwise.
pub const SLOW_POLL_MS: i64 = 50;

/// Focus is given back this long after a click in the overlay.
pub const REFOCUS_DELAY_MS: i64 = 60;

// ------------------------------------------------------------------------------ samples

/// A rectangle in window client DIP.
#[derive(Debug, Clone, Copy, PartialEq, Eq, Structural)]
pub struct Area {
    pub x: i32,
    pub y: i32,
    pub w: i32,
    pub h: i32,
}

/// One pointer sample.
#[derive(Debug, Clone, Copy, PartialEq, Eq, Structural)]
pub struct Sample {
    /// Pointer position relative to the window's client area (half DIP).
    pub x: i64,
    pub y: i64,
    /// Client area height (DIP).
    pub height: i32,
    /// The top-level window under the pointer is ours.
    pub over_window: bool,
    /// The pointer is over a popup owned by our window (select list, menu).
    pub owned_popup: bool,
    /// A mouse button is held.
    pub buttons: bool,
    /// A button was pressed since the previous sample (catches clicks shorter than the poll).
    pub clicked: bool,
    /// Restored window: the outer [`RESIZE_BAND`] DIP resize the window.
    pub resize_band: bool,
    /// Monotonic milliseconds.
    pub now: i64,
}

impl Area {
    /// The point lies in the rectangle grown by `margin` DIP on every side (left and top included,
    /// right and bottom not).
    pub open spec fn holds(self, x: int, y: int, margin: int) -> bool {
        &&& 2 * (self.x - margin) <= x < 2 * (self.x + self.w + margin)
        &&& 2 * (self.y - margin) <= y < 2 * (self.y + self.h + margin)
    }

    /// The point lies in the rectangle grown by `margin` DIP on every side.
    pub fn contains(&self, x: i64, y: i64, margin: i64) -> (r: bool)
        ensures
            r == self.holds(x as int, y as int, margin as int),
    {
        let (left, top, w, h): (i128, i128, i128, i128) = (self.x as i128, self.y as i128, self.w as i128, self.h as i128);
        let (x, y, margin): (i128, i128, i128) = (x as i128, y as i128, margin as i128);
        x >= 2 * (left - margin) && x < 2 * (left + w + margin) && y >= 2 * (top - margin) && y < 2 * (top + h + margin)
    }
}

impl Sample {
    /// Between the top and the bottom of the client area.
    pub open spec fn in_height(self) -> bool {
        0 <= self.y < 2 * self.height
    }

    /// The reveal zone at the left window edge: from [`EDGE_ZONE`] DIP inside the window (plus the
    /// resize band of a restored one) out to [`OUTSIDE_SLOP`] DIP beyond its edge; inside the window
    /// only where no other window covers it.
    pub open spec fn edge_zone(self) -> bool {
        &&& self.in_height()
        &&& self.x < 2 * (if self.resize_band { RESIZE_BAND + EDGE_ZONE } else { EDGE_ZONE as int })
        &&& (if self.x >= 0 { self.over_window } else { self.x >= -2 * OUTSIDE_SLOP })
    }

    /// The left resize band of a restored window.
    pub open spec fn band(self) -> bool {
        self.resize_band && self.over_window && self.x < 2 * RESIZE_BAND && self.in_height()
    }

    /// Where the shown overlay stays open: the overlay with its margin, the strip at the left edge, and
    /// the slop outside the window.
    pub open spec fn keep_zone(self, overlay: Area) -> bool {
        &&& self.in_height()
        &&& (if self.x < 0 {
            self.x >= -2 * OUTSIDE_SLOP
        } else {
            self.over_window && (overlay.holds(self.x as int, self.y as int, KEEP_MARGIN as int) || self.x < 2 * KEEP_STRIP)
        })
    }

    /// Close to the window's left edge, on either side of it.
    pub open spec fn near(self) -> bool {
        -2 * NEAR_EDGE < self.x < 2 * NEAR_EDGE && -2 * NEAR_EDGE < self.y < 2 * (self.height + NEAR_EDGE)
    }

    /// A pointer that is nowhere near the window (pointer reveal disabled, no cursor).
    pub fn nowhere(now: i64) -> (r: Sample)
        ensures
            r == Sample::away(now),
            !r.edge_zone(),
            forall|overlay: Area| !r.keep_zone(overlay),
    {
        Sample {
            x: -2_000_000,
            y: -2_000_000,
            height: 0,
            over_window: false,
            owned_popup: false,
            buttons: false,
            clicked: false,
            resize_band: false,
            now,
        }
    }

    /// In the reveal zone at the left window edge.
    pub fn in_edge_zone(&self) -> (r: bool)
        ensures
            r == self.edge_zone(),
    {
        if self.y < 0 || self.y >= 2 * self.height as i64 {
            return false;
        }
        let inner: i64 = if self.resize_band { RESIZE_BAND + EDGE_ZONE } else { EDGE_ZONE };
        if self.x >= 2 * inner {
            return false;
        }
        if self.x >= 0 { self.over_window } else { self.x >= -2 * OUTSIDE_SLOP }
    }

    /// In the left resize band of a restored window.
    pub fn in_resize_band(&self) -> (r: bool)
        ensures
            r == self.band(),
    {
        self.resize_band && self.over_window && self.x < 2 * RESIZE_BAND && self.y >= 0 && self.y < 2 * self.height as i64
    }

    /// Where the shown overlay stays open.
    pub fn in_keep_zone(&self, overlay: &Area) -> (r: bool)
        ensures
            r == self.keep_zone(*overlay),
    {
        if self.y < 0 || self.y >= 2 * self.height as i64 {
            return false;
        }
        if self.x < 0 {
            return self.x >= -2 * OUTSIDE_SLOP;
        }
        self.over_window && (overlay.contains(self.x, self.y, KEEP_MARGIN) || self.x < 2 * KEEP_STRIP)
    }
}

// ------------------------------------------------------------------------------ the machine

/// What a step of the machine asks for.
#[derive(Debug, Clone, Copy, PartialEq, Eq, Structural)]
pub enum Action {
    Nothing,
    Show,
    /// Hide (the page closes its menus first).
    Hide,
    /// A press outside the shown overlay: close the page's menus and a transient panel.
    Dismiss,
    /// A click inside the shown overlay ended: give keyboard focus back.
    Refocus,
}

/// Hover reveal state machine.
#[derive(Debug, Clone, Copy, PartialEq, Eq, Structural)]
pub struct Machine {
    /// The overlay is (being) shown.
    pub visible: bool,
    /// Core keeps it open (a transient panel is open).
    pub pinned: bool,
    /// The sidebar page keeps it open (a menu, popover or drag is open).
    pub locked: bool,
    /// The pointer must leave the edge zone before the next reveal.
    pub needs_exit: bool,
    /// A click that started inside the overlay was released as it hid: the focus hand-back is still
    /// owed, because only one action can be returned per sample.
    pub refocus_owed: bool,
    pub dwell_since: Option<i64>,
    pub outside_since: Option<i64>,
    /// The held button was pressed inside the edge zone or the resize band left of it.
    pub press_in_zone: bool,
    /// The held button was pressed inside the shown overlay.
    pub press_in_overlay: bool,
    pub prev_buttons: Option<bool>,
    pub last_in_zone: bool,
}

impl Default for Machine {
    fn default() -> (r: Machine)
        ensures
            r == Machine::resting(),
    {
        Machine {
            visible: false,
            pinned: false,
            locked: false,
            needs_exit: false,
            refocus_owed: false,
            dwell_since: None,
            outside_since: None,
            press_in_zone: false,
            press_in_overlay: false,
            prev_buttons: None,
            last_in_zone: false,
        }
    }
}

/// A whole click between two samples.
pub open spec fn missed_click(m: Machine, s: Sample) -> bool {
    s.clicked && !s.buttons && m.prev_buttons != Some(true)
}

/// A button went down since the previous sample.
pub open spec fn pressed(m: Machine, s: Sample) -> bool {
    (s.buttons && m.prev_buttons != Some(true)) || missed_click(m, s)
}

/// A button went up since the previous sample.
pub open spec fn released(m: Machine, s: Sample) -> bool {
    (!s.buttons && m.prev_buttons == Some(true)) || missed_click(m, s)
}

/// The pointer is inside the overlay itself.
pub open spec fn inside(s: Sample, overlay: Area) -> bool {
    s.over_window && overlay.holds(s.x as int, s.y as int, 0)
}

/// Something keeps a shown overlay open.
pub open spec fn held_open(m: Machine, s: Sample, overlay: Area) -> bool {
    m.pinned || m.locked || s.buttons || s.owned_popup || s.keep_zone(overlay)
}

/// The moment a wait began: the one remembered, or now.
pub open spec fn since(remembered: Option<i64>, now: i64) -> i64 {
    match remembered {
        Some(t) => t,
        None => now,
    }
}

/// Nothing stands against a reveal but the dwell.
pub open spec fn may_dwell(m: Machine, s: Sample, armed: bool) -> bool {
    armed && s.edge_zone() && !m.needs_exit && !blocked(m, s)
}

/// A button held since a press in the zone or the band.
pub open spec fn blocked(m: Machine, s: Sample) -> bool {
    s.buttons && (m.press_in_zone || (pressed(m, s) && (s.edge_zone() || s.band())))
}

/// The click that a release ends began inside the overlay.
pub open spec fn click_ended(m: Machine, s: Sample, overlay: Area) -> bool {
    released(m, s) && (if pressed(m, s) { inside(s, overlay) } else { m.press_in_overlay })
}

/// A shown overlay is hidden by this sample.
pub open spec fn hides(m: Machine, s: Sample, overlay: Area) -> bool {
    m.visible && !held_open(m, s, overlay) && s.now - since(m.outside_since, s.now) >= HIDE_MS
}

/// A hidden overlay is shown by this sample.
pub open spec fn shows(m: Machine, s: Sample, armed: bool) -> bool {
    !m.visible && may_dwell(m, s, armed) && s.now - since(m.dwell_since, s.now) >= DWELL_MS
}

impl Machine {
    /// Nothing shown, nothing remembered.
    pub open spec fn resting() -> Machine {
        Machine {
            visible: false,
            pinned: false,
            locked: false,
            needs_exit: false,
            refocus_owed: false,
            dwell_since: None,
            outside_since: None,
            press_in_zone: false,
            press_in_overlay: false,
            prev_buttons: None,
            last_in_zone: false,
        }
    }

    /// The machine with its overlay hidden.
    pub open spec fn hidden(self) -> Machine {
        Machine { visible: false, dwell_since: None, outside_since: None, press_in_overlay: false, ..self }
    }

    /// The machine with its overlay shown.
    pub open spec fn shown(self) -> Machine {
        Machine { visible: true, dwell_since: None, outside_since: None, ..self }
    }

    /// What a sample leaves behind in the machine whatever else it does.
    pub open spec fn noted(self, s: Sample) -> Machine {
        Machine {
            last_in_zone: s.edge_zone(),
            prev_buttons: Some(s.buttons),
            needs_exit: self.needs_exit && s.edge_zone(),
            press_in_zone: blocked(self, s),
            ..self
        }
    }

    /// The machine after a sample.
    pub open spec fn after(self, s: Sample, overlay: Area, armed: bool) -> Machine {
        let n = self.noted(s);
        if self.visible {
            let kept = if released(self, s) {
                false
            } else if pressed(self, s) {
                inside(s, overlay)
            } else {
                self.press_in_overlay
            };
            if hides(self, s, overlay) {
                Machine { refocus_owed: click_ended(self, s, overlay), ..n.hidden() }
            } else {
                Machine {
                    dwell_since: None,
                    press_in_overlay: kept,
                    outside_since: if held_open(self, s, overlay) { None } else { Some(since(self.outside_since, s.now)) },
                    ..n
                }
            }
        } else if shows(self, s, armed) {
            n.shown()
        } else {
            Machine {
                outside_since: None,
                dwell_since: if may_dwell(self, s, armed) { Some(since(self.dwell_since, s.now)) } else { None },
                ..n
            }
        }
    }

    /// What a sample asks for.
    pub open spec fn asks(self, s: Sample, overlay: Area, armed: bool) -> Action {
        if hides(self, s, overlay) {
            Action::Hide
        } else if self.visible && pressed(self, s) && !inside(s, overlay) && !s.owned_popup {
            Action::Dismiss
        } else if self.visible && click_ended(self, s, overlay) {
            Action::Refocus
        } else if shows(self, s, armed) {
            Action::Show
        } else {
            Action::Nothing
        }
    }

    /// Feeds one sample. `armed`: pointer reveal is possible now; `overlay`: the overlay bounds.
    /// `Show` and `Hide` already updated [`Machine::visible`].
    pub fn step(&mut self, s: &Sample, overlay: &Area, armed: bool) -> (r: Action)
        ensures
            r == old(self).asks(*s, *overlay, armed),
            *final(self) == old(self).after(*s, *overlay, armed),
    {
        let in_zone = s.in_edge_zone();
        self.last_in_zone = in_zone;
        let was_down = match self.prev_buttons {
            Some(b) => b,
            None => false,
        };
        // A whole click between two samples counts as a press and a release here.
        let missed = s.clicked && !s.buttons && !was_down;
        let down = (s.buttons && !was_down) || missed;
        let up = (!s.buttons && was_down) || missed;
        self.prev_buttons = Some(s.buttons);
        if !in_zone {
            self.needs_exit = false;
        }
        if !s.buttons {
            self.press_in_zone = false;
        } else if down && (in_zone || s.in_resize_band()) {
            self.press_in_zone = true;
        }
        if self.visible {
            self.dwell_since = None;
            let within = s.over_window && overlay.contains(s.x, s.y, 0);
            if down {
                self.press_in_overlay = within;
            }
            let refocus = up && self.press_in_overlay;
            if up {
                self.press_in_overlay = false;
            }
            let held = self.pinned || self.locked || s.buttons || s.owned_popup;
            if held || s.in_keep_zone(overlay) {
                self.outside_since = None;
            } else {
                let from: i64 = match self.outside_since {
                    Some(t) => t,
                    None => s.now,
                };
                self.outside_since = Some(from);
                if s.now as i128 - from as i128 >= HIDE_MS as i128 {
                    // The release that hid it still gives focus back.
                    self.refocus_owed = refocus;
                    self.conceal();
                    return Action::Hide;
                }
            }
            return if down && !within && !s.owned_popup {
                Action::Dismiss
            } else if refocus {
                Action::Refocus
            } else {
                Action::Nothing
            };
        }
        self.outside_since = None;
        if !armed || !in_zone || self.needs_exit || self.press_in_zone {
            self.dwell_since = None;
            return Action::Nothing;
        }
        let from: i64 = match self.dwell_since {
            Some(t) => t,
            None => s.now,
        };
        self.dwell_since = Some(from);
        if s.now as i128 - from as i128 >= DWELL_MS as i128 {
            self.show();
            return Action::Show;
        }
        Action::Nothing
    }

    /// Takes the focus hand-back a hide swallowed.
    pub fn take_refocus(&mut self) -> (r: bool)
        ensures
            r == old(self).refocus_owed,
            *final(self) == (Machine { refocus_owed: false, ..*old(self) }),
    {
        let owed = self.refocus_owed;
        self.refocus_owed = false;
        owed
    }

    pub fn show(&mut self)
        ensures
            *final(self) == old(self).shown(),
    {
        self.visible = true;
        self.dwell_since = None;
        self.outside_since = None;
    }

    pub fn conceal(&mut self)
        ensures
            *final(self) == old(self).hidden(),
    {
        self.visible = false;
        self.dwell_since = None;
        self.outside_since = None;
        self.press_in_overlay = false;
    }

    /// The last sample is in the keep zone.
    pub open spec fn kept_by(last: Option<Sample>, overlay: Area) -> bool {
        match last {
            Some(s) => s.keep_zone(overlay),
            None => false,
        }
    }

    /// A pin or lock ended: the overlay goes unless the other one still holds it or the pointer is in
    /// the keep zone.
    pub open spec fn lets_go(self, last: Option<Sample>, overlay: Area) -> bool {
        self.visible && !self.pinned && !self.locked && !Machine::kept_by(last, overlay)
    }

    /// The machine and the action after core pinned (or un-pinned) the overlay.
    pub open spec fn pinning(self, pinned: bool, can_show: bool, last: Option<Sample>, overlay: Area) -> (Machine, Action) {
        let changed = Machine { pinned, ..self };
        if self.pinned == pinned {
            (self, Action::Nothing)
        } else if pinned && !self.visible && can_show {
            (changed.shown(), Action::Show)
        } else if !pinned && changed.lets_go(last, overlay) {
            (changed.hidden(), Action::Hide)
        } else {
            (changed, Action::Nothing)
        }
    }

    /// The machine and the action after the page locked (or unlocked) the overlay.
    pub open spec fn locking(self, locked: bool, last: Option<Sample>, overlay: Area) -> (Machine, Action) {
        let changed = Machine { locked, ..self };
        if self.locked && !locked && changed.lets_go(last, overlay) {
            (changed.hidden(), Action::Hide)
        } else {
            (changed, Action::Nothing)
        }
    }

    /// The machine and the action after Escape in a page.
    pub open spec fn escaping(self) -> (Machine, Action) {
        if self.visible && !self.pinned {
            (Machine { needs_exit: true, ..self.hidden() }, Action::Hide)
        } else {
            (self, Action::Nothing)
        }
    }

    /// Core pins or un-pins the overlay. Pinning shows it at once (`can_show`); un-pinning hides it at
    /// once when nothing else keeps it.
    pub fn set_pinned(&mut self, pinned: bool, can_show: bool, last: Option<Sample>, overlay: &Area) -> (r: Action)
        ensures
            r == old(self).pinning(pinned, can_show, last, *overlay).1,
            *final(self) == old(self).pinning(pinned, can_show, last, *overlay).0,
    {
        if self.pinned == pinned {
            return Action::Nothing;
        }
        self.pinned = pinned;
        if pinned {
            if !self.visible && can_show {
                self.show();
                return Action::Show;
            }
            return Action::Nothing;
        }
        self.released(last, overlay)
    }

    /// The sidebar page locks or unlocks the overlay. A lock keeps a shown overlay open but never shows
    /// it; unlocking hides it at once when nothing else keeps it.
    pub fn set_locked(&mut self, locked: bool, last: Option<Sample>, overlay: &Area) -> (r: Action)
        ensures
            r == old(self).locking(locked, last, *overlay).1,
            *final(self) == old(self).locking(locked, last, *overlay).0,
    {
        if self.locked == locked {
            return Action::Nothing;
        }
        self.locked = locked;
        if locked {
            return Action::Nothing;
        }
        self.released(last, overlay)
    }

    /// A pin or lock ended.
    fn released(&mut self, last: Option<Sample>, overlay: &Area) -> (r: Action)
        ensures
            if old(self).lets_go(last, *overlay) {
                r == Action::Hide && *final(self) == old(self).hidden()
            } else {
                r == Action::Nothing && *final(self) == *old(self)
            },
    {
        let kept = match last {
            Some(s) => s.in_keep_zone(overlay),
            None => false,
        };
        if self.visible && !self.pinned && !self.locked && !kept {
            self.conceal();
            return Action::Hide;
        }
        Action::Nothing
    }

    /// Esc in a page: hides an overlay core doesn't pin (a page lock doesn't count); the pointer must
    /// leave the edge zone first.
    pub fn escape(&mut self) -> (r: Action)
        ensures
            r == old(self).escaping().1,
            *final(self) == old(self).escaping().0,
    {
        if !self.visible || self.pinned {
            return Action::Nothing;
        }
        self.conceal();
        self.needs_exit = true;
        Action::Hide
    }

    /// The overlay must go away now (docked, page fullscreen, page gone, closing).
    pub fn force_hide(&mut self) -> (r: bool)
        ensures
            r == old(self).visible,
            *final(self) == old(self).hidden(),
    {
        let was = self.visible;
        self.conceal();
        was
    }

    /// The sidebar was just parked: no reveal until the pointer left the edge zone.
    pub fn on_parked(&mut self)
        ensures
            *final(self) == (Machine { needs_exit: true, press_in_zone: false, ..old(self).hidden() }),
    {
        self.conceal();
        self.needs_exit = true;
        self.press_in_zone = false;
    }

    /// The window moved or resized: a pointer that ends up in the edge zone must leave it first.
    pub fn on_bounds_changed(&mut self)
        ensures
            *final(self) == (if old(self).last_in_zone {
                Machine { needs_exit: true, dwell_since: None, ..*old(self) }
            } else {
                *old(self)
            }),
    {
        if self.last_in_zone {
            self.needs_exit = true;
            self.dwell_since = None;
        }
    }

    /// The poll interval before any deadline.
    pub open spec fn interval(self, s: Sample) -> int {
        if self.visible || s.over_window || s.near() { FAST_POLL_MS as int } else { SLOW_POLL_MS as int }
    }

    /// `delay`, or less where a wait of `length` that began at `from` ends sooner.
    pub open spec fn until(delay: int, from: Option<i64>, length: int, now: int) -> int {
        match from {
            Some(t) => if t + length - now < delay { t + length - now } else { delay },
            None => delay,
        }
    }

    /// The delay before the next sample.
    pub open spec fn wait(self, s: Sample) -> int {
        let d = Machine::until(self.interval(s), self.dwell_since, DWELL_MS as int, s.now as int);
        let e = Machine::until(d, self.outside_since, HIDE_MS as int, s.now as int);
        if e < 1 { 1 } else { e }
    }

    /// Delay until the next sample. Fast whenever the pointer could reach the edge zone within one
    /// interval: over our window, near its left edge, or while shown.
    pub fn next_delay(&self, s: &Sample) -> (r: i64)
        ensures
            r == self.wait(*s),
            1 <= r <= SLOW_POLL_MS,
    {
        let near = -2 * NEAR_EDGE < s.x && s.x < 2 * NEAR_EDGE && s.y > -2 * NEAR_EDGE && s.y < 2 * (s.height as i64 + NEAR_EDGE);
        let mut delay: i128 = if self.visible || s.over_window || near { FAST_POLL_MS as i128 } else { SLOW_POLL_MS as i128 };
        if let Some(from) = self.dwell_since {
            let left: i128 = from as i128 + DWELL_MS as i128 - s.now as i128;
            if left < delay {
                delay = left;
            }
        }
        if let Some(from) = self.outside_since {
            let left: i128 = from as i128 + HIDE_MS as i128 - s.now as i128;
            if left < delay {
                delay = left;
            }
        }
        if delay < 1 { 1 } else { delay as i64 }
    }
}

// ------------------------------------------------------------------------------ what the machine promises

/// A reveal takes a dwell: the overlay is shown by a sample only if it was hidden, pointer reveal is
/// armed, the pointer is in the edge zone, no exit is owed, no press there is held, and the pointer has
/// rested for the whole dwell.
pub proof fn a_reveal_takes_a_dwell(m: Machine, s: Sample, overlay: Area, armed: bool)
    requires
        m.asks(s, overlay, armed) == Action::Show,
    ensures
        !m.visible && armed && s.edge_zone() && !m.needs_exit && !blocked(m, s),
        m.dwell_since is Some,
        s.now - m.dwell_since->0 >= DWELL_MS,
        m.after(s, overlay, armed).visible,
{
}

/// `visible` changes exactly with `Show` and `Hide`.
pub proof fn visibility_follows_the_action(m: Machine, s: Sample, overlay: Area, armed: bool)
    ensures
        m.asks(s, overlay, armed) == Action::Show <==> !m.visible && m.after(s, overlay, armed).visible,
        m.asks(s, overlay, armed) == Action::Hide <==> m.visible && !m.after(s, overlay, armed).visible,
{
}

/// While an exit is owed, no sample in the zone reveals anything, and the debt stays until a sample
/// outside the zone clears it.
pub proof fn an_exit_is_owed_until_the_pointer_leaves(m: Machine, s: Sample, overlay: Area, armed: bool)
    requires
        m.needs_exit,
        !m.visible,
    ensures
        m.asks(s, overlay, armed) != Action::Show,
        m.after(s, overlay, armed).needs_exit == s.edge_zone(),
{
}

/// A pin, a lock, a held button or a popup of ours holds a shown overlay open wherever the pointer is.
pub proof fn held_open_is_never_hidden(m: Machine, s: Sample, overlay: Area, armed: bool)
    requires
        m.visible,
        m.pinned || m.locked || s.buttons || s.owned_popup,
    ensures
        m.asks(s, overlay, armed) != Action::Hide,
        m.after(s, overlay, armed).visible,
{
}

/// A shown overlay that nothing holds is hidden by the first sample outside the keep zone.
pub proof fn the_first_sample_outside_hides(m: Machine, s: Sample, overlay: Area, armed: bool)
    requires
        m.visible,
        !held_open(m, s, overlay),
        m.outside_since is None,
    ensures
        m.asks(s, overlay, armed) == Action::Hide,
{
}

/// A click that began inside the overlay gives focus back exactly once: as the action of the sample
/// that ends it, or as the debt of the hide that the same sample causes.
pub proof fn a_click_gives_focus_back_once(m: Machine, s: Sample, overlay: Area, armed: bool)
    requires
        m.visible,
        click_ended(m, s, overlay),
        !(pressed(m, s) && !inside(s, overlay)),
    ensures
        m.asks(s, overlay, armed) == Action::Refocus || (m.asks(s, overlay, armed) == Action::Hide && m.after(
            s,
            overlay,
            armed,
        ).refocus_owed),
        !m.after(s, overlay, armed).press_in_overlay,
{
}

/// The same pointer at another time.
pub open spec fn later(s: Sample, now: int) -> Sample {
    Sample { now: now as i64, ..s }
}

/// When a pointer that rests where `s` has it is answered with the overlay, polling at the intervals
/// the machine itself asks for: the time of the sample that shows it.
pub open spec fn shown_at(m: Machine, s: Sample, overlay: Area) -> int
    decreases m.dwell_since->0 + DWELL_MS - s.now,
    when resting_in_zone(m, s)
{
    if s.now >= m.dwell_since->0 + DWELL_MS {
        s.now as int
    } else {
        let next = m.after(s, overlay, true);
        shown_at(next, later(s, s.now + next.wait(s)), overlay)
    }
}

/// A hidden overlay, a dwell in progress, and a pointer resting in the zone with no button down.
pub open spec fn resting_in_zone(m: Machine, s: Sample) -> bool {
    &&& !m.visible
    &&& !m.needs_exit
    &&& m.dwell_since is Some
    &&& m.outside_since is None
    &&& s.edge_zone()
    &&& !s.buttons
    &&& 0 <= m.dwell_since->0 <= s.now <= 0x3FFF_FFFF_FFFF_FFFF
    &&& m.dwell_since->0 <= 0x3FFF_FFFF_FFFF_0000
}

/// A dwell that has begun ends on time: the polls land on its deadline, and that sample shows the
/// overlay.
pub proof fn the_dwell_ends_on_time(m: Machine, s: Sample, overlay: Area)
    requires
        resting_in_zone(m, s),
        s.now <= m.dwell_since->0 + DWELL_MS,
    ensures
        shown_at(m, s, overlay) == m.dwell_since->0 + DWELL_MS,
        s.now == m.dwell_since->0 + DWELL_MS ==> m.asks(s, overlay, true) == Action::Show,
    decreases m.dwell_since->0 + DWELL_MS - s.now,
{
    if s.now < m.dwell_since->0 + DWELL_MS {
        let next = m.after(s, overlay, true);
        assert(next.dwell_since == m.dwell_since);
        assert(1 <= next.wait(s) <= m.dwell_since->0 + DWELL_MS - s.now);
        let t = later(s, s.now + next.wait(s));
        assert(t.now == s.now + next.wait(s));
        assert(t.edge_zone() == s.edge_zone());
        the_dwell_ends_on_time(next, t, overlay);
    }
}

/// A reveal comes at most one poll after the dwell: a pointer that arrives in the zone after a sample
/// elsewhere is seen by the next poll, which starts the dwell, and the overlay is shown exactly a dwell
/// later. The poll is the fast one when the pointer came from inside the window or from near its edge.
pub proof fn reveal_latency_is_the_dwell_plus_one_poll(m: Machine, before: Sample, there: Sample, overlay: Area, arrived: int)
    requires
        !m.visible,
        !before.edge_zone(),
        !before.buttons,
        there.edge_zone(),
        !there.buttons,
        0 <= before.now < arrived <= 0x3FFF_FFFF_FFFE_0000,
        there.now == before.now + m.after(before, overlay, true).wait(before),
        arrived <= there.now,
    ensures
        ({
            let start = m.after(before, overlay, true).after(there, overlay, true);
            &&& start.dwell_since == Some(there.now)
            &&& shown_at(start, there, overlay) == there.now + DWELL_MS
            &&& DWELL_MS <= shown_at(start, there, overlay) - arrived <= DWELL_MS + SLOW_POLL_MS
            &&& before.over_window || before.near() ==> shown_at(start, there, overlay) - arrived <= DWELL_MS + FAST_POLL_MS
        }),
{
    let n = m.after(before, overlay, true);
    assert(n.dwell_since is None && n.outside_since is None && !n.needs_exit);
    let start = n.after(there, overlay, true);
    the_dwell_ends_on_time(start, there, overlay);
}

// ------------------------------------------------------------------------------ around the machine

/// What the shell has to do, in order.
#[derive(Debug, Clone, Copy, PartialEq, Eq, Structural)]
pub enum Effect {
    /// Post a poll with this generation as a new task.
    Poll(u64),
    /// Tell the page whether its contents are shown, and whether to close its menus.
    Emit { visible: bool, dismiss: bool },
    /// Drop a pending contents exit.
    CancelExit,
    /// Stop a slide that is running.
    CancelSlide,
    /// Place the card this far from where it belongs (DIP, negative: to the left).
    Place(i32),
    /// Show the overlay.
    ShowOverlay,
    /// Remove the overlay from the screen.
    HideOverlay,
    /// After the slide's lead, let the card slide in if this generation still holds.
    SlideInLater(u64),
    /// Slide the card in from where it stands.
    SlideIn,
    /// Slide the card out to this place, then report the generation.
    SlideOut(i32, u64),
    /// Ask the page to blank its contents, then report the generation.
    ExitThenHide(u64),
    /// Give keyboard focus back after [`REFOCUS_DELAY_MS`].
    RefocusLater,
    /// Close the transient panel.
    ClosePanel,
    /// Post a refresh as a new task.
    RefreshLater,
}

/// The facts about the window that decide whether the overlay can be there.
#[derive(Debug, Clone, Copy, PartialEq, Eq, Structural)]
pub struct Around {
    /// The sidebar is parked in the overlay host.
    pub parked: bool,
    /// A tab is in page fullscreen.
    pub page_fullscreen: bool,
    /// The shutdown sequence has started.
    pub closing: bool,
    /// The main window is the active window.
    pub active: bool,
    pub minimized: bool,
}

/// The facts about the overlay that decide how it comes and goes.
#[derive(Debug, Clone, Copy, PartialEq, Eq, Structural)]
pub struct Card {
    /// The overlay's bounds.
    pub area: Area,
    /// The card slides (else the page fades).
    pub slides: bool,
    /// The overlay is on screen.
    pub on_screen: bool,
    /// Where the card stands now, relative to where it belongs.
    pub slide: i32,
    /// How far the card travels.
    pub travel: i32,
    /// A transient sidebar panel is open.
    pub transient_panel: bool,
    /// What [`since_move`] says of the virtual pointer.
    pub since_move: Option<Option<i64>>,
}

/// How often something happened.
#[derive(Debug, Clone, Copy, PartialEq, Eq, Structural)]
pub struct Counts {
    pub reveals: u64,
    pub hides: u64,
    pub dismisses: u64,
}

/// The hover reveal: the machine and what is remembered around it.
#[derive(Debug, Clone, Copy, PartialEq, Eq, Structural)]
pub struct Hover {
    pub machine: Machine,
    /// The sidebar page said it is ready since its last (re)load.
    pub ready: bool,
    /// Pointer reveal is enabled.
    pub enabled: bool,
    pub poll_gen: u64,
    pub polling: bool,
    pub hide_gen: u64,
    /// The last sample.
    pub last: Option<Sample>,
    pub counts: Counts,
    /// How long after the virtual pointer moved the latest reveal came.
    pub reveal_after: Option<i64>,
}

impl Hover {
    /// Before the sidebar page said anything.
    pub fn new(enabled: bool) -> (r: Hover)
        ensures
            r == (Hover {
                machine: Machine::resting(),
                ready: false,
                enabled,
                poll_gen: 0,
                polling: false,
                hide_gen: 0,
                last: None,
                counts: Counts { reveals: 0, hides: 0, dismisses: 0 },
                reveal_after: None,
            }),
    {
        Hover {
            machine: Machine::default(),
            ready: false,
            enabled,
            poll_gen: 0,
            polling: false,
            hide_gen: 0,
            last: None,
            counts: Counts { reveals: 0, hides: 0, dismisses: 0 },
            reveal_after: None,
        }
    }

    /// The overlay may be shown now (pinned or by the pointer).
    pub open spec fn showable(self, a: Around) -> bool {
        self.ready && a.parked && !a.page_fullscreen && !a.closing
    }

    /// Pointer reveal is possible now.
    pub open spec fn pointer_armed(self, a: Around) -> bool {
        self.enabled && self.showable(a) && a.active && !a.minimized
    }

    /// The poll runs while pointer reveal is armed or the overlay is shown, never while minimized.
    pub open spec fn polls(self, a: Around) -> bool {
        (self.machine.visible && self.showable(a) && !a.minimized) || self.pointer_armed(a)
    }

    /// The state and the effects after carrying out an action of the machine.
    pub open spec fn performed(self, action: Action, c: Card) -> (Hover, Seq<Effect>) {
        let gen = next_number(self.hide_gen);
        match action {
            Action::Nothing => (self, Seq::empty()),
            Action::Show => (
                Hover {
                    hide_gen: gen,
                    counts: Counts { reveals: next_number(self.counts.reveals), ..self.counts },
                    reveal_after: match c.since_move {
                        Some(since) => since,
                        None => self.reveal_after,
                    },
                    ..self
                },
                seq![
                    Effect::CancelExit,
                    Effect::CancelSlide,
                    Effect::Place(if !c.slides { 0 } else if c.on_screen { c.slide } else { (-c.travel) as i32 }),
                    Effect::ShowOverlay,
                    Effect::Emit { visible: true, dismiss: false },
                ] + (if c.slides { seq![Effect::SlideInLater(gen)] } else { Seq::empty() }),
            ),
            Action::Hide => (
                Hover {
                    hide_gen: gen,
                    machine: Machine { refocus_owed: false, ..self.machine },
                    counts: Counts { hides: next_number(self.counts.hides), ..self.counts },
                    ..self
                },
                (if c.slides && c.on_screen {
                    seq![Effect::Emit { visible: true, dismiss: true }, Effect::SlideOut((-c.travel) as i32, gen)]
                } else {
                    seq![Effect::ExitThenHide(gen)]
                }) + (if self.machine.refocus_owed { seq![Effect::RefocusLater] } else { Seq::empty() }),
            ),
            Action::Refocus => (self, seq![Effect::RefocusLater]),
            Action::Dismiss => (
                Hover { counts: Counts { dismisses: next_number(self.counts.dismisses), ..self.counts }, ..self },
                seq![Effect::Emit { visible: true, dismiss: true }] + (if c.transient_panel { seq![Effect::ClosePanel] } else { Seq::empty() }),
            ),
        }
    }

    /// The state and the effects after hiding the overlay right away.
    pub open spec fn gone(self) -> (Hover, Seq<Effect>) {
        (
            Hover { hide_gen: next_number(self.hide_gen), counts: Counts { hides: next_number(self.counts.hides), ..self.counts }, ..self },
            seq![
                Effect::CancelExit,
                Effect::CancelSlide,
                Effect::Emit { visible: false, dismiss: true },
                Effect::HideOverlay,
                Effect::Place(0),
            ],
        )
    }

    /// The first half of a refresh: an overlay that can't stay goes, a pinned one comes.
    pub open spec fn settled(self, a: Around, c: Card) -> (Hover, Seq<Effect>) {
        if !self.showable(a) {
            let h = Hover { machine: self.machine.hidden(), ..self };
            if self.machine.visible { h.gone() } else { (h, Seq::empty()) }
        } else if self.machine.pinned && !self.machine.visible {
            Hover { machine: self.machine.shown(), ..self }.performed(Action::Show, c)
        } else {
            (self, Seq::empty())
        }
    }

    /// The state and the effects after a refresh.
    pub open spec fn refreshed(self, a: Around, c: Card) -> (Hover, Seq<Effect>) {
        let (h, e) = self.settled(a, c);
        if h.polls(a) && !h.polling {
            (Hover { polling: true, poll_gen: next_number(h.poll_gen), ..h }, e.push(Effect::Poll(next_number(h.poll_gen))))
        } else {
            (h, e)
        }
    }

    /// A new machine with the action it asks for carried out, then a refresh.
    pub open spec fn with_machine(self, next: (Machine, Action), a: Around, c: Card) -> (Hover, Seq<Effect>) {
        Hover { machine: next.0, ..self }.performed_and_refreshed(next.1, a, c)
    }

    /// The state and the effects after the sidebar was parked.
    pub open spec fn parking(self, after_panel: bool, s: Sample, a: Around, c: Card) -> (Hover, Seq<Effect>) {
        let looked = after_panel && self.pointer_armed(a);
        let m = Machine { needs_exit: true, press_in_zone: false, ..self.machine.hidden() };
        let h = Hover { machine: m, last: if looked { Some(s) } else { self.last }, ..self };
        if looked && s.keep_zone(c.area) {
            Hover { machine: Machine { needs_exit: false, ..m }.shown(), ..h }.performed_and_refreshed(Action::Show, a, c)
        } else {
            h.refreshed(a, c)
        }
    }

    /// An action carried out, then a refresh.
    pub open spec fn performed_and_refreshed(self, action: Action, a: Around, c: Card) -> (Hover, Seq<Effect>) {
        let (h, e) = self.performed(action, c);
        let (k, f) = h.refreshed(a, c);
        (k, e + f)
    }
}

/// The sidebar page is ready.
pub fn is_ready(h: &Hover) -> (r: bool)
    ensures
        r == h.ready,
{
    h.ready
}

/// The overlay may be shown now.
pub fn can_show(h: &Hover, a: &Around) -> (r: bool)
    ensures
        r == h.showable(*a),
{
    h.ready && a.parked && !a.page_fullscreen && !a.closing
}

/// Pointer reveal is possible now.
pub fn armed(h: &Hover, a: &Around) -> (r: bool)
    ensures
        r == h.pointer_armed(*a),
{
    h.enabled && can_show(h, a) && a.active && !a.minimized
}

/// The poll has to run.
pub fn should_poll(h: &Hover, a: &Around) -> (r: bool)
    ensures
        r == h.polls(*a),
{
    (h.machine.visible && can_show(h, a) && !a.minimized) || armed(h, a)
}

/// Carries out an action of the machine: appends what to do to `out`.
pub fn perform(h: &mut Hover, action: Action, c: &Card, out: &mut Vec<Effect>)
    requires
        c.travel > i32::MIN,
    ensures
        *final(h) == old(h).performed(action, *c).0,
        final(out)@ == old(out)@ + old(h).performed(action, *c).1,
{
    let ghost before = out@;
    let ghost want = h.performed(action, *c).1;
    match action {
        Action::Nothing => {},
        Action::Show => {
            // Cancels a hide still on its way out.
            h.hide_gen = bump(h.hide_gen);
            let start: i32 = if !c.slides {
                0
            } else if c.on_screen {
                c.slide
            } else {
                -c.travel
            };
            out.push(Effect::CancelExit);
            out.push(Effect::CancelSlide);
            out.push(Effect::Place(start));
            out.push(Effect::ShowOverlay);
            out.push(Effect::Emit { visible: true, dismiss: false });
            if c.slides {
                out.push(Effect::SlideInLater(h.hide_gen));
            }
            match c.since_move {
                Some(since) => {
                    h.reveal_after = since;
                },
                None => {},
            }
            h.counts.reveals = bump(h.counts.reveals);
        },
        Action::Hide => {
            h.hide_gen = bump(h.hide_gen);
            if c.slides && c.on_screen {
                // The card leaves with its contents; the page only closes its menus.
                out.push(Effect::Emit { visible: true, dismiss: true });
                out.push(Effect::SlideOut(-c.travel, h.hide_gen));
            } else {
                out.push(Effect::ExitThenHide(h.hide_gen));
            }
            if h.machine.take_refocus() {
                out.push(Effect::RefocusLater);
            }
            h.counts.hides = bump(h.counts.hides);
        },
        Action::Refocus => {
            out.push(Effect::RefocusLater);
        },
        Action::Dismiss => {
            out.push(Effect::Emit { visible: true, dismiss: true });
            if c.transient_panel {
                out.push(Effect::ClosePanel);
            }
            h.counts.dismisses = bump(h.counts.dismisses);
        },
    }
    proof {
        assert(out@ =~= before + want);
    }
}

/// Hides the overlay right away (it can't stay).
pub fn hide_now(h: &mut Hover, out: &mut Vec<Effect>)
    ensures
        *final(h) == old(h).gone().0,
        final(out)@ == old(out)@ + old(h).gone().1,
{
    let ghost before = out@;
    let ghost want = h.gone().1;
    h.hide_gen = bump(h.hide_gen);
    out.push(Effect::CancelExit);
    out.push(Effect::CancelSlide);
    out.push(Effect::Emit { visible: false, dismiss: true });
    out.push(Effect::HideOverlay);
    out.push(Effect::Place(0));
    h.counts.hides = bump(h.counts.hides);
    proof {
        assert(out@ =~= before + want);
    }
}

/// Re-evaluates after sidebar placement, page fullscreen, activation, bounds or ready changes: hides
/// an overlay that can't stay, shows a pinned one, starts the poll.
pub fn refresh(h: &mut Hover, a: &Around, c: &Card) -> (r: Vec<Effect>)
    requires
        c.travel > i32::MIN,
    ensures
        *final(h) == old(h).refreshed(*a, *c).0,
        r@ == old(h).refreshed(*a, *c).1,
{
    let mut out: Vec<Effect> = Vec::new();
    if !can_show(h, a) {
        if h.machine.force_hide() {
            hide_now(h, &mut out);
        }
    } else if h.machine.pinned && !h.machine.visible {
        h.machine.show();
        perform(h, Action::Show, c, &mut out);
    }
    proof {
        assert(out@ =~= old(h).settled(*a, *c).1);
    }
    if should_poll(h, a) && !h.polling {
        h.polling = true;
        h.poll_gen = bump(h.poll_gen);
        out.push(Effect::Poll(h.poll_gen));
    }
    out
}

fn refresh_into(h: &mut Hover, a: &Around, c: &Card, out: &mut Vec<Effect>)
    requires
        c.travel > i32::MIN,
    ensures
        *final(h) == old(h).refreshed(*a, *c).0,
        final(out)@ == old(out)@ + old(h).refreshed(*a, *c).1,
{
    let mut more = refresh(h, a, c);
    out.append(&mut more);
}

fn perform_and_refresh(h: &mut Hover, action: Action, a: &Around, c: &Card) -> (r: Vec<Effect>)
    requires
        c.travel > i32::MIN,
    ensures
        *final(h) == old(h).performed_and_refreshed(action, *a, *c).0,
        r@ == old(h).performed_and_refreshed(action, *a, *c).1,
{
    let mut out: Vec<Effect> = Vec::new();
    perform(h, action, c, &mut out);
    refresh_into(h, a, c, &mut out);
    proof {
        assert(out@ =~= old(h).performed_and_refreshed(action, *a, *c).1);
    }
    out
}

/// What a poll answers.
#[derive(Debug, PartialEq, Eq)]
pub enum Polled {
    /// A newer poll took over, or none is needed: nothing follows.
    Ended,
    /// Do these things, then poll again after this many milliseconds.
    Again(Vec<Effect>, i64),
}

/// One poll of the given generation, with the pointer as it is now.
pub fn poll(h: &mut Hover, generation: u64, s: &Sample, a: &Around, c: &Card) -> (r: Polled)
    requires
        c.travel > i32::MIN,
    ensures
        if old(h).poll_gen != generation {
            r is Ended && *final(h) == *old(h)
        } else if !old(h).polls(*a) {
            r is Ended && *final(h) == (Hover { polling: false, ..*old(h) })
        } else {
            let armed = old(h).pointer_armed(*a);
            let action = old(h).machine.asks(*s, c.area, armed);
            let stepped = Hover { machine: old(h).machine.after(*s, c.area, armed), last: Some(*s), ..*old(h) };
            &&& *final(h) == stepped.performed(action, *c).0
            &&& r is Again
            &&& r->Again_0@ == stepped.performed(action, *c).1
            &&& r->Again_1 == final(h).machine.wait(*s)
        },
{
    if h.poll_gen != generation {
        return Polled::Ended;
    }
    if !should_poll(h, a) {
        h.polling = false;
        return Polled::Ended;
    }
    let can_reveal = armed(h, a);
    let action = h.machine.step(s, &c.area, can_reveal);
    h.last = Some(*s);
    let mut out: Vec<Effect> = Vec::new();
    let ghost stepped = *h;
    perform(h, action, c, &mut out);
    let delay: i64 = h.machine.next_delay(s);
    proof {
        assert(out@ =~= stepped.performed(action, *c).1);
    }
    Polled::Again(out, delay)
}

/// The slide's lead is over: the card slides in if nothing happened meanwhile.
pub fn on_slide_lead(h: &Hover, generation: u64) -> (r: Option<Effect>)
    ensures
        r == (if h.hide_gen == generation && h.machine.visible { Some(Effect::SlideIn) } else { None }),
{
    if h.hide_gen == generation && h.machine.visible { Some(Effect::SlideIn) } else { None }
}

/// The card has slid out: it is hidden and its page blanked, unless it was revealed meanwhile.
pub open spec fn slid_out(h: Hover, generation: u64) -> Seq<Effect> {
    if h.hide_gen == generation && !h.machine.visible {
        seq![Effect::HideOverlay, Effect::Emit { visible: false, dismiss: true }, Effect::Place(0)]
    } else {
        Seq::empty()
    }
}

/// The card has slid out: it is hidden and its page blanked, unless it was revealed meanwhile.
pub fn on_slid_out(h: &Hover, generation: u64) -> (r: Vec<Effect>)
    ensures
        r@ == slid_out(*h, generation),
        r@ == (if h.hide_gen == generation && !h.machine.visible {
            seq![Effect::HideOverlay, Effect::Emit { visible: false, dismiss: true }, Effect::Place(0)]
        } else {
            Seq::empty()
        }),
{
    let mut out: Vec<Effect> = Vec::new();
    if h.hide_gen == generation && !h.machine.visible {
        out.push(Effect::HideOverlay);
        out.push(Effect::Emit { visible: false, dismiss: true });
        out.push(Effect::Place(0));
    }
    proof {
        assert(out@ =~= (if h.hide_gen == generation && !h.machine.visible {
            seq![Effect::HideOverlay, Effect::Emit { visible: false, dismiss: true }, Effect::Place(0)]
        } else {
            Seq::empty()
        }));
    }
    out
}

/// The page has blanked its contents: the overlay is hidden, unless it was revealed meanwhile.
pub fn on_exited(h: &Hover, generation: u64) -> (r: Option<Effect>)
    ensures
        r == (if h.hide_gen == generation && !h.machine.visible { Some(Effect::HideOverlay) } else { None }),
{
    if h.hide_gen == generation && !h.machine.visible { Some(Effect::HideOverlay) } else { None }
}

/// How an acknowledged exit of the sidebar contents starts.
#[derive(Debug, Clone, Copy, PartialEq, Eq, Structural)]
pub enum Exit {
    /// No page to ask: note a hide without a blank frame, and finish after this many milliseconds.
    After(i64),
    /// Ask this browser's page; finish on its answer or at the cap, never sooner than this many
    /// milliseconds.
    Ask(i32, i64),
}

/// Starts an acknowledged exit of the sidebar contents.
pub fn begin_exit(browser: Option<i32>, floor: i64) -> (r: Exit)
    ensures
        r == (match browser {
            Some(id) => Exit::Ask(id, floor),
            None => Exit::After(floor),
        }),
{
    match browser {
        Some(id) => Exit::Ask(id, floor),
        None => Exit::After(floor),
    }
}

/// The browser whose pending contents exit is dropped, if there is one.
pub fn cancel_exit(browser: Option<i32>) -> (r: Option<i32>)
    ensures
        r == browser,
{
    browser
}

pub open spec fn bool_text(b: bool) -> Seq<char> {
    if b { "true"@ } else { "false"@ }
}

/// The `sidebar.hover` message: whether the contents are shown, whether to close the menus, and the
/// generation to acknowledge, if any.
pub open spec fn hover_message(visible: bool, dismiss: bool, generation: Option<u64>) -> Seq<char> {
    "{\"visible\":"@ + bool_text(visible) + ",\"dismiss\":"@ + bool_text(dismiss) + (match generation {
        Some(g) => ",\"gen\":"@ + decimal(g as nat),
        None => Seq::empty(),
    }) + "}"@
}

/// The `sidebar.hover` message for the sidebar page's browser, while it has one.
pub fn emit_contents_gen(browser: Option<i32>, visible: bool, dismiss: bool, generation: Option<u64>) -> (r: Option<(i32, String)>)
    ensures
        match r {
            Some(sent) => Some(sent.0) == browser && sent.1@ == hover_message(visible, dismiss, generation),
            None => browser is None,
        },
{
    let id: i32 = match browser {
        Some(id) => id,
        None => {
            return None;
        },
    };
    let mut text = "{\"visible\":".to_owned();
    text.append(if visible { "true" } else { "false" });
    text.append(",\"dismiss\":");
    text.append(if dismiss { "true" } else { "false" });
    let mut tail = String::new();
    if let Some(g) = generation {
        tail.append(",\"gen\":");
        tail.append(decimal_text(g).as_str());
        proof {
            assert(tail@ =~= ",\"gen\":"@ + decimal(g as nat));
        }
    }
    text.append(tail.as_str());
    text.append("}");
    Some((id, text))
}

/// The `sidebar.hover` message without a generation to acknowledge.
pub fn emit_contents(browser: Option<i32>, visible: bool, dismiss: bool) -> (r: Option<(i32, String)>)
    ensures
        match r {
            Some(sent) => Some(sent.0) == browser && sent.1@ == hover_message(visible, dismiss, None),
            None => browser is None,
        },
{
    emit_contents_gen(browser, visible, dismiss, None)
}

/// Core pins or un-pins the overlay.
pub fn set_pinned(h: &mut Hover, pinned: bool, a: &Around, c: &Card) -> (r: Vec<Effect>)
    requires
        c.travel > i32::MIN,
    ensures
        *final(h) == old(h).with_machine(old(h).machine.pinning(pinned, old(h).showable(*a), old(h).last, c.area), *a, *c).0,
        r@ == old(h).with_machine(old(h).machine.pinning(pinned, old(h).showable(*a), old(h).last, c.area), *a, *c).1,
{
    let can = can_show(h, a);
    let action = h.machine.set_pinned(pinned, can, h.last, &c.area);
    perform_and_refresh(h, action, a, c)
}

/// The sidebar page opened (or closed) a menu, popover or drag.
pub fn set_locked(h: &mut Hover, locked: bool, a: &Around, c: &Card) -> (r: Vec<Effect>)
    requires
        c.travel > i32::MIN,
    ensures
        *final(h) == old(h).with_machine(old(h).machine.locking(locked, old(h).last, c.area), *a, *c).0,
        r@ == old(h).with_machine(old(h).machine.locking(locked, old(h).last, c.area), *a, *c).1,
{
    let action = h.machine.set_locked(locked, h.last, &c.area);
    perform_and_refresh(h, action, a, c)
}

/// Esc at the end of its chain: hides a shown overlay that core doesn't pin. `true`: hidden.
pub fn escape(h: &mut Hover, c: &Card, out: &mut Vec<Effect>) -> (r: bool)
    requires
        c.travel > i32::MIN,
    ensures
        r == (old(h).machine.visible && !old(h).machine.pinned),
        ({
            let (m, action) = old(h).machine.escaping();
            let (k, e) = (Hover { machine: m, ..*old(h) }).performed(action, *c);
            *final(h) == k && final(out)@ == old(out)@ + e
        }),
{
    let action = h.machine.escape();
    let hidden = action == Action::Hide;
    perform(h, action, c, out);
    hidden
}

/// Pointer reveal is armed (or would be once parked) and the pointer is in the keep zone now.
pub fn pointer_in_keep_zone(h: &Hover, s: &Sample, a: &Around, c: &Card) -> (r: bool)
    ensures
        r == (h.enabled && h.ready && a.active && s.keep_zone(c.area)),
{
    h.enabled && h.ready && a.active && s.in_keep_zone(&c.area)
}

/// The sidebar was parked in the overlay host. `after_panel`: it was docked only for a panel that
/// holds input; with the pointer still over the sidebar it floats on at once.
pub fn on_parked(h: &mut Hover, after_panel: bool, s: &Sample, a: &Around, c: &Card) -> (r: Vec<Effect>)
    requires
        c.travel > i32::MIN,
    ensures
        *final(h) == old(h).parking(after_panel, *s, *a, *c).0,
        r@ == old(h).parking(after_panel, *s, *a, *c).1,
{
    let ghost before = *h;
    let looked = after_panel && armed(h, a);
    if looked {
        h.last = Some(*s);
    }
    let keep = looked && s.in_keep_zone(&c.area);
    h.machine.on_parked();
    let mut out: Vec<Effect> = Vec::new();
    if keep {
        h.machine.needs_exit = false;
        h.machine.show();
        perform(h, Action::Show, c, &mut out);
    }
    refresh_into(h, a, c, &mut out);
    proof {
        assert(out@ =~= before.parking(after_panel, *s, *a, *c).1);
    }
    out
}

/// The sidebar was docked again (the overlay host was hidden and emptied).
pub fn on_docked(h: &mut Hover, a: &Around, c: &Card) -> (r: Vec<Effect>)
    requires
        c.travel > i32::MIN,
    ensures
        ({
            let docked = (Hover { hide_gen: next_number(old(h).hide_gen), machine: old(h).machine.hidden(), ..*old(h) });
            &&& *final(h) == docked.refreshed(*a, *c).0
            &&& r@ == seq![Effect::CancelExit, Effect::CancelSlide, Effect::Place(0)] + docked.refreshed(*a, *c).1
        }),
{
    h.hide_gen = bump(h.hide_gen);
    let mut out: Vec<Effect> = Vec::new();
    out.push(Effect::CancelExit);
    out.push(Effect::CancelSlide);
    out.push(Effect::Place(0));
    let _ = h.machine.force_hide();
    proof {
        assert(out@ =~= seq![Effect::CancelExit, Effect::CancelSlide, Effect::Place(0)]);
    }
    refresh_into(h, a, c, &mut out);
    out
}

/// The window moved or was resized: the refresh is posted.
pub fn on_bounds_changed(h: &mut Hover) -> (r: Effect)
    ensures
        r == Effect::RefreshLater,
        *final(h) == (Hover {
            machine: if old(h).machine.last_in_zone {
                Machine { needs_exit: true, dwell_since: None, ..old(h).machine }
            } else {
                old(h).machine
            },
            ..*old(h)
        }),
{
    h.machine.on_bounds_changed();
    Effect::RefreshLater
}

/// The sidebar page is ready.
pub fn on_sidebar_ready(h: &mut Hover, a: &Around, c: &Card) -> (r: Vec<Effect>)
    requires
        c.travel > i32::MIN,
    ensures
        ({
            let ready = (Hover { ready: true, ..*old(h) });
            &&& *final(h) == ready.refreshed(*a, *c).0
            &&& r@ == (if old(h).machine.visible { seq![Effect::Emit { visible: true, dismiss: false }] } else { Seq::empty() })
                + ready.refreshed(*a, *c).1
        }),
{
    h.ready = true;
    let mut out: Vec<Effect> = Vec::new();
    if h.machine.visible {
        out.push(Effect::Emit { visible: true, dismiss: false });
    }
    proof {
        assert(out@ =~= (if old(h).machine.visible { seq![Effect::Emit { visible: true, dismiss: false }] } else { Seq::empty() }));
    }
    refresh_into(h, a, c, &mut out);
    out
}

/// The sidebar's renderer is gone (it reloads): no reveal until it is ready again, and its lock is
/// gone with it.
pub fn on_sidebar_gone(h: &mut Hover, a: &Around, c: &Card) -> (r: Vec<Effect>)
    requires
        c.travel > i32::MIN,
    ensures
        ({
            let gone = (Hover { ready: false, ..*old(h) });
            &&& *final(h) == gone.with_machine(gone.machine.locking(false, gone.last, c.area), *a, *c).0
            &&& r@ == gone.with_machine(gone.machine.locking(false, gone.last, c.area), *a, *c).1
        }),
{
    h.ready = false;
    set_locked(h, false, a, c)
}

/// A main-frame load started in the sidebar: the old document's menus are gone, so is its lock.
pub fn on_sidebar_load_start(h: &mut Hover, a: &Around, c: &Card) -> (r: Vec<Effect>)
    requires
        c.travel > i32::MIN,
    ensures
        *final(h) == old(h).with_machine(old(h).machine.locking(false, old(h).last, c.area), *a, *c).0,
        r@ == old(h).with_machine(old(h).machine.locking(false, old(h).last, c.area), *a, *c).1,
{
    set_locked(h, false, a, c)
}

// ------------------------------------------------------------------------------ where the pointer is

/// The pointer as the window system sees it.
#[derive(Debug, Clone, Copy, PartialEq, Eq, Structural)]
pub struct Pointer {
    /// Relative to the window's client area (half DIP).
    pub x: i64,
    pub y: i64,
    pub buttons: bool,
    pub clicked: bool,
    pub over_window: bool,
    pub owned_popup: bool,
}

/// A coordinate of the tests' pointer.
#[derive(Debug, Clone, Copy, PartialEq, Eq, Structural)]
pub struct Coordinate {
    /// In half DIP.
    pub half: i64,
    /// The number itself, by its bits: two coordinates are the same where these are, and one that moves
    /// within a half DIP has moved. (Zero has one sign here.)
    pub bits: u64,
}

/// A pointer that tests move in place of the real one.
#[derive(Debug, Clone, Copy, PartialEq, Eq, Structural)]
pub struct VirtualPointer {
    pub x: Coordinate,
    pub y: Coordinate,
    pub buttons: bool,
    pub over_window: bool,
    pub owned_popup: bool,
}

/// The pointer of the tests, if there is one.
#[derive(Debug, Clone, Copy, PartialEq, Eq, Structural)]
pub struct Stand {
    pub pointer: Option<VirtualPointer>,
    /// A button of it was pressed since the last sample.
    pub clicked: bool,
    /// When it moved last.
    pub moved_at: Option<i64>,
}

impl Stand {
    /// How long ago the virtual pointer moved, where it did; `None`: there is none.
    pub open spec fn since_move(self, now: i64) -> Option<Option<int>> {
        match (self.pointer, self.moved_at) {
            (None, _) => None,
            (Some(_), None) => Some(None),
            (Some(_), Some(at)) => Some(Some(now - at)),
        }
    }
}

/// How long ago the virtual pointer moved, where it did; `None`: there is none.
pub fn since_move(stand: &Stand, now: i64) -> (r: Option<Option<i64>>)
    requires
        stand.moved_at is Some ==> i64::MIN <= now - stand.moved_at->0 <= i64::MAX,
    ensures
        match r {
            None => stand.since_move(now) is None,
            Some(None) => stand.since_move(now) == Some(None::<int>),
            Some(Some(t)) => stand.since_move(now) == Some(Some(t as int)),
        },
{
    match stand.pointer {
        None => None,
        Some(_) => match stand.moved_at {
            None => Some(None),
            Some(at) => Some(Some(now - at)),
        },
    }
}

/// The window that the pointer is looked for in.
#[derive(Debug, Clone, Copy, PartialEq, Eq, Structural)]
pub struct Frame {
    /// Client area height (DIP).
    pub height: i32,
    pub maximized: bool,
    pub fullscreen: bool,
}

impl Sample {
    /// A pointer that is nowhere near the window.
    pub open spec fn away(now: i64) -> Sample {
        Sample {
            x: (-2_000_000) as i64,
            y: (-2_000_000) as i64,
            height: 0,
            over_window: false,
            owned_popup: false,
            buttons: false,
            clicked: false,
            resize_band: false,
            now,
        }
    }
}

impl Stand {
    /// Where the pointer is.
    pub open spec fn sampled(self, enabled: bool, frame: Option<Frame>, pointer: Option<Pointer>, now: i64) -> Sample {
        match frame {
            None => Sample::away(now),
            Some(f) => {
                let resize_band = !f.maximized && !f.fullscreen;
                match self.pointer {
                    Some(v) => Sample {
                        x: v.x.half,
                        y: v.y.half,
                        height: f.height,
                        over_window: v.over_window,
                        owned_popup: v.owned_popup,
                        buttons: v.buttons,
                        clicked: self.clicked,
                        resize_band,
                        now,
                    },
                    None => match pointer {
                        Some(c) => if !enabled {
                            Sample::away(now)
                        } else {
                            Sample {
                                x: c.x,
                                y: c.y,
                                height: f.height,
                                over_window: c.over_window,
                                owned_popup: c.owned_popup,
                                buttons: c.buttons,
                                clicked: c.clicked,
                                resize_band,
                                now,
                            }
                        },
                        None => Sample::away(now),
                    },
                }
            },
        }
    }

    /// The pointer of the tests was put somewhere.
    pub open spec fn put(self, next: VirtualPointer, now: i64) -> Stand {
        let moved = match self.pointer {
            Some(v) => v.x.bits != next.x.bits || v.y.bits != next.y.bits,
            None => true,
        };
        Stand { pointer: Some(next), moved_at: if moved { Some(now) } else { self.moved_at }, ..self }
    }

    /// A mouse message was posted: the pointer of the tests follows it.
    pub open spec fn followed(self, x: Coordinate, y: Coordinate, buttons: Option<bool>, now: i64) -> Stand {
        match self.pointer {
            None => self,
            Some(v) => {
                let held = match buttons {
                    Some(down) => down,
                    None => v.buttons,
                };
                Stand {
                    pointer: Some(VirtualPointer { x, y, buttons: held, ..v }),
                    clicked: self.clicked || (held && !v.buttons),
                    moved_at: if v.x.bits != x.bits || v.y.bits != y.bits { Some(now) } else { self.moved_at },
                }
            },
        }
    }
}

/// Where the pointer is: that of the tests while there is one, else the real one where pointer reveal is
/// enabled and it is known.
pub fn sample_now(stand: &mut Stand, enabled: bool, frame: Option<Frame>, pointer: Option<Pointer>, now: i64) -> (r: Sample)
    ensures
        r == old(stand).sampled(enabled, frame, pointer, now),
        *final(stand) == (if frame is Some && old(stand).pointer is Some {
            Stand { clicked: false, ..*old(stand) }
        } else {
            *old(stand)
        }),
{
    let f: Frame = match frame {
        Some(f) => f,
        None => {
            return Sample::nowhere(now);
        },
    };
    let resize_band = !f.maximized && !f.fullscreen;
    match stand.pointer {
        Some(v) => {
            let clicked = stand.clicked;
            stand.clicked = false;
            return Sample {
                x: v.x.half,
                y: v.y.half,
                height: f.height,
                over_window: v.over_window,
                owned_popup: v.owned_popup,
                buttons: v.buttons,
                clicked,
                resize_band,
                now,
            };
        },
        None => {},
    }
    if !enabled {
        return Sample::nowhere(now);
    }
    match pointer {
        Some(c) => Sample {
            x: c.x,
            y: c.y,
            height: f.height,
            over_window: c.over_window,
            owned_popup: c.owned_popup,
            buttons: c.buttons,
            clicked: c.clicked,
            resize_band,
            now,
        },
        None => Sample::nowhere(now),
    }
}

/// A mouse message was posted to the window: the pointer of the tests, where there is one, follows it.
pub fn debug_note_mouse(stand: &mut Stand, x: Coordinate, y: Coordinate, buttons: Option<bool>, now: i64)
    ensures
        *final(stand) == old(stand).followed(x, y, buttons, now),
{
    match stand.pointer {
        None => {},
        Some(v) => {
            let mut next: VirtualPointer = v;
            if v.x.bits != x.bits || v.y.bits != y.bits {
                stand.moved_at = Some(now);
            }
            next.x = x;
            next.y = y;
            match buttons {
                Some(down) => {
                    if down && !v.buttons {
                        stand.clicked = true;
                    }
                    next.buttons = down;
                },
                None => {},
            }
            stand.pointer = Some(next);
        },
    }
}

/// A yes or no of a value, with what it is where it is left out.
pub open spec fn flag_of(v: Json, key: Seq<char>, default: bool) -> bool {
    match v.member(key) {
        Some(f) => match f.truth() {
            Some(b) => b,
            None => default,
        },
        None => default,
    }
}

fn flag(v: &Json, key: &str, default: bool) -> (r: bool)
    ensures
        r == flag_of(*v, key@, default),
{
    match v.get(key) {
        Some(f) => match f.as_bool() {
            Some(b) => b,
            None => default,
        },
        None => default,
    }
}

/// What is wrong with an input of the tests.
pub open spec fn input_error(payload: Json, x: Option<Coordinate>, y: Option<Coordinate>) -> Option<Seq<char>> {
    if payload.member("enabled"@) is Some && payload.member("enabled"@)->0.truth() is None {
        Some("enabled must be a boolean"@)
    } else {
        match payload.member("pointer"@) {
            Some(p) => if p is Null {
                None
            } else if x is None {
                Some("pointer.x must be a number"@)
            } else if y is None {
                Some("pointer.y must be a number"@)
            } else {
                None
            },
            None => None,
        }
    }
}

/// Pointer reveal after an input of the tests.
pub open spec fn input_enabled(payload: Json, enabled: bool) -> bool {
    match payload.member("enabled"@) {
        Some(e) => match e.truth() {
            Some(b) => b,
            None => enabled,
        },
        None => enabled,
    }
}

/// The pointer of the tests after an input of theirs.
pub open spec fn input_stand(stand: Stand, payload: Json, x: Option<Coordinate>, y: Option<Coordinate>, now: i64) -> Stand {
    if input_error(payload, x, y) is Some {
        stand
    } else {
        match payload.member("pointer"@) {
            None => stand,
            Some(p) => if p is Null {
                Stand { pointer: None, ..stand }
            } else {
                stand.put(
                    VirtualPointer {
                        x: x->0,
                        y: y->0,
                        buttons: flag_of(p, "buttons"@, false),
                        over_window: flag_of(p, "overWindow"@, true),
                        owned_popup: flag_of(p, "ownedPopup"@, false),
                    },
                    now,
                )
            },
        }
    }
}

/// An input of the tests: `{enabled?}` turns pointer reveal on or off, `{pointer: {x, y, …}}` moves a
/// pointer in place of the real one, `{pointer: null}` goes back to that. `x` and `y`: the position that
/// the input names, where it is one. A failure comes with its status.
pub fn debug_input(
    h: &mut Hover,
    stand: &mut Stand,
    payload: &Json,
    x: Option<Coordinate>,
    y: Option<Coordinate>,
    now: i64,
) -> (r: Result<(), (i32, String)>)
    ensures
        match r {
            Ok(_) => input_error(*payload, x, y) is None,
            Err((status, why)) => status == 400 && input_error(*payload, x, y) == Some(why@),
        },
        *final(h) == (Hover { enabled: input_enabled(*payload, old(h).enabled), ..*old(h) }),
        *final(stand) == input_stand(*old(stand), *payload, x, y, now),
{
    match payload.get("enabled") {
        Some(e) => match e.as_bool() {
            Some(b) => {
                h.enabled = b;
            },
            None => {
                return Err((400, copy_text("enabled must be a boolean")));
            },
        },
        None => {},
    }
    match payload.get("pointer") {
        None => Ok(()),
        Some(Json::Null) => {
            stand.pointer = None;
            Ok(())
        },
        Some(p) => {
            let px: Coordinate = match x {
                Some(v) => v,
                None => {
                    return Err((400, copy_text("pointer.x must be a number")));
                },
            };
            let py: Coordinate = match y {
                Some(v) => v,
                None => {
                    return Err((400, copy_text("pointer.y must be a number")));
                },
            };
            let next = VirtualPointer {
                x: px,
                y: py,
                buttons: flag(p, "buttons", false),
                over_window: flag(p, "overWindow", true),
                owned_popup: flag(p, "ownedPopup", false),
            };
            let moved = match stand.pointer {
                Some(v) => v.x.bits != px.bits || v.y.bits != py.bits,
                None => true,
            };
            if moved {
                stand.moved_at = Some(now);
            }
            stand.pointer = Some(next);
            Ok(())
        },
    }
}

/// A pointer of the tests that is put elsewhere has moved, however near: only the very same place is no
/// move.
pub proof fn any_other_place_is_a_move(stand: Stand, next: VirtualPointer, x: Coordinate, y: Coordinate, now: i64)
    requires
        stand.pointer is Some,
    ensures
        next.x.bits != stand.pointer->0.x.bits || next.y.bits != stand.pointer->0.y.bits ==> stand.put(next, now).moved_at == Some(now),
        next.x.bits == stand.pointer->0.x.bits && next.y.bits == stand.pointer->0.y.bits ==> stand.put(next, now).moved_at == stand.moved_at,
        x.bits != stand.pointer->0.x.bits || y.bits != stand.pointer->0.y.bits ==> stand.followed(x, y, None, now).moved_at == Some(now),
        x.bits == stand.pointer->0.x.bits && y.bits == stand.pointer->0.y.bits ==> stand.followed(x, y, None, now).moved_at
            == stand.moved_at,
{
}

/// Without pointer reveal the real pointer never reveals anything: it counts as being nowhere.
pub proof fn a_disabled_pointer_is_nowhere(stand: Stand, frame: Option<Frame>, pointer: Option<Pointer>, now: i64)
    requires
        stand.pointer is None,
    ensures
        !stand.sampled(false, frame, pointer, now).edge_zone(),
{
}

// ------------------------------------------------------------------------------ what holds

/// After a refresh the overlay is never shown where it can't be, and a pinned one that can be shown is.
pub proof fn a_refresh_settles_the_overlay(h: Hover, a: Around, c: Card)
    ensures
        h.refreshed(a, c).0.machine.visible ==> h.showable(a),
        h.showable(a) && h.machine.pinned ==> h.refreshed(a, c).0.machine.visible,
        h.refreshed(a, c).0.polls(a) ==> h.refreshed(a, c).0.polling,
{
}

/// A reveal cancels a hide that is still under way: neither the end of its slide nor its page's answer
/// hides the overlay any more.
pub proof fn a_reveal_cancels_a_pending_hide(h: Hover, c: Card, generation: u64)
    requires
        generation == h.hide_gen,
        h.machine.visible,
    ensures
        h.performed(Action::Show, c).0.hide_gen != generation,
{
}

/// A reveal while a virtual pointer is set notes how long ago that moved; no other action changes what was
/// noted.
pub proof fn a_reveal_notes_its_latency(h: Hover, c: Card, action: Action)
    ensures
        h.performed(action, c).0.reveal_after == (if action == Action::Show && c.since_move is Some { c.since_move->0 } else { h.reveal_after }),
{
}

/// The overlay has no place over a page in fullscreen, in a window that closes, beside a docked sidebar or
/// before the sidebar page is ready: whatever was going on, after a refresh it is not shown, nothing
/// shows it and nothing watches the pointer; and if it was shown, it goes at once and its page is told.
pub proof fn the_overlay_never_stands_where_it_has_no_place(h: Hover, a: Around, c: Card)
    requires
        a.page_fullscreen || a.closing || !a.parked || !h.ready,
    ensures
        ({
            let (after, effects) = h.refreshed(a, c);
            &&& !after.machine.visible
            &&& !h.pointer_armed(a) && !h.polls(a) && !after.polls(a)
            &&& after.polling == h.polling && after.poll_gen == h.poll_gen
            &&& forall|i: int| 0 <= i < effects.len() ==> !(#[trigger] effects[i] is Poll) && effects[i] != Effect::ShowOverlay && !(effects[i] is SlideInLater)
            &&& effects.contains(Effect::HideOverlay) == h.machine.visible
            &&& effects.contains((Effect::Emit { visible: false, dismiss: true })) == h.machine.visible
        }),
{
    let (after, effects) = h.refreshed(a, c);
    if h.machine.visible {
        assert(effects[3] == Effect::HideOverlay);
        assert(effects[2] == (Effect::Emit { visible: false, dismiss: true }));
    }
}

/// Where the overlay has its place, a refresh takes nothing away: a shown overlay stays, and a hidden one
/// comes exactly if it is pinned, with its contents.
pub proof fn a_pinned_overlay_comes_where_it_has_its_place(h: Hover, a: Around, c: Card)
    requires
        h.ready,
        a.parked,
        !a.page_fullscreen,
        !a.closing,
    ensures
        ({
            let (after, effects) = h.refreshed(a, c);
            &&& after.machine.visible == (h.machine.visible || h.machine.pinned)
            &&& !effects.contains(Effect::HideOverlay)
            &&& effects.contains(Effect::ShowOverlay) == (h.machine.pinned && !h.machine.visible)
            &&& effects.contains((Effect::Emit { visible: true, dismiss: false })) == (h.machine.pinned && !h.machine.visible)
        }),
{
    let (after, effects) = h.refreshed(a, c);
    if h.machine.pinned && !h.machine.visible {
        assert(effects[3] == Effect::ShowOverlay);
        assert(effects[4] == (Effect::Emit { visible: true, dismiss: false }));
    }
}

/// The pointer is watched exactly where it can matter: in a window that is not minimized and where the
/// overlay has its place, while the overlay is shown, or while pointer reveal is enabled and the window is
/// the active one. A watch that begins has a number of its own.
pub proof fn the_pointer_is_watched_where_it_can_matter(h: Hover, a: Around, c: Card)
    ensures
        h.polls(a) <==> h.ready && a.parked && !a.page_fullscreen && !a.closing && !a.minimized && (h.machine.visible || (h.enabled && a.active)),
        h.pointer_armed(a) <==> h.ready && a.parked && !a.page_fullscreen && !a.closing && !a.minimized && h.enabled && a.active,
        ({
            let (after, effects) = h.refreshed(a, c);
            let watched = h.ready && a.parked && !a.page_fullscreen && !a.closing && !a.minimized && (h.machine.visible || h.machine.pinned || (h.enabled
                && a.active));
            &&& after.polling == (h.polling || watched)
            &&& watched && !h.polling ==> after.poll_gen != h.poll_gen && effects.contains(Effect::Poll(after.poll_gen))
            &&& !(watched && !h.polling) ==> after.poll_gen == h.poll_gen && forall|i: int| 0 <= i < effects.len() ==> !(#[trigger] effects[i] is Poll)
        }),
{
    let (after, effects) = h.refreshed(a, c);
    let watched = h.ready && a.parked && !a.page_fullscreen && !a.closing && !a.minimized && (h.machine.visible || h.machine.pinned || (h.enabled
        && a.active));
    if watched && !h.polling {
        assert(effects.last() == Effect::Poll(after.poll_gen));
    }
}

/// What becomes of the overlay when it is revealed: it appears with its contents and nothing takes it away
/// any more. A card that slides starts beyond the edge, or where it stands if it is still on screen; one
/// that does not is where it belongs at once.
pub proof fn a_reveal_shows_the_card(h: Hover, c: Card)
    requires
        c.travel > i32::MIN,
    ensures
        ({
            let (after, effects) = h.performed(Action::Show, c);
            &&& effects.contains(Effect::ShowOverlay)
            &&& effects.contains((Effect::Emit { visible: true, dismiss: false }))
            &&& effects.contains(Effect::CancelExit) && effects.contains(Effect::CancelSlide)
            &&& !effects.contains(Effect::HideOverlay)
            &&& !c.slides ==> effects.contains(Effect::Place(0))
            &&& c.slides && c.on_screen ==> effects.contains(Effect::Place(c.slide))
            &&& c.slides && !c.on_screen ==> exists|to: i32| to == -c.travel && #[trigger] effects.contains(Effect::Place(to))
            &&& forall|g: u64| #[trigger] effects.contains(Effect::SlideInLater(g)) <==> c.slides && g == after.hide_gen
            &&& after.hide_gen != h.hide_gen
            &&& after.machine == h.machine
        }),
{
    let (after, effects) = h.performed(Action::Show, c);
    assert(effects[0] == Effect::CancelExit && effects[1] == Effect::CancelSlide);
    assert(effects[2] is Place);
    assert(effects[3] == Effect::ShowOverlay);
    assert(effects[4] == (Effect::Emit { visible: true, dismiss: false }));
    assert(effects.contains(effects[2]));
    if c.slides {
        assert(effects[5] == Effect::SlideInLater(after.hide_gen));
        if !c.on_screen {
            let to = (-c.travel) as i32;
            assert(to == -c.travel && effects.contains(Effect::Place(to)));
        }
    }
}

/// What becomes of the overlay when it is hidden: a card on screen that slides keeps its contents and
/// leaves by its travel, any other has its page blanked first; it is only taken off the screen when that
/// has ended, by the number of this hide. A focus that is owed is given back, once.
pub proof fn a_hide_lets_the_card_leave(h: Hover, c: Card)
    requires
        c.travel > i32::MIN,
    ensures
        ({
            let (after, effects) = h.performed(Action::Hide, c);
            &&& !effects.contains(Effect::ShowOverlay) && !effects.contains(Effect::HideOverlay)
            &&& c.slides && c.on_screen ==> effects.contains((Effect::Emit { visible: true, dismiss: true })) && exists|to: i32|
                to == -c.travel && #[trigger] effects.contains(Effect::SlideOut(to, after.hide_gen))
            &&& !(c.slides && c.on_screen) ==> effects.contains(Effect::ExitThenHide(after.hide_gen))
            &&& effects.contains(Effect::RefocusLater) == h.machine.refocus_owed
            &&& !after.machine.refocus_owed
            &&& after.hide_gen != h.hide_gen
        }),
{
    let (after, effects) = h.performed(Action::Hide, c);
    if c.slides && c.on_screen {
        assert(effects[0] == (Effect::Emit { visible: true, dismiss: true }));
        let to = (-c.travel) as i32;
        assert(effects[1] == Effect::SlideOut(to, after.hide_gen));
        assert(to == -c.travel && effects.contains(Effect::SlideOut(to, after.hide_gen)));
    } else {
        assert(effects[0] == Effect::ExitThenHide(after.hide_gen));
    }
    if h.machine.refocus_owed {
        assert(effects.last() == Effect::RefocusLater);
    }
}

/// A press outside closes the page's menus, and the transient panel where one is open; it hides nothing.
pub proof fn a_press_outside_closes_menus(h: Hover, c: Card)
    ensures
        ({
            let (after, effects) = h.performed(Action::Dismiss, c);
            &&& effects.contains((Effect::Emit { visible: true, dismiss: true }))
            &&& effects.contains(Effect::ClosePanel) == c.transient_panel
            &&& !effects.contains(Effect::HideOverlay)
            &&& after.machine == h.machine && after.hide_gen == h.hide_gen
        }),
        h.performed(Action::Refocus, c) == (h, seq![Effect::RefocusLater]),
        h.performed(Action::Nothing, c) == (h, Seq::<Effect>::empty()),
{
    let effects = h.performed(Action::Dismiss, c).1;
    assert(effects[0] == (Effect::Emit { visible: true, dismiss: true }));
    if c.transient_panel {
        assert(effects[1] == Effect::ClosePanel);
    }
}

/// A pointer that has rested for 120 ms in the first 8 DIP of the window (12 DIP where the first 4 resize
/// it), or up to 64 DIP left of it, with no button down, reveals the overlay; before that it does not.
pub proof fn a_pointer_at_the_edge_reveals(m: Machine, s: Sample, overlay: Area, from: i64)
    requires
        !m.visible,
        !m.needs_exit,
        m.dwell_since == Some(from),
        !s.buttons,
        0 <= s.y < 2 * s.height,
        (s.over_window && 0 <= s.x < 16) || (s.over_window && s.resize_band && 0 <= s.x < 24) || -128 <= s.x < 0,
    ensures
        s.now - from >= 120 ==> m.asks(s, overlay, true) == Action::Show && m.after(s, overlay, true).visible,
        s.now - from < 120 ==> m.asks(s, overlay, true) == Action::Nothing && !m.after(s, overlay, true).visible && m.after(s, overlay, true).dwell_since
            == Some(from),
        m.asks(s, overlay, false) == Action::Nothing && m.after(s, overlay, false).dwell_since is None,
{
}

/// Away from the edge nothing is revealed, and a wait that had begun there is over: further in, further
/// out, above or below the window, or where another window covers ours.
pub proof fn a_pointer_away_from_the_edge_reveals_nothing(m: Machine, s: Sample, overlay: Area, armed: bool)
    requires
        !m.visible,
        s.x >= 24 || (s.x >= 16 && !s.resize_band) || s.x < -128 || s.y < 0 || s.y >= 2 * s.height || (s.x >= 0 && !s.over_window),
    ensures
        m.asks(s, overlay, armed) == Action::Nothing,
        !m.after(s, overlay, armed).visible,
        m.after(s, overlay, armed).dwell_since is None,
        !m.after(s, overlay, armed).needs_exit,
{
}

/// A button that went down at the edge (or in the 4 DIP that resize the window) keeps the overlay away
/// while it is held, however long the pointer rests.
pub proof fn a_press_at_the_edge_reveals_nothing(m: Machine, s: Sample, overlay: Area, armed: bool)
    requires
        !m.visible,
        s.buttons,
        m.press_in_zone || (m.prev_buttons != Some(true) && s.over_window && 0 <= s.x < 16 && 0 <= s.y < 2 * s.height),
    ensures
        m.asks(s, overlay, armed) == Action::Nothing,
        m.after(s, overlay, armed).press_in_zone,
        m.after(s, overlay, armed).dwell_since is None,
{
}

/// A shown overlay goes with the first sample that is more than 8 DIP outside it and not in the 16 DIP at
/// the window's edge, unless a pin, a lock, a held button or a popup of ours keeps it.
pub proof fn a_pointer_that_leaves_hides(m: Machine, s: Sample, overlay: Area, armed: bool)
    requires
        m.visible,
        m.outside_since is None,
        !m.pinned && !m.locked && !s.buttons && !s.owned_popup,
        s.x >= 32,
        s.x >= 2 * (overlay.x + overlay.w + 8) || s.y >= 2 * (overlay.y + overlay.h + 8) || s.y < 2 * (overlay.y - 8) || s.x < 2 * (overlay.x - 8)
            || !s.over_window,
    ensures
        m.asks(s, overlay, armed) == Action::Hide,
        !m.after(s, overlay, armed).visible,
{
}

/// A shown overlay stays while the pointer is over it, up to 8 DIP beside it, in the 16 DIP at the
/// window's edge, or up to 64 DIP left of the window.
pub proof fn a_pointer_that_stays_keeps_it(m: Machine, s: Sample, overlay: Area, armed: bool)
    requires
        m.visible,
        0 <= s.y < 2 * s.height,
        ({
            ||| -128 <= s.x < 0
            ||| s.over_window && 0 <= s.x < 32
            ||| s.over_window && 0 <= s.x && 2 * (overlay.x - 8) <= s.x < 2 * (overlay.x + overlay.w + 8) && 2 * (overlay.y - 8) <= s.y < 2 * (overlay.y
                + overlay.h + 8)
        }),
    ensures
        m.asks(s, overlay, armed) != Action::Hide,
        m.after(s, overlay, armed).visible,
        m.after(s, overlay, armed).outside_since is None,
{
}

/// A button that goes down outside a shown overlay that stays dismisses its menus; one that goes up after
/// it went down inside hands the focus back.
pub proof fn clicks_beside_a_shown_overlay(m: Machine, s: Sample, overlay: Area, armed: bool)
    requires
        m.visible,
        m.pinned,
        s.over_window,
    ensures
        s.buttons && m.prev_buttons != Some(true) && s.x >= 2 * (overlay.x + overlay.w) && !s.owned_popup ==> m.asks(s, overlay, armed)
            == Action::Dismiss,
        s.buttons && m.prev_buttons != Some(true) && 2 * overlay.x <= s.x < 2 * (overlay.x + overlay.w) && 2 * overlay.y <= s.y < 2 * (overlay.y
            + overlay.h) ==> m.asks(s, overlay, armed) == Action::Nothing && m.after(s, overlay, armed).press_in_overlay,
        !s.buttons && m.prev_buttons == Some(true) && m.press_in_overlay ==> m.asks(s, overlay, armed) == Action::Refocus && !m.after(
            s,
            overlay,
            armed,
        ).press_in_overlay,
        !s.buttons && m.prev_buttons == Some(true) && !m.press_in_overlay ==> m.asks(s, overlay, armed) == Action::Nothing,
{
}

/// A pin brings the overlay where it may come, and its end takes it away unless the page's lock or the
/// pointer (up to 8 DIP beside it) keeps it; the end of a lock likewise, and Escape whatever the lock says.
pub proof fn pins_and_locks_hold_the_overlay(m: Machine, can_show: bool, last: Option<Sample>, overlay: Area)
    ensures
        !m.pinned && !m.visible ==> m.pinning(true, can_show, last, overlay).0.visible == can_show,
        !m.pinned && !m.visible && can_show ==> m.pinning(true, can_show, last, overlay).1 == Action::Show,
        m.visible ==> m.pinning(true, can_show, last, overlay).0.visible && m.pinning(true, can_show, last, overlay).1 == Action::Nothing,
        m.pinning(true, can_show, last, overlay).0.pinned && !m.pinning(false, can_show, last, overlay).0.pinned,
        m.visible && m.pinned && !m.locked && last is None ==> m.pinning(false, can_show, last, overlay).1 == Action::Hide && !m.pinning(
            false,
            can_show,
            last,
            overlay,
        ).0.visible,
        m.visible && m.pinned && m.locked ==> m.pinning(false, can_show, last, overlay).0.visible,
        m.visible && m.locked && !m.pinned && last is None ==> m.locking(false, last, overlay).1 == Action::Hide,
        m.visible && m.locked && m.pinned ==> m.locking(false, last, overlay).0.visible,
        m.visible && last is Some && last->0.over_window && 0 <= last->0.y < 2 * last->0.height && 0 <= last->0.x && 2 * overlay.x <= last->0.x < 2 * (
        overlay.x + overlay.w) && 2 * overlay.y <= last->0.y < 2 * (overlay.y + overlay.h) ==> m.pinning(false, can_show, last, overlay).0.visible
            && m.locking(false, last, overlay).0.visible,
        m.locking(true, last, overlay).1 == Action::Nothing && m.locking(true, last, overlay).0.visible == m.visible,
        m.visible && !m.pinned ==> m.escaping().1 == Action::Hide && !m.escaping().0.visible && m.escaping().0.needs_exit,
        m.pinned || !m.visible ==> m.escaping() == (m, Action::Nothing),
{
}

/// The next look comes within 33 ms while the overlay is shown, the pointer is over the window or within
/// 96 DIP of its left edge, else within 50 ms; never later than a wait in progress ends, and never at once.
pub proof fn the_next_look_comes_in_time(m: Machine, s: Sample)
    ensures
        1 <= m.wait(s) <= 50,
        m.visible || s.over_window || (-192 < s.x < 192 && -192 < s.y < 2 * s.height + 192) ==> m.wait(s) <= 33,
        m.dwell_since is None && m.outside_since is None ==> m.wait(s) == (if m.visible || s.over_window || (-192 < s.x < 192 && -192 < s.y < 2
            * s.height + 192) {
            33
        } else {
            50int
        }),
        m.dwell_since is Some && s.now < m.dwell_since->0 + 120 ==> s.now + m.wait(s) <= m.dwell_since->0 + 120,
{
}

/// A sidebar that is parked goes out of sight, and the pointer has to leave the edge before it comes back;
/// only after a panel, with the pointer still over it, armed and in place, it floats on.
pub proof fn a_parked_sidebar_goes_out_of_sight(h: Hover, after_panel: bool, s: Sample, a: Around, c: Card)
    requires
        !h.machine.pinned,
    ensures
        ({
            let (after, effects) = h.parking(after_panel, s, a, c);
            let floats = after_panel && h.enabled && h.ready && a.parked && !a.page_fullscreen && !a.closing && a.active && !a.minimized && s.keep_zone(
                c.area,
            );
            &&& after.machine.visible == floats
            &&& after.machine.needs_exit == !floats
            &&& effects.contains(Effect::ShowOverlay) == floats
            &&& !after.machine.press_in_zone
        }),
{
    let (after, effects) = h.parking(after_panel, s, a, c);
    let floats = after_panel && h.pointer_armed(a) && s.keep_zone(c.area);
    if floats {
        let m = Machine { needs_exit: true, press_in_zone: false, ..h.machine.hidden() };
        let k = (Hover { machine: Machine { needs_exit: false, ..m }.shown(), last: Some(s), ..h });
        assert(k.performed(Action::Show, c).1[3] == Effect::ShowOverlay);
        assert(effects[3] == Effect::ShowOverlay);
    }
}

/// Pointer reveal is on, unless a debug build is told otherwise.
pub open spec fn reveals(debug_build: bool, variable: Option<Seq<char>>) -> bool {
    !(debug_build && variable is Some && variable->0 == "0"@)
}

/// Pointer reveal is on, unless a debug build is told otherwise.
pub fn enabled(debug_build: bool, variable: Option<&str>) -> (r: bool)
    ensures
        r == reveals(debug_build, crate::text::opt_view(variable)),
        r == !(debug_build && variable is Some && variable->0@ == "0"@),
{
    match variable {
        Some(v) => !(debug_build && same_text(v, "0")),
        None => true,
    }
}

/// Where the last sample was, as it looks from outside.
#[derive(Debug, Clone, Copy, PartialEq, Eq, Structural)]
pub struct SampleState {
    pub x: i64,
    pub y: i64,
    pub over_window: bool,
    pub owned_popup: bool,
    pub buttons: bool,
    pub in_edge_zone: bool,
}

/// The hover reveal as it looks from outside.
#[derive(Debug, Clone, Copy, PartialEq, Eq, Structural)]
pub struct Snapshot {
    pub enabled: bool,
    pub ready: bool,
    pub armed: bool,
    pub polling: bool,
    pub parked: bool,
    pub visible: bool,
    pub overlay_visible: bool,
    pub bounds: Area,
    pub slide: i32,
    /// A slide is under way.
    pub sliding: bool,
    pub pinned: bool,
    pub locked: bool,
    pub needs_exit: bool,
    pub reveal_after: Option<i64>,
    pub counts: Counts,
    pub virtual_pointer: bool,
    pub last: Option<SampleState>,
}

/// A sample as it looks from outside.
pub open spec fn sample_state(s: Sample) -> SampleState {
    SampleState {
        x: s.x,
        y: s.y,
        over_window: s.over_window,
        owned_popup: s.owned_popup,
        buttons: s.buttons,
        in_edge_zone: s.edge_zone(),
    }
}

/// The hover reveal as it looks from outside. `sliding`: a slide of the card is under way.
pub fn debug_snapshot(h: &Hover, a: &Around, c: &Card, stand: &Stand, overlay_visible: bool, sliding: bool) -> (r: Snapshot)
    ensures
        r == (Snapshot {
            enabled: h.enabled,
            ready: h.ready,
            armed: h.pointer_armed(*a),
            polling: h.polling,
            parked: a.parked,
            visible: h.machine.visible,
            overlay_visible,
            bounds: c.area,
            slide: c.slide,
            sliding,
            pinned: h.machine.pinned,
            locked: h.machine.locked,
            needs_exit: h.machine.needs_exit,
            reveal_after: h.reveal_after,
            counts: h.counts,
            virtual_pointer: stand.pointer is Some,
            last: match h.last {
                Some(s) => Some(sample_state(s)),
                None => None,
            },
        }),
{
    let last = match h.last {
        Some(s) => Some(
            SampleState {
                x: s.x,
                y: s.y,
                over_window: s.over_window,
                owned_popup: s.owned_popup,
                buttons: s.buttons,
                in_edge_zone: s.in_edge_zone(),
            },
        ),
        None => None,
    };
    Snapshot {
        enabled: h.enabled,
        ready: h.ready,
        armed: armed(h, a),
        polling: h.polling,
        parked: a.parked,
        visible: h.machine.visible,
        overlay_visible,
        bounds: c.area,
        slide: c.slide,
        sliding,
        pinned: h.machine.pinned,
        locked: h.machine.locked,
        needs_exit: h.machine.needs_exit,
        reveal_after: h.reveal_after,
        counts: h.counts,
        virtual_pointer: stand.pointer.is_some(),
        last,
    }
}

/// What the page of the sidebar is told: whether it is shown, whether it was dismissed, and the generation of the
/// card where there is one.
pub proof fn the_page_is_told_of_the_overlay(visible: bool, dismiss: bool, g: u64)
    ensures
        hover_message(true, false, None) == "{\"visible\":true,\"dismiss\":false}"@,
        hover_message(false, true, None) == "{\"visible\":false,\"dismiss\":true}"@,
        hover_message(false, false, None) == "{\"visible\":false,\"dismiss\":false}"@,
        hover_message(true, false, Some(g)) == "{\"visible\":true,\"dismiss\":false,\"gen\":"@ + decimal(g as nat) + "}"@,
        hover_message(false, true, Some(g)) == "{\"visible\":false,\"dismiss\":true,\"gen\":"@ + decimal(g as nat) + "}"@,
{
    reveal_strlit("{\"visible\":");
    reveal_strlit(",\"dismiss\":");
    reveal_strlit(",\"gen\":");
    reveal_strlit("true");
    reveal_strlit("false");
    reveal_strlit("}");
    reveal_strlit("{\"visible\":true,\"dismiss\":false}");
    reveal_strlit("{\"visible\":false,\"dismiss\":true}");
    reveal_strlit("{\"visible\":false,\"dismiss\":false}");
    reveal_strlit("{\"visible\":true,\"dismiss\":false,\"gen\":");
    reveal_strlit("{\"visible\":false,\"dismiss\":true,\"gen\":");
    assert(hover_message(true, false, None) =~= "{\"visible\":true,\"dismiss\":false}"@);
    assert(hover_message(false, true, None) =~= "{\"visible\":false,\"dismiss\":true}"@);
    assert(hover_message(false, false, None) =~= "{\"visible\":false,\"dismiss\":false}"@);
    assert(hover_message(true, false, Some(g)) =~= "{\"visible\":true,\"dismiss\":false,\"gen\":"@ + decimal(g as nat) + "}"@);
    assert(hover_message(false, true, Some(g)) =~= "{\"visible\":false,\"dismiss\":true,\"gen\":"@ + decimal(g as nat) + "}"@);
}

/// Pointer reveal is switched as the input says, and stays as it is where it says nothing; anything but a truth
/// value is refused.
pub proof fn the_input_switches_pointer_reveal(payload: Json, enabled: bool, x: Option<Coordinate>, y: Option<Coordinate>)
    ensures
        payload.member("enabled"@) == Some(Json::Bool(true)) ==> input_enabled(payload, enabled),
        payload.member("enabled"@) == Some(Json::Bool(false)) ==> !input_enabled(payload, enabled),
        payload.member("enabled"@) is None ==> input_enabled(payload, enabled) == enabled,
        payload.member("enabled"@) is Some && !(payload.member("enabled"@)->0 is Bool) ==> input_error(payload, x, y) == Some("enabled must be a boolean"@),
        payload.member("enabled"@) is None && payload.member("pointer"@) is None ==> input_error(payload, x, y) is None,
        payload.member("enabled"@) is None && payload.member("pointer"@) is Some && !(payload.member("pointer"@)->0 is Null) && x is None ==> input_error(
            payload,
            x,
            y,
        ) == Some("pointer.x must be a number"@),
        payload.member("enabled"@) is None && payload.member("pointer"@) is Some && !(payload.member("pointer"@)->0 is Null) && x is Some && y is None
            ==> input_error(payload, x, y) == Some("pointer.y must be a number"@),
{
}

/// The pointer of the tests is put where the input says, over the window and with no button held unless it says
/// otherwise; `null` takes it away, and an input that is refused changes nothing.
pub proof fn the_input_puts_the_pointer(stand: Stand, payload: Json, x: Coordinate, y: Coordinate, now: i64)
    requires
        payload.member("enabled"@) is None,
    ensures
        payload.member("pointer"@) is None ==> input_stand(stand, payload, Some(x), Some(y), now) == stand,
        payload.member("pointer"@) == Some(Json::Null) ==> input_stand(stand, payload, Some(x), Some(y), now) == (Stand { pointer: None, ..stand }),
        payload.member("pointer"@) is Some && !(payload.member("pointer"@)->0 is Null) ==> {
            let p = payload.member("pointer"@)->0;
            let after = input_stand(stand, payload, Some(x), Some(y), now);
            &&& after.pointer is Some && after.pointer->0.x == x && after.pointer->0.y == y
            &&& p.member("buttons"@) is None ==> !after.pointer->0.buttons
            &&& p.member("overWindow"@) is None ==> after.pointer->0.over_window
            &&& p.member("ownedPopup"@) is None ==> !after.pointer->0.owned_popup
            &&& p.member("buttons"@) == Some(Json::Bool(true)) ==> after.pointer->0.buttons
            &&& p.member("overWindow"@) == Some(Json::Bool(false)) ==> !after.pointer->0.over_window
            &&& p.member("ownedPopup"@) == Some(Json::Bool(true)) ==> after.pointer->0.owned_popup
            &&& stand.pointer is None ==> after.moved_at == Some(now)
            &&& input_stand(stand, payload, None, Some(y), now) == stand
            &&& input_stand(stand, payload, Some(x), None, now) == stand
        },
{
}

/// A mouse message moves the pointer of the tests where there is one, and a button that goes down in it is a
/// click; without such a pointer it changes nothing.
pub proof fn the_pointer_follows_mouse_messages(stand: Stand, x: Coordinate, y: Coordinate, buttons: Option<bool>, now: i64)
    ensures
        stand.pointer is None ==> stand.followed(x, y, buttons, now) == stand,
        stand.pointer is Some ==> {
            let v = stand.pointer->0;
            let after = stand.followed(x, y, buttons, now);
            &&& after.pointer is Some && after.pointer->0.x == x && after.pointer->0.y == y
            &&& after.pointer->0.over_window == v.over_window && after.pointer->0.owned_popup == v.owned_popup
            &&& buttons is None ==> after.pointer->0.buttons == v.buttons && after.clicked == stand.clicked
            &&& buttons is Some ==> after.pointer->0.buttons == buttons->0
            &&& buttons == Some(true) && !v.buttons ==> after.clicked
            &&& stand.clicked ==> after.clicked
            &&& buttons == Some(false) ==> after.clicked == stand.clicked
            &&& v.x.bits != x.bits || v.y.bits != y.bits ==> after.moved_at == Some(now)
            &&& v.x.bits == x.bits && v.y.bits == y.bits ==> after.moved_at == stand.moved_at
        },
{
}

/// Where the pointer is: that of the tests where there is one, else the real one where pointer reveal is enabled
/// and it is known; without a window it is away. Only a window that is neither maximized nor fullscreen has a
/// band to resize it by.
pub proof fn the_pointer_of_the_tests_comes_first(stand: Stand, enabled: bool, f: Frame, c: Pointer, now: i64)
    ensures
        ({
            let s = stand.sampled(enabled, Some(f), Some(c), now);
            &&& stand.pointer is Some ==> s.x == stand.pointer->0.x.half && s.y == stand.pointer->0.y.half && s.buttons == stand.pointer->0.buttons
                && s.over_window == stand.pointer->0.over_window && s.owned_popup == stand.pointer->0.owned_popup && s.clicked == stand.clicked
            &&& stand.pointer is None && enabled ==> s.x == c.x && s.y == c.y
            &&& stand.pointer is Some || enabled ==> s.height == f.height && (s.resize_band <==> !f.maximized && !f.fullscreen) && s.now == now
            &&& stand.pointer is None && !enabled ==> s == Sample::away(now)
        }),
        stand.sampled(enabled, None, Some(c), now) == Sample::away(now),
        stand.pointer is None ==> stand.sampled(enabled, Some(f), None, now) == Sample::away(now),
{
}

/// The measures of the overlay, in DIP and in milliseconds.
pub proof fn the_measures_of_the_overlay()
    ensures
        DWELL_MS == 120,
        HIDE_MS == 0,
        EDGE_ZONE == 8,
        OUTSIDE_SLOP == 64,
        RESIZE_BAND == 4,
        KEEP_MARGIN == 8,
        KEEP_STRIP == 16,
        NEAR_EDGE == 96,
        FAST_POLL_MS == 33,
        SLOW_POLL_MS == 50,
        REFOCUS_DELAY_MS == 60,
{
}

/// A card that slid out is hidden, dismissed and put away, unless it was shown again or hidden another time.
pub proof fn a_card_that_slid_out_is_put_away(h: Hover, generation: u64)
    ensures
        h.hide_gen == generation && !h.machine.visible ==> {
            let e = slid_out(h, generation);
            &&& e.len() == 3
            &&& e[0] == Effect::HideOverlay && e[1] == (Effect::Emit { visible: false, dismiss: true }) && e[2] == Effect::Place(0)
        },
        h.hide_gen != generation || h.machine.visible ==> slid_out(h, generation).len() == 0,
{
}

/// Pointer reveal is on, unless a debug build is told otherwise.
pub proof fn pointer_reveal_is_on(variable: Option<Seq<char>>, v: Seq<char>)
    ensures
        reveals(false, variable),
        reveals(true, None),
        !reveals(true, Some("0"@)),
        v != "0"@ ==> reveals(true, Some(v)),
{
}

} // verus!
