use sta::json::parse;
use sta::sidebar_hover::{
    begin_exit, cancel_exit, debug_input, debug_note_mouse, debug_snapshot, emit_contents, emit_contents_gen, enabled, is_ready, on_docked, on_exited,
    on_sidebar_gone, on_sidebar_load_start, on_sidebar_ready, on_slid_out, on_slide_lead, perform, sample_now, since_move, Effect, Exit, Frame, Pointer, VirtualPointer, Coordinate, Action, Area, Around, Card, Hover, Machine, Sample, Stand, DWELL_MS, FAST_POLL_MS, OUTSIDE_SLOP, SLOW_POLL_MS,
};

const OVERLAY: Area = Area { x: 8, y: 8, w: 248, h: 684 };

/// A position in half DIP: twice a whole number of DIP, or one more for anything up to the next.
fn half(v: f64) -> i64 {
    let floor = v.floor();
    2 * floor as i64 + if v > floor { 1 } else { 0 }
}

fn at(x: f64, y: f64, now: i64) -> Sample {
    Sample { x: half(x), y: half(y), height: 700, over_window: true, owned_popup: false, buttons: false, clicked: false, resize_band: true, now }
}

fn pressed(mut s: Sample) -> Sample {
    s.buttons = true;
    s
}

/// Feeds samples every `step` ms from `from` to `to` (inclusive), built by `make`.
fn hold_sample(m: &mut Machine, make: impl Fn(i64) -> Sample, from: i64, to: i64, step: i64) -> Vec<(i64, Action)> {
    let mut out = Vec::new();
    let mut t = from;
    while t <= to {
        let a = m.step(&make(t), &OVERLAY, true);
        if a != Action::Nothing {
            out.push((t, a));
        }
        t += step;
    }
    out
}

/// Feeds samples every `step` ms from `from` to `to` (inclusive) at one position.
fn hold(m: &mut Machine, x: f64, from: i64, to: i64, step: i64) -> Vec<(i64, Action)> {
    let mut out = Vec::new();
    let mut t = from;
    while t <= to {
        let a = m.step(&at(x, 300.0, t), &OVERLAY, true);
        if a != Action::Nothing {
            out.push((t, a));
        }
        t += step;
    }
    out
}

#[test]
fn the_edge_zone_covers_the_resize_band_and_the_slop_outside_the_window() {
    let s = |x: f64, band: bool| Sample { resize_band: band, ..at(x, 300.0, 0) };
    // Restored: everything left of the band's far side, maximized: left of the zone itself.
    assert!(s(0.0, true).in_edge_zone() && s(3.9, true).in_edge_zone(), "the resize band reveals too");
    assert!(s(4.0, true).in_edge_zone() && s(11.9, true).in_edge_zone() && !s(12.0, true).in_edge_zone());
    assert!(s(0.0, false).in_edge_zone() && s(7.9, false).in_edge_zone() && !s(8.0, false).in_edge_zone());
    // Outside the window's left edge: the overshoot of a pointer thrown at it still counts…
    let outside = |x: f64| Sample { over_window: false, ..s(x, true) };
    assert!(outside(-0.1).in_edge_zone() && outside(-(OUTSIDE_SLOP as f64)).in_edge_zone());
    assert!(!outside(-(OUTSIDE_SLOP as f64) - 0.1).in_edge_zone(), "…but the pointer is somewhere else by then");
    assert!(!Sample { over_window: false, ..s(6.0, true) }.in_edge_zone(), "another window covers the edge");
    assert!(!at(6.0, -1.0, 0).in_edge_zone() && !at(6.0, 700.0, 0).in_edge_zone(), "full client height only");
    assert!(outside(-10.0).in_keep_zone(&OVERLAY), "the keep zone reaches out just as far");
    assert!(!Sample { y: half(700.0), ..outside(-10.0) }.in_keep_zone(&OVERLAY));
    assert!(!Sample { x: half(-(OUTSIDE_SLOP as f64) - 1.0), ..outside(-10.0) }.in_keep_zone(&OVERLAY));
}

#[test]
fn a_flick_past_the_window_edge_reveals() {
    // The pointer leaves the window on its way to the edge and rests just outside it.
    let mut m = Machine::default();
    let out = |x: f64, t: i64| Sample { over_window: false, ..at(x, 300.0, t) };
    m.step(&at(300.0, 300.0, 0), &OVERLAY, true);
    assert_eq!(m.step(&out(-20.0, 33), &OVERLAY, true), Action::Nothing);
    assert_eq!(m.step(&out(-20.0, 100), &OVERLAY, true), Action::Nothing);
    assert_eq!(m.step(&out(-20.0, 153), &OVERLAY, true), Action::Show);
    // …and it stays open there.
    assert_eq!(m.step(&out(-20.0, 1000), &OVERLAY, true), Action::Nothing);
    assert!(m.visible);
    // Far outside: no reveal, and a shown overlay hides.
    let mut m = Machine::default();
    assert_eq!(hold_sample(&mut m, |t| out(-200.0, t), 0, 600, 30), vec![]);
}

#[test]
fn reveals_after_the_dwell_not_before() {
    let mut m = Machine::default();
    assert_eq!(hold(&mut m, 6.0, 0, 110, 10), vec![]);
    assert!(!m.visible);
    assert_eq!(m.step(&at(6.0, 300.0, 120), &OVERLAY, true), Action::Show);
    assert!(m.visible);

    // Leaving the zone in between restarts the dwell.
    let mut m = Machine::default();
    hold(&mut m, 6.0, 0, 60, 30);
    assert_eq!(m.step(&at(40.0, 300.0, 90), &OVERLAY, true), Action::Nothing);
    assert_eq!(hold(&mut m, 6.0, 100, 210, 10), vec![]);
    assert_eq!(m.step(&at(6.0, 300.0, 220), &OVERLAY, true), Action::Show);

    // Not armed (inactive window, disabled): no reveal.
    let mut m = Machine::default();
    for t in (0..500).step_by(33) {
        assert_eq!(m.step(&at(6.0, 300.0, t), &OVERLAY, false), Action::Nothing);
    }
}

#[test]
fn next_delay_hits_the_deadlines() {
    let mut m = Machine::default();
    let elsewhere = |x: f64| Sample { over_window: false, ..at(x, 300.0, 0) };
    assert_eq!(m.next_delay(&elsewhere(500.0)), SLOW_POLL_MS, "over another window, far from our left edge");
    assert_eq!(m.next_delay(&elsewhere(60.0)), FAST_POLL_MS, "near our left edge");
    assert_eq!(m.next_delay(&elsewhere(-60.0)), FAST_POLL_MS, "just left of our window");
    assert_eq!(m.next_delay(&Sample::nowhere(0)), SLOW_POLL_MS);
    m.step(&at(6.0, 300.0, 1000), &OVERLAY, true);
    assert_eq!(m.next_delay(&at(6.0, 300.0, 1100)), 20, "wakes up at the dwell deadline");
    m.step(&at(6.0, 300.0, 1120), &OVERLAY, true);
    // Shown, and the pointer inside it: no deadline to wake for (leaving hides it at the next
    // sample), so the interval is the plain fast poll.
    assert!(m.visible);
    assert_eq!(m.next_delay(&at(100.0, 300.0, 1200)), FAST_POLL_MS);
}

#[test]
fn hides_at_the_first_sample_outside_the_keep_zone() {
    let mut m = Machine { visible: true, ..Machine::default() };
    // Inside the overlay and its 8 DIP margin, and in the strip left of x = 16: stays.
    assert_eq!(hold(&mut m, 200.0, 0, 1000, 33), vec![]);
    assert_eq!(hold(&mut m, 8.0 + 248.0 + 7.9, 1000, 2000, 33), vec![]);
    assert!(at(10.0, 699.0, 0).in_keep_zone(&OVERLAY) && at(15.9, 699.0, 0).in_keep_zone(&OVERLAY));
    assert!(!at(8.0 + 248.0 + 8.0, 300.0, 0).in_keep_zone(&OVERLAY));
    assert!(!Sample { over_window: false, ..at(200.0, 300.0, 0) }.in_keep_zone(&OVERLAY));
    // Outside it: gone at once — what takes time is the card's slide out, which is the shell's.
    assert_eq!(m.step(&at(600.0, 300.0, 2033), &OVERLAY, true), Action::Hide);
    assert!(!m.visible);
    // Every sample of the way out counts, not just the first one after a dwell.
    let mut m = Machine { visible: true, ..Machine::default() };
    assert_eq!(m.step(&at(100.0, 300.0, 0), &OVERLAY, true), Action::Nothing);
    assert_eq!(m.step(&at(263.9, 300.0, 33), &OVERLAY, true), Action::Nothing, "still in the 8 DIP margin");
    assert_eq!(m.step(&at(600.0, 300.0, 66), &OVERLAY, true), Action::Hide);
}

#[test]
fn a_held_button_an_owned_popup_or_a_pin_hold_it_open() {
    // A press that started inside and is dragged out: the held button holds it open.
    let mut m = Machine { visible: true, ..Machine::default() };
    m.step(&at(100.0, 300.0, 0), &OVERLAY, true);
    assert_eq!(m.step(&pressed(at(100.0, 300.0, 33)), &OVERLAY, true), Action::Nothing);
    assert_eq!(m.step(&pressed(at(600.0, 300.0, 300)), &OVERLAY, true), Action::Nothing, "held outside: stays");
    assert_eq!(m.step(&pressed(at(600.0, 300.0, 900)), &OVERLAY, true), Action::Nothing);
    // Released out there it hides at once — and still hands focus back for that click.
    assert_eq!(m.step(&at(600.0, 300.0, 1000), &OVERLAY, true), Action::Hide);
    assert!(m.take_refocus() && !m.take_refocus(), "the owed refocus is taken exactly once");

    // The pointer over a popup of ours (a select list): not in the window, still ours.
    let mut m = Machine { visible: true, ..Machine::default() };
    let popup = Sample { over_window: false, owned_popup: true, ..at(300.0, 300.0, 0) };
    assert_eq!(m.step(&popup, &OVERLAY, true), Action::Nothing);
    assert_eq!(m.step(&Sample { now: 3000, ..popup }, &OVERLAY, true), Action::Nothing);
    assert!(m.visible);

    // A pin (a transient panel) holds it wherever the pointer is.
    let mut m = Machine { visible: true, pinned: true, ..Machine::default() };
    assert_eq!(hold(&mut m, 600.0, 0, 9000, 300), vec![]);
    assert!(m.visible);
}

#[test]
fn press_in_the_zone_blocks_the_reveal_but_a_drag_entering_it_counts() {
    // Pressed at the edge (resize, a click in the gap): nothing while held.
    let mut m = Machine::default();
    m.step(&at(6.0, 300.0, 0), &OVERLAY, true);
    for t in (10..600).step_by(30) {
        assert_eq!(m.step(&pressed(at(6.0, 300.0, t)), &OVERLAY, true), Action::Nothing);
    }
    // Released: the dwell starts again.
    assert_eq!(m.step(&at(6.0, 300.0, 600), &OVERLAY, true), Action::Nothing);
    assert_eq!(m.step(&at(6.0, 300.0, 700), &OVERLAY, true), Action::Nothing);
    assert_eq!(m.step(&at(6.0, 300.0, 720), &OVERLAY, true), Action::Show);

    // A drag that started in the page and moves into the zone reveals.
    let mut m = Machine::default();
    m.step(&at(300.0, 300.0, 0), &OVERLAY, true);
    m.step(&pressed(at(300.0, 300.0, 30)), &OVERLAY, true);
    assert_eq!(m.step(&pressed(at(6.0, 300.0, 60)), &OVERLAY, true), Action::Nothing);
    assert_eq!(m.step(&pressed(at(6.0, 300.0, 180)), &OVERLAY, true), Action::Show);
    // …and the held drag keeps it open outside the keep zone.
    assert_eq!(m.step(&pressed(at(900.0, 300.0, 300)), &OVERLAY, true), Action::Nothing);
    assert_eq!(m.step(&pressed(at(900.0, 300.0, 2000)), &OVERLAY, true), Action::Nothing);
    assert!(m.visible);
}

#[test]
fn a_press_outside_the_shown_overlay_dismisses_once() {
    let mut m = Machine { visible: true, ..Machine::default() };
    m.step(&at(100.0, 300.0, 0), &OVERLAY, true);
    assert_eq!(m.step(&pressed(at(100.0, 300.0, 30)), &OVERLAY, true), Action::Nothing, "inside the overlay");
    m.step(&at(100.0, 300.0, 60), &OVERLAY, true);
    assert_eq!(m.step(&pressed(at(262.0, 300.0, 90)), &OVERLAY, true), Action::Dismiss, "in the margin, outside the overlay");
    assert_eq!(m.step(&pressed(at(262.0, 300.0, 120)), &OVERLAY, true), Action::Nothing, "only on the press edge");
    m.step(&at(262.0, 300.0, 150), &OVERLAY, true);
    let popup = Sample { over_window: false, owned_popup: true, ..pressed(at(400.0, 300.0, 180)) };
    assert_eq!(m.step(&popup, &OVERLAY, true), Action::Nothing, "a click in our own popup");
}

#[test]
fn a_click_inside_the_shown_overlay_refocuses_after_the_release() {
    let mut m = Machine { visible: true, ..Machine::default() };
    m.step(&at(100.0, 300.0, 0), &OVERLAY, true);
    assert_eq!(m.step(&pressed(at(100.0, 300.0, 33)), &OVERLAY, true), Action::Nothing);
    assert_eq!(m.step(&pressed(at(120.0, 300.0, 66)), &OVERLAY, true), Action::Nothing, "dragging a row");
    // Released outside the keep zone: it hides there and then, and the focus hand-back the
    // click earned rides along with the hide (`take_refocus`) instead of being dropped.
    assert_eq!(m.step(&at(400.0, 300.0, 99), &OVERLAY, true), Action::Hide);
    assert!(m.take_refocus() && !m.take_refocus());
    // Released inside it: the plain refocus, once.
    let mut m = Machine { visible: true, ..Machine::default() };
    m.step(&at(100.0, 300.0, 0), &OVERLAY, true);
    m.step(&pressed(at(100.0, 300.0, 33)), &OVERLAY, true);
    assert_eq!(m.step(&at(120.0, 300.0, 99), &OVERLAY, true), Action::Refocus, "released inside");
    assert_eq!(m.step(&at(100.0, 300.0, 132), &OVERLAY, true), Action::Nothing, "once");
    assert!(!m.take_refocus(), "nothing owed: the action was returned");
    // A click shorter than the poll interval.
    let quick = Sample { clicked: true, ..at(100.0, 300.0, 165) };
    assert_eq!(m.step(&quick, &OVERLAY, true), Action::Refocus);
    // A press that started outside never refocuses (here it dismisses: a lock holds the card
    // open, which is the only way a press lands outside it without hiding it).
    let mut m = Machine { visible: true, locked: true, ..Machine::default() };
    m.step(&at(600.0, 300.0, 167), &OVERLAY, true);
    assert_eq!(m.step(&pressed(at(600.0, 300.0, 200)), &OVERLAY, true), Action::Dismiss);
    assert_eq!(m.step(&at(100.0, 300.0, 233), &OVERLAY, true), Action::Nothing);
    assert!(!m.take_refocus());
    // Hidden: clicks elsewhere are not ours.
    let mut m = Machine::default();
    m.step(&pressed(at(100.0, 300.0, 0)), &OVERLAY, true);
    assert_eq!(m.step(&at(100.0, 300.0, 33), &OVERLAY, true), Action::Nothing);
}

#[test]
fn needs_exit_after_park_escape_and_snap() {
    let mut m = Machine::default();
    m.on_parked();
    assert_eq!(hold(&mut m, 6.0, 0, 1000, 33), vec![], "Ctrl+S with the pointer at the edge");
    assert!(m.needs_exit);
    m.step(&at(50.0, 300.0, 1000), &OVERLAY, true);
    assert!(!m.needs_exit);
    assert_eq!(hold(&mut m, 6.0, 1100, 1300, 10), vec![(1220, Action::Show)]);
    // Esc hides; resting in the zone doesn't bring it back.
    assert_eq!(m.escape(), Action::Hide);
    assert_eq!(hold(&mut m, 6.0, 1300, 2000, 33), vec![]);
    m.step(&at(50.0, 300.0, 2000), &OVERLAY, true);
    assert_eq!(hold(&mut m, 6.0, 2100, 2300, 10).first(), Some(&(2220, Action::Show)));
    m.escape();
    // The window moved under a resting pointer (Aero Snap).
    let mut m = Machine::default();
    m.step(&at(6.0, 300.0, 0), &OVERLAY, true);
    m.on_bounds_changed();
    assert_eq!(hold(&mut m, 6.0, 30, 600, 30), vec![]);
    // Bounds changes with the pointer elsewhere change nothing.
    let mut m = Machine::default();
    m.step(&at(300.0, 300.0, 0), &OVERLAY, true);
    m.on_bounds_changed();
    assert!(!m.needs_exit);
}

#[test]
fn pinning_shows_at_once_and_unpinning_hides_outside_the_keep_zone() {
    let mut m = Machine::default();
    assert_eq!(m.set_pinned(true, false, None, &OVERLAY), Action::Nothing, "not showable yet (page not ready)");
    assert!(m.pinned && !m.visible);
    m.pinned = false;
    assert_eq!(m.set_pinned(true, true, None, &OVERLAY), Action::Show);
    assert_eq!(m.set_pinned(true, true, None, &OVERLAY), Action::Nothing, "no change");
    assert_eq!(m.escape(), Action::Nothing, "Esc leaves a pinned overlay alone");
    assert_eq!(m.set_pinned(false, true, Some(at(900.0, 300.0, 0)), &OVERLAY), Action::Hide);
    assert!(!m.visible);
    // Un-pinned with the pointer over it: it stays, and goes when the pointer leaves.
    m.set_pinned(true, true, None, &OVERLAY);
    assert_eq!(m.set_pinned(false, true, Some(at(100.0, 300.0, 0)), &OVERLAY), Action::Nothing);
    assert!(m.visible);
    assert_eq!(m.step(&at(100.0, 300.0, 100), &OVERLAY, true), Action::Nothing);
    assert_eq!(m.step(&at(900.0, 300.0, 500), &OVERLAY, true), Action::Hide);
    // Nowhere (pointer reveal disabled) is never in a zone.
    assert!(!Sample::nowhere(0).in_edge_zone() && !Sample::nowhere(0).in_keep_zone(&OVERLAY));
}

#[test]
fn a_page_lock_keeps_it_open_and_unlocking_outside_hides_at_once() {
    // A lock (HTML context menu open) never shows a hidden overlay.
    let mut m = Machine::default();
    assert_eq!(m.set_locked(true, None, &OVERLAY), Action::Nothing);
    assert!(m.locked && !m.visible);
    assert_eq!(m.set_locked(false, None, &OVERLAY), Action::Nothing);

    // Shown and locked: the pointer away for a long time doesn't hide it.
    let mut m = Machine { visible: true, ..Machine::default() };
    m.step(&at(100.0, 300.0, 0), &OVERLAY, true);
    assert_eq!(m.set_locked(true, None, &OVERLAY), Action::Nothing);
    assert_eq!(m.set_locked(true, None, &OVERLAY), Action::Nothing, "no change");
    assert_eq!(hold(&mut m, 700.0, 100, 3000, 33), vec![], "menu open, pointer over the page");
    assert!(m.visible);
    // A press outside dismisses (the page closes its menu), then the unlock hides it at once.
    assert_eq!(m.step(&pressed(at(700.0, 300.0, 3033)), &OVERLAY, true), Action::Dismiss);
    let last = pressed(at(700.0, 300.0, 3033));
    assert_eq!(m.set_locked(false, Some(last), &OVERLAY), Action::Hide);
    assert!(!m.visible && !m.locked);

    // Unlocked with the pointer in the keep zone (a menu item picked): it stays until the
    // pointer leaves, and hides on the first sample outside.
    let mut m = Machine { visible: true, locked: true, ..Machine::default() };
    assert_eq!(m.set_locked(false, Some(at(100.0, 300.0, 0)), &OVERLAY), Action::Nothing);
    assert_eq!(m.step(&at(100.0, 300.0, 33), &OVERLAY, true), Action::Nothing);
    assert_eq!(m.step(&at(700.0, 300.0, 66), &OVERLAY, true), Action::Hide);

    // Pin and lock hold it independently: releasing one keeps it while the other holds.
    let mut m = Machine { visible: true, pinned: true, locked: true, ..Machine::default() };
    let away = at(700.0, 300.0, 0);
    assert_eq!(m.set_pinned(false, true, Some(away), &OVERLAY), Action::Nothing, "still locked (the page closes its popover a moment later)");
    assert_eq!(m.set_locked(false, Some(away), &OVERLAY), Action::Hide);
    let mut m = Machine { visible: true, pinned: true, locked: true, ..Machine::default() };
    assert_eq!(m.set_locked(false, Some(away), &OVERLAY), Action::Nothing, "still pinned");
    assert_eq!(m.set_pinned(false, true, Some(away), &OVERLAY), Action::Hide);

    // Esc hides a locked overlay (the hide closes the page's menus); a pin still blocks it.
    let mut m = Machine { visible: true, locked: true, ..Machine::default() };
    assert_eq!(m.escape(), Action::Hide);
    let mut m = Machine { visible: true, pinned: true, locked: true, ..Machine::default() };
    assert_eq!(m.escape(), Action::Nothing);
}

#[test]
fn a_press_in_the_resize_band_that_drifts_into_the_zone_does_not_reveal() {
    let band = |x: f64| Sample { resize_band: true, ..at(x, 300.0, 0) };
    assert!(band(0.0).in_resize_band() && band(3.9).in_resize_band() && !band(4.0).in_resize_band());
    assert!(band(2.0).in_edge_zone(), "the band is part of the zone: hovering it reveals, pressing it does not");
    assert!(!Sample { resize_band: false, ..band(2.0) }.in_resize_band(), "maximized: no band");
    assert!(!Sample { over_window: false, ..band(2.0) }.in_resize_band());

    // Pressed at x = 2 (resizing from the left edge), moved to x = 7 while held: nothing.
    let mut m = Machine::default();
    m.step(&at(2.0, 300.0, 0), &OVERLAY, true);
    m.step(&pressed(at(2.0, 300.0, 33)), &OVERLAY, true);
    for t in (66..900).step_by(33) {
        assert_eq!(m.step(&pressed(at(7.0, 300.0, t)), &OVERLAY, true), Action::Nothing, "t = {t}");
    }
    // Released in the zone: the dwell starts then.
    assert_eq!(m.step(&at(7.0, 300.0, 900), &OVERLAY, true), Action::Nothing);
    assert_eq!(m.step(&at(7.0, 300.0, 1020), &OVERLAY, true), Action::Show);

    // A maximized window has no band: x = 2 is the zone itself (still blocked while held).
    let mut m = Machine::default();
    let max = |x: f64, t: i64| Sample { resize_band: false, ..at(x, 300.0, t) };
    m.step(&max(2.0, 0), &OVERLAY, true);
    m.step(&Sample { buttons: true, ..max(2.0, 33) }, &OVERLAY, true);
    assert_eq!(m.step(&Sample { buttons: true, ..max(5.0, 400) }, &OVERLAY, true), Action::Nothing);

    // A drag that starts in the page and crosses the band into the zone still reveals.
    let mut m = Machine::default();
    m.step(&at(300.0, 300.0, 0), &OVERLAY, true);
    m.step(&pressed(at(300.0, 300.0, 33)), &OVERLAY, true);
    m.step(&pressed(at(2.0, 300.0, 66)), &OVERLAY, true);
    m.step(&pressed(at(6.0, 300.0, 99)), &OVERLAY, true);
    assert_eq!(m.step(&pressed(at(6.0, 300.0, 219)), &OVERLAY, true), Action::Show);
}

/// Runs the poll loop (`next_delay` scheduling) with the pointer at `before` until `arrive`,
/// then at the edge; returns the reveal time after the arrival.
fn reveal_latency(before: Sample, arrive: i64) -> i64 {
    let mut m = Machine::default();
    let mut t = 0;
    loop {
        let s = if t < arrive { Sample { now: t, ..before } } else { at(6.0, 300.0, t) };
        if m.step(&s, &OVERLAY, true) == Action::Show {
            return t - arrive;
        }
        t += m.next_delay(&s);
        assert!(t < arrive + 5000, "never revealed");
    }
}

#[test]
fn reveal_latency_is_the_dwell_plus_at_most_one_poll() {
    // The pointer jumps to the edge from far inside the window, at every phase of the poll.
    let far_inside = at(900.0, 300.0, 0);
    let worst = (1000..1000 + FAST_POLL_MS).map(|arrive| reveal_latency(far_inside, arrive)).max().unwrap();
    assert!((DWELL_MS..=DWELL_MS + FAST_POLL_MS).contains(&worst), "from inside the window: {worst} ms");
    // From another window (e.g. a second monitor) far from our left edge.
    let elsewhere = Sample { over_window: false, ..at(3000.0, 300.0, 0) };
    let worst = (1000..1000 + SLOW_POLL_MS).map(|arrive| reveal_latency(elsewhere, arrive)).max().unwrap();
    assert!((DWELL_MS..=DWELL_MS + SLOW_POLL_MS).contains(&worst) && worst <= 170, "from another window: {worst} ms");
}

#[test]
fn the_reveal_as_it_looks_from_outside() {
    assert!(enabled(true, None) && enabled(true, Some("1")) && !enabled(true, Some("0")) && enabled(false, Some("0")));
    let mut hover = Hover::new(true);
    hover.ready = true;
    hover.last = Some(at(2.5, 100.0, 7));
    let around = Around { parked: true, page_fullscreen: false, closing: false, active: true, minimized: false };
    let card = Card { area: OVERLAY, slides: false, on_screen: false, slide: 0, travel: 0, transient_panel: false, since_move: None };
    let shot = debug_snapshot(&hover, &around, &card, &Stand { pointer: None, clicked: false, moved_at: None }, false, true);
    assert!(shot.armed && shot.ready && !shot.visible && !shot.virtual_pointer);
    assert!(shot.last.is_some_and(|s| s.x == 5 && s.in_edge_zone));
}

fn parked() -> Around {
    Around { parked: true, page_fullscreen: false, closing: false, active: true, minimized: false }
}

fn still() -> Card {
    Card { area: OVERLAY, slides: false, on_screen: false, slide: 0, travel: 256, transient_panel: false, since_move: None }
}

#[test]
fn a_hide_ends_with_its_own_number() {
    let mut hover = Hover::new(true);
    hover.hide_gen = 4;
    assert_eq!(on_slid_out(&hover, 4), [Effect::HideOverlay, Effect::Emit { visible: false, dismiss: true }, Effect::Place(0)]);
    assert!(on_slid_out(&hover, 3).is_empty());
    assert_eq!((on_exited(&hover, 4), on_exited(&hover, 3)), (Some(Effect::HideOverlay), None));
    hover.machine.visible = true;
    assert!(on_slid_out(&hover, 4).is_empty() && on_exited(&hover, 4).is_none());
    assert_eq!((on_slide_lead(&hover, 4), on_slide_lead(&hover, 3)), (Some(Effect::SlideIn), None));
    assert_eq!((begin_exit(Some(1), 90), begin_exit(None, 90)), (Exit::Ask(1, 90), Exit::After(90)));
    assert_eq!(cancel_exit(Some(1)), Some(1));
}

#[test]
fn the_page_is_told_what_is_on_screen() {
    assert_eq!(emit_contents(None, true, false), None);
    let (browser, plain) = emit_contents(Some(3), true, false).unwrap();
    assert_eq!(browser, 3);
    assert!(parse(&plain).is_some_and(|v| v.get("visible").and_then(|b| b.as_bool()) == Some(true) && v.get("gen").is_none()), "{plain}");
    let (_, numbered) = emit_contents_gen(Some(3), false, true, Some(9)).unwrap();
    assert!(parse(&numbered).is_some_and(|v| v.get("dismiss").and_then(|b| b.as_bool()) == Some(true) && v.get("gen").and_then(|n| n.as_u64()) == Some(9)), "{numbered}");
}

#[test]
fn the_sidebar_page_comes_and_goes() {
    let mut hover = Hover::new(true);
    assert!(!is_ready(&hover));
    on_sidebar_ready(&mut hover, &parked(), &still());
    assert!(is_ready(&hover) && hover.polling);
    hover.machine.locked = true;
    on_sidebar_load_start(&mut hover, &parked(), &still());
    assert!(!hover.machine.locked);
    on_sidebar_gone(&mut hover, &parked(), &still());
    assert!(!is_ready(&hover));
    hover.machine.visible = true;
    let out = on_docked(&mut hover, &Around { parked: false, ..parked() }, &still());
    assert!(out.starts_with(&[Effect::CancelExit, Effect::CancelSlide, Effect::Place(0)]) && !hover.machine.visible);
}

/// A coordinate in DIP.
fn dip(v: f64) -> Coordinate {
    Coordinate { half: 2 * v.floor() as i64 + i64::from(v > v.floor()), bits: v.to_bits() }
}

#[test]
fn a_move_within_a_half_dip_is_a_move() {
    let mut hover = Hover::new(false);
    let mut stand = Stand { pointer: None, clicked: false, moved_at: None };
    let payload = parse("{\"pointer\":{\"x\":5.2,\"y\":4}}").unwrap();
    assert_eq!(debug_input(&mut hover, &mut stand, &payload, Some(dip(5.2)), Some(dip(4.0)), 9), Ok(()));
    assert_eq!(debug_input(&mut hover, &mut stand, &payload, Some(dip(5.2)), Some(dip(4.0)), 10), Ok(()));
    assert_eq!(stand.moved_at, Some(9), "it stayed");
    assert_eq!(debug_input(&mut hover, &mut stand, &payload, Some(dip(5.7)), Some(dip(4.0)), 11), Ok(()));
    assert_eq!((stand.moved_at, dip(5.2).half, dip(5.7).half), (Some(11), 11, 11));
    debug_note_mouse(&mut stand, dip(5.7), dip(4.0), None, 12);
    assert_eq!(stand.moved_at, Some(11));
    debug_note_mouse(&mut stand, dip(5.7), dip(4.1), None, 13);
    assert_eq!(stand.moved_at, Some(13));
}

#[test]
fn a_virtual_pointer_stands_in_for_the_cursor() {
    let mut stand = Stand { pointer: None, clicked: false, moved_at: None };
    let frame = Some(Frame { height: 700, maximized: false, fullscreen: false });
    let cursor = Pointer { x: 40, y: 60, buttons: false, clicked: true, over_window: true, owned_popup: false };
    let real = sample_now(&mut stand, true, frame, Some(cursor), 5);
    assert_eq!((real.x, real.y, real.clicked, real.resize_band, real.now), (40, 60, true, true, 5));
    assert_eq!(sample_now(&mut stand, false, frame, Some(cursor), 5), Sample::nowhere(5));
    assert_eq!(sample_now(&mut stand, true, None, Some(cursor), 5), Sample::nowhere(5));
    let mut hover = Hover::new(false);
    let payload = parse("{\"enabled\":true,\"pointer\":{\"x\":3,\"y\":4,\"buttons\":true}}").unwrap();
    assert_eq!(debug_input(&mut hover, &mut stand, &payload, Some(dip(3.0)), Some(dip(4.0)), 9), Ok(()));
    assert!(hover.enabled && stand.pointer == Some(VirtualPointer { x: dip(3.0), y: dip(4.0), buttons: true, over_window: true, owned_popup: false }));
    let given = sample_now(&mut stand, false, frame, None, 10);
    assert_eq!((given.x, given.y, given.buttons), (6, 8, true));
    debug_note_mouse(&mut stand, dip(10.0), dip(15.0), Some(false), 11);
    assert!(stand.pointer.is_some_and(|p| p.x.half == 20 && !p.buttons));
    assert!(debug_input(&mut hover, &mut stand, &parse("{\"pointer\":{}}").unwrap(), None, None, 12).is_err_and(|e| e.0 == 400));
    assert_eq!(debug_input(&mut hover, &mut stand, &parse("{\"pointer\":null}").unwrap(), None, None, 12), Ok(()));
    assert!(stand.pointer.is_none());
}

#[test]
fn a_reveal_notes_its_latency() {
    let pointer = VirtualPointer { x: dip(0.5), y: dip(1.0), buttons: false, over_window: true, owned_popup: false };
    let stand = Stand { pointer: Some(pointer), clicked: false, moved_at: Some(100) };
    assert_eq!((since_move(&stand, 160), since_move(&Stand { moved_at: None, ..stand }, 160)), (Some(Some(60)), Some(None)));
    assert_eq!(since_move(&Stand { pointer: None, ..stand }, 160), None);
    let (mut hover, mut out) = (Hover::new(true), Vec::new());
    perform(&mut hover, Action::Show, &Card { since_move: Some(Some(60)), ..still() }, &mut out);
    perform(&mut hover, Action::Hide, &Card { since_move: Some(Some(99)), ..still() }, &mut out);
    perform(&mut hover, Action::Show, &still(), &mut out);
    assert_eq!(debug_snapshot(&hover, &parked(), &still(), &stand, false, false).reveal_after, Some(60));
}
