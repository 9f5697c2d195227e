use sta::safe_mode::{decide, marker_in, marker_text, startup, CRASH_WINDOW_MS};

#[test]
fn two_startup_crashes_in_a_row_mean_safe_mode() {
    let now: i64 = 10_000_000;
    // First run ever: no marker.
    assert_eq!(decide(None, now), (false, 0));
    // A run that died 2 s after launching: one startup crash, not safe mode yet.
    assert_eq!(decide(Some((now - 2_000, 0)), now), (false, 1));
    // …and again: safe mode, with the count cleared so the next launch is normal.
    assert_eq!(decide(Some((now - 2_000, 1)), now), (true, 0));
    // A run that lived for an hour and then crashed is not a startup loop.
    assert_eq!(decide(Some((now - 3_600_000, 1)), now), (false, 0));
    // The window's edge: one millisecond past it the run "lived long enough", exactly on it the
    // run still counts as a startup crash.
    assert_eq!(decide(Some((now - CRASH_WINDOW_MS - 1, 1)), now), (false, 0));
    assert_eq!(decide(Some((now - CRASH_WINDOW_MS, 1)), now), (true, 0));
    // A marker from the future (a clock change) is not a crash loop by itself.
    assert_eq!(decide(Some((now + 5_000, 0)), now), (false, 1));
}

#[test]
fn a_marker_is_read_as_it_was_written() {
    let text = marker_text(-5, 3, "1.0 \"beta\"");
    assert_eq!(text, "{\"crashes\":3,\"launchedAt\":-5,\"version\":\"1.0 \\\"beta\\\"\"}");
    assert_eq!(marker_in(Some(&text)), Some((-5, 3)));
    assert_eq!(marker_in(Some("{")), None);
    assert_eq!(marker_in(Some("{\"crashes\":3}")), None);
    assert_eq!(marker_in(None), None);
}

#[test]
fn launches_that_die_lead_to_safe_mode() {
    let (first, marker) = startup(true, None, 1000, "1");
    assert!(!first.safe_mode && first.crashes == 0);
    let (second, marker) = startup(true, marker.as_deref(), 2000, "1");
    assert!(!second.safe_mode && second.crashes == 1);
    let (mut third, marker) = startup(true, marker.as_deref(), 3000, "1");
    assert!(third.safe_mode && third.crashes == 0 && marker.is_some());
    assert!(third.on_clean_shutdown() && !third.on_clean_shutdown(), "the marker goes once");
    let (without_profile, marker) = startup(false, Some("{}"), 1, "1");
    assert!(!without_profile.safe_mode && marker.is_none());
}
