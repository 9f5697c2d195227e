use sta::rect::Rect;
use sta::tabs::{adopt_popup, focus_leaves, live_browsers, on_chrome_colors_changed, record_sent, refresh_wrapper_color, rescue_focus_from_hidden_tab, skip_popup};
use sta::renderer::BoostData;
use sta::tabs::{
    adopted_url, apply_layout, boosts_payload_for, browser_for_tab, create_browser, destroy_browser, detach, devtools_on_internal_pages, focus_in_hidden_tab,
    is_closing_browser, is_tab_visible, keeps_boost, load_url, next_popup_tab, on_before_close, on_boosts_check, on_browser_created, on_do_close,
    on_replaced, on_replacement_view, on_view_added, on_view_created, on_wrapper_created, popup_aborted, prepare_popup, replace_browser, report_zoom, same_site, set_page_fullscreen_tab,
    show_content, show_dev_tools, sync_boosts, tab_for_browser, tab_rect_in_window, wrapper_rect_in_window, take_popup, take_view_for_peek, visible_pane_rects, zoom, Around, Boosts, Disposition, Effect, Layout,
    Load, Pane, PendingPopup, Popups, Tabs, ZoomDirection,
};
use sta::tabs::{debug_snapshot, TabSeen};
use std::collections::HashMap;

fn around() -> Around {
    Around { content: true, empty: true, box_layout: true, frame: 0xFF10_1010, accent: 0xFF20_2020, surface: 0xFF30_3030, peek: None, agents: HashMap::new() }
}

/// A tab with a wrapper, a view and a browser.
fn open(state: &mut Tabs, tab: u64, wrapper: u64, view: u64, browser: i32) {
    let a = around();
    assert!(create_browser(state, tab, false, false, false).is_some());
    on_wrapper_created(state, &a, tab, Some(wrapper), false);
    on_view_created(state, &a, tab, wrapper, Some(view));
    on_view_added(state, &a, tab, wrapper, view, Some(browser), false);
    let mut out = Vec::new();
    on_browser_created(state, tab, browser, &mut out);
}

fn closed(effects: &[Effect]) -> usize {
    effects.iter().filter(|e| matches!(e, Effect::Closed { .. })).count()
}

#[test]
fn a_tab_is_registered_both_ways() {
    let mut state = Tabs::new();
    open(&mut state, 1, 100, 200, 7);
    assert_eq!((browser_for_tab(&state, 1), tab_for_browser(&state, 7)), (Some(7), Some(1)));
    assert!(create_browser(&mut state, 1, false, false, false).is_none(), "it has a browser");
    let plan = create_browser(&mut state, 2, false, true, false).unwrap();
    assert!(plan.launch && plan.blank, "an external protocol goes to the system");
    assert_eq!(load_url(&state, 1, false), Load::Page(7));
    assert_eq!(load_url(&state, 1, true), Load::External);
    assert_eq!(load_url(&state, 9, false), Load::Nothing);
}

#[test]
fn a_close_is_reported_once() {
    let mut state = Tabs::new();
    open(&mut state, 1, 100, 200, 7);
    let a = around();
    let mut out = Vec::new();
    destroy_browser(&mut state, &a, 1, true, &mut out);
    assert!(out.contains(&Effect::CloseBrowser { browser: 7 }));
    assert!(is_closing_browser(&state, 7));
    let posted = on_do_close(&mut state, 7, 1);
    assert!(posted.contains(&Effect::DetachLater { browser: 7 }));
    let mut popups = Popups { queues: HashMap::new() };
    let mut boosts = Boosts { sent: HashMap::new() };
    let mut all = detach(&mut state, &a, 7);
    all.extend(on_before_close(&mut state, &mut popups, &mut boosts, 7, 1, false));
    all.extend(on_before_close(&mut state, &mut popups, &mut boosts, 7, 1, false));
    assert_eq!(closed(&all), 1);
    assert_eq!(browser_for_tab(&state, 1), None);
}

#[test]
fn a_replaced_browser_is_never_reported() {
    let mut state = Tabs::new();
    open(&mut state, 1, 100, 200, 7);
    let a = around();
    let (replacing, _) = replace_browser(&mut state, &a, 1, true, true);
    let replacing = replacing.unwrap();
    on_replacement_view(&mut state, &replacing, 201);
    let mut created = Vec::new();
    on_browser_created(&mut state, 1, 8, &mut created);
    let out = on_replaced(&mut state, &a, replacing, Some(201), Some(8), true);
    assert!(out.contains(&Effect::CloseBrowser { browser: 7 }));
    assert_eq!(browser_for_tab(&state, 1), Some(8));
    on_do_close(&mut state, 7, 1);
    let mut popups = Popups { queues: HashMap::new() };
    let mut boosts = Boosts { sent: HashMap::new() };
    let mut all = detach(&mut state, &a, 7);
    all.extend(on_before_close(&mut state, &mut popups, &mut boosts, 7, 1, false));
    assert_eq!(closed(&all), 0);
    assert_eq!(browser_for_tab(&state, 1), Some(8));
}

#[test]
fn a_failed_replacement_closes_the_old_browser() {
    let mut state = Tabs::new();
    open(&mut state, 1, 100, 200, 7);
    let a = around();
    let (replacing, _) = replace_browser(&mut state, &a, 1, true, true);
    let out = on_replaced(&mut state, &a, replacing.unwrap(), None, None, true);
    assert!(out.contains(&Effect::CloseBrowser { browser: 7 }));
}

#[test]
fn a_layout_decides_about_every_tab() {
    let mut state = Tabs::new();
    for tab in 1..4u64 {
        open(&mut state, tab, 100 + tab, 200 + tab, tab as i32);
    }
    let a = around();
    let split = Layout::Split { horizontal: true, panes: vec![Pane { tab: 1, share: Some(300) }, Pane { tab: 3, share: None }], focused: 1 };
    let out = show_content(&mut state, &a, &split);
    assert!(out.contains(&Effect::ShowWrapper { wrapper: 101, visible: true }));
    assert!(out.contains(&Effect::ShowWrapper { wrapper: 102, visible: false }));
    assert!(out.contains(&Effect::Flex { wrapper: 101, flex: 300 }) && out.contains(&Effect::Flex { wrapper: 103, flex: 500 }));
    assert!(out.contains(&Effect::PaintWrapper { wrapper: 103, color: 0xFF20_2020 }), "the focused pane has the accent");
    assert!(is_tab_visible(&state, 1, false) && !is_tab_visible(&state, 2, false));
    assert_eq!(focus_in_hidden_tab(&state, Some(2), false), Some(2));
    assert_eq!(focus_in_hidden_tab(&state, Some(1), false), None);
    let mut rects = HashMap::new();
    rects.insert(1, Rect { x: 0, y: 0, width: 10, height: 10 });
    rects.insert(3, Rect { x: 16, y: 0, width: 10, height: 10 });
    let panes = visible_pane_rects(&state, &a, None, &rects);
    assert_eq!(panes.len(), 2);
    assert_eq!(panes[1], (Rect { x: 16, y: 0, width: 10, height: 10 }, 0xFF20_2020));
    let mut out = Vec::new();
    apply_layout(&mut state, &a, &Layout::Empty, &mut out);
    assert!(out.contains(&Effect::ShowEmpty { visible: true }) && out.contains(&Effect::ShowWrapper { wrapper: 101, visible: false }));
}

#[test]
fn a_view_comes_back_from_peek() {
    let mut state = Tabs::new();
    open(&mut state, 1, 100, 200, 7);
    let a = around();
    let (view, _) = take_view_for_peek(&mut state, &a, 1);
    assert_eq!(view, Some(200));
    let (again, _) = take_view_for_peek(&mut state, &a, 1);
    assert_eq!(again, None, "it is there already");
    let held = Around { peek: Some((1, 200)), ..around() };
    let out = show_content(&mut state, &held, &Layout::Single { tab: 1 });
    assert!(out.contains(&Effect::TakeBack { tab: 1 }) && out.contains(&Effect::AddToPage { tab: 1, wrapper: 100, view: 200 }));
}

#[test]
fn page_fullscreen_shows_one_tab() {
    let mut state = Tabs::new();
    open(&mut state, 1, 100, 200, 7);
    open(&mut state, 2, 101, 201, 8);
    let a = around();
    show_content(&mut state, &a, &Layout::Single { tab: 2 });
    let out = set_page_fullscreen_tab(&mut state, &a, Some(1));
    assert!(out.contains(&Effect::ShowWrapper { wrapper: 100, visible: true }) && out.contains(&Effect::SetInsets { wrapper: 100, inset: 0 }));
    let out = set_page_fullscreen_tab(&mut state, &a, None);
    assert!(out.contains(&Effect::ShowWrapper { wrapper: 101, visible: true }));
}

#[test]
fn popups_are_adopted_in_the_order_in_which_they_were_opened() {
    let mut popups = Popups { queues: HashMap::new() };
    prepare_popup(&mut popups, 7, 1, 11, "  ", Disposition::NewBackgroundTab, false, None, "v".to_string());
    prepare_popup(&mut popups, 7, 2, 12, "https://b/", Disposition::NewPopup, false, None, "v".to_string());
    prepare_popup(&mut popups, 7, 3, 13, "https://c/", Disposition::NewPopup, true, Some((false, false)), "v".to_string());
    assert_eq!(next_popup_tab(&popups, 7), Some(11));
    let first = take_popup(&mut popups, 7).unwrap();
    assert_eq!((first.popup_id, first.url.as_str(), first.popup, first.foreground), (1, "about:blank", false, false));
    let second = take_popup(&mut popups, 7).unwrap();
    assert_eq!((second.popup_id, second.url.as_str(), second.popup, second.foreground), (2, "https://b/", true, true));
    popup_aborted(&mut popups, 7, 3);
    assert!(take_popup(&mut popups, 7).is_none() && take_popup(&mut popups, 8).is_none());
    assert_eq!(adopted_url("about:blank".to_string(), Some("page".to_string())), "page");
    assert_eq!(adopted_url("about:blank".to_string(), Some(String::new())), "about:blank");
    assert_eq!(adopted_url("pending".to_string(), Some("page".to_string())), "pending");
}

#[test]
fn boosts_are_sent_once_and_within_a_site() {
    assert!(keeps_boost("a.com", "", "x()") && !keeps_boost(" ", "a{}", "") && !keeps_boost("a.com", " ", "\n"));
    let boost = |host: &str, css: &str, js: &str| BoostData { host: host.to_string(), css: css.to_string(), js: js.to_string() };
    let (json, version) = boosts_payload_for(&vec![boost("a.com", "b{}", ""), boost("a.com", "", " "), boost("a.com", "", "\"x\"")]);
    assert_eq!(json, "[{\"host\":\"a.com\",\"css\":\"b{}\",\"js\":\"\"},{\"host\":\"a.com\",\"css\":\"\",\"js\":\"\\\"x\\\"\"}]");
    assert_eq!(version.len(), 16);
    assert_eq!(boosts_payload_for(&vec![]).0, "[]");
    let mut boosts = Boosts { sent: HashMap::new() };
    assert!(sync_boosts(&mut boosts, 7, false, true, &version));
    assert!(!sync_boosts(&mut boosts, 7, false, true, &version), "it has that list");
    assert!(!sync_boosts(&mut boosts, 8, false, false, &version), "another site");
    assert!(!sync_boosts(&mut boosts, 8, true, true, &version), "one of the shell's own");
    assert!(on_boosts_check(&mut boosts, 7, "new".to_string(), "old") && !on_boosts_check(&mut boosts, 7, "new".to_string(), "new"));
    assert!(same_site(Some("a.com"), Some("a.com")) && !same_site(None, None));
}

#[test]
fn zooming_goes_through_the_presets() {
    // Four times the percentage: an odd number lies between two halves of a percent.
    assert_eq!(zoom(ZoomDirection::In, 400), 110);
    assert_eq!(zoom(ZoomDirection::Out, 400), 90);
    assert_eq!(zoom(ZoomDirection::Reset, 600), 100);
    assert_eq!(zoom(ZoomDirection::In, 437), 110, "more than half a percent below it");
    assert_eq!(zoom(ZoomDirection::In, 438), 125, "half a percent below it");
    assert_eq!(zoom(ZoomDirection::In, 2000), 500);
    assert_eq!(zoom(ZoomDirection::Out, 100), 25);
    let mut state = Tabs::new();
    assert!(report_zoom(&mut state, 1, 5, false) && !report_zoom(&mut state, 1, 5, false) && report_zoom(&mut state, 1, 5, true));
}

#[test]
fn developer_tools_stay_off_the_shells_pages() {
    assert!(devtools_on_internal_pages(true, Some("1")) && !devtools_on_internal_pages(false, Some("1")) && !devtools_on_internal_pages(true, None));
    assert!(show_dev_tools(false, false) && !show_dev_tools(true, false) && show_dev_tools(true, true));
}

#[test]
fn a_tab_is_where_its_page_is() {
    let rect = |x| Some(Rect { x, y: 0, width: 1, height: 1 });
    assert_eq!((tab_rect_in_window(rect(1), rect(2)), tab_rect_in_window(None, rect(2))), (rect(1), rect(2)));
    let mut state = Tabs::new();
    open(&mut state, 1, 100, 200, 7);
    assert_eq!(wrapper_rect_in_window(&state, 1, true, rect(3)), rect(3));
    assert_eq!((wrapper_rect_in_window(&state, 1, false, rect(3)), wrapper_rect_in_window(&state, 2, true, rect(3))), (None, None));
}

#[test]
fn a_popup_is_adopted_as_a_hidden_tab() {
    let mut state = Tabs::new();
    open(&mut state, 1, 100, 200, 7);
    let mut boosts = Boosts { sent: HashMap::new() };
    let waiting = |tab: Option<u64>, url: &str| PendingPopup {
        popup_id: 1,
        tab,
        url: url.to_string(),
        popup: true,
        foreground: false,
        boosts_version: Some("v1".to_string()),
    };
    let page = Some("https://b/".to_string());
    let (adopted, out) = adopt_popup(&mut state, &mut boosts, &around(), waiting(Some(2), "about:blank"), Some(7), 201, Some(8), page, Some(101));
    let adopted = adopted.unwrap();
    assert_eq!((adopted.tab, adopted.opener, adopted.url.as_str(), adopted.popup, adopted.foreground), (2, Some(1), "https://b/", true, false));
    assert_eq!(boosts.sent.get(&8).map(String::as_str), Some("v1"));
    assert!(out.contains(&Effect::Adopted { tab: 2, opener: Some(1) }) && out.contains(&Effect::ShowWrapper { wrapper: 101, visible: false }));
    assert_eq!((browser_for_tab(&state, 2), tab_for_browser(&state, 8)), (Some(8), Some(2)));
    assert!(adopt_popup(&mut state, &mut boosts, &around(), waiting(Some(3), "x"), None, 202, Some(9), None, None).0.is_none(), "no wrapper");
    assert!(adopt_popup(&mut state, &mut boosts, &around(), waiting(None, "x"), None, 202, Some(9), None, Some(5)).0.is_none(), "a window of its own");
    assert!(adopt_popup(&mut state, &mut boosts, &around(), waiting(Some(3), "x"), None, 202, None, None, Some(5)).0.is_none(), "no browser");
    assert_eq!(boosts.sent.len(), 1);
    assert_eq!(live_browsers(&state), [7, 8]);
    let mut out = Vec::new();
    destroy_browser(&mut state, &around(), 1, true, &mut out);
    assert_eq!(live_browsers(&state), [8], "a closing browser is not live");
    let mut popups = Popups { queues: HashMap::new() };
    skip_popup(&mut popups, 7, 4);
    assert_eq!(next_popup_tab(&popups, 7), None);
    assert!(take_popup(&mut popups, 7).is_some_and(|p| p.popup_id == 4 && p.tab.is_none()));
}

#[test]
fn wrappers_follow_the_colors() {
    let mut state = Tabs::new();
    open(&mut state, 1, 100, 200, 7);
    let agents = Around { agents: HashMap::from([(1, 0xFFAA_0000)]), ..around() };
    assert_eq!(
        refresh_wrapper_color(&mut state, &agents, 1),
        [Effect::PaintWrapper { wrapper: 100, color: 0xFFAA_0000 }, Effect::PaintView { view: 200, color: 0xFFAA_0000 }]
    );
    assert!(refresh_wrapper_color(&mut state, &agents, 9).is_empty());
    let dark = Around { frame: 0xFF00_0000, ..around() };
    assert!(on_chrome_colors_changed(&mut state, &dark).contains(&Effect::PaintWrapper { wrapper: 100, color: 0xFF00_0000 }));
    let mut boosts = Boosts { sent: HashMap::new() };
    record_sent(&mut boosts, 7, "v".to_string());
    assert!(!sync_boosts(&mut boosts, 7, false, true, "v"));
}

#[test]
fn the_focus_leaves_a_hidden_tab() {
    let mut state = Tabs::new();
    open(&mut state, 1, 100, 200, 7);
    assert_eq!(rescue_focus_from_hidden_tab(&state, Some(1), true), Some(1), "nothing is shown");
    assert!(focus_leaves(&state, Some(1), false, false) && !focus_leaves(&state, Some(1), false, true) && !focus_leaves(&state, None, false, false));
    show_content(&mut state, &around(), &Layout::Single { tab: 1 });
    assert_eq!(rescue_focus_from_hidden_tab(&state, Some(1), false), None);
}

#[test]
fn the_registry_as_it_looks_from_outside() {
    let mut state = Tabs::new();
    open(&mut state, 5, 100, 200, 7);
    open(&mut state, 2, 101, 201, 8);
    let mut boosts = Boosts { sent: HashMap::new() };
    record_sent(&mut boosts, 7, "old".to_string());
    let boost = |css: &str| BoostData { host: "a.com".to_string(), css: css.to_string(), js: String::new() };
    let seen = |visible: bool, url: Option<&str>| TabSeen {
        visible,
        wrapper_bounds: Rect { x: 1, y: 2, width: 3, height: 4 },
        view_origin: (2, 2),
        devtools_docked: false,
        url: url.map(str::to_string),
        boosts: vec![boost("b{}"), boost(" ")],
    };
    let views = HashMap::from([(5, seen(true, Some("https://a.com/"))), (2, seen(false, None))]);
    let shot = debug_snapshot(&state, &Popups { queues: HashMap::new() }, &boosts, &views);
    assert_eq!(shot.tabs.iter().map(|t| (t.tab, t.browser_id, t.visible)).collect::<Vec<_>>(), [(2, Some(8), false), (5, Some(7), true)]);
    assert!(shot.tabs[0].boosts.is_none() && shot.tabs[0].url.is_none(), "no page yet");
    let told = shot.tabs[1].boosts.as_ref().unwrap();
    assert_eq!((told.sent.as_deref(), told.count), (Some("old"), 1));
    assert_eq!(told.expected, boosts_payload_for(&vec![boost("b{}")]).1);
    assert_eq!((shot.tabs[1].url.as_deref(), shot.tabs[1].view_origin), (Some("https://a.com/"), Some((2, 2))));
    assert!(matches!(shot.shown, Layout::Empty) && shot.closing.is_empty() && shot.pending_popups == 0);
}
