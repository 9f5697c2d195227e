use sta::json::parse;
use sta::renderer::{
    apply_boosts, boost_css_script, boost_js_script, boosts_version, decrement, increment, is_page_url, js_string, mark_of, on_boosts_message,
    on_browser_created, on_browser_destroyed, on_context_created, on_context_released, on_media, on_process_message_received, previews, Received, BoostData, Created, Document, Mark, Renderer,
    MAX_PREVIEW_URL,
};
use std::collections::HashMap;

fn boost(host: &str, css: &str, js: &str) -> BoostData {
    BoostData { host: host.to_string(), css: css.to_string(), js: js.to_string() }
}

fn web_tab(state: &mut Renderer, id: i32, boosts: Vec<BoostData>) {
    on_browser_created(state, id, Created::Tab { boosts, version: "v1".to_string() });
}

#[test]
fn counting_up_and_down_gives_back() {
    let mut counts: HashMap<i32, u32> = HashMap::new();
    increment(&mut counts, 4);
    increment(&mut counts, 4);
    decrement(&mut counts, 4);
    assert_eq!(counts.get(&4), Some(&1));
    decrement(&mut counts, 4);
    decrement(&mut counts, 4);
    assert_eq!(counts.get(&4), None);
}

#[test]
fn only_internal_pages_get_the_bridge() {
    let mut state = Renderer::new();
    on_browser_created(&mut state, 1, Created::Ui);
    on_browser_created(&mut state, 2, Created::Frontend { origins: "[]".to_string() });
    web_tab(&mut state, 3, vec![]);
    assert!(matches!(on_context_created(&mut state, 1, "sta://settings/", true, true, false), Document::Bridge));
    assert!(matches!(on_context_created(&mut state, 1, "https://x/", true, true, false), Document::Nothing));
    assert!(matches!(on_context_created(&mut state, 3, "sta://settings/", true, true, false), Document::Nothing));
    assert!(matches!(on_context_created(&mut state, 2, "devtools://devtools/", true, true, true), Document::Shim { origins } if origins == "[]"));
    assert!(matches!(on_context_created(&mut state, 2, "https://x/", true, true, false), Document::Nothing));
    assert!(matches!(on_context_created(&mut state, 3, "https://x/", true, true, false), Document::Page { check: Some(v) } if v == "v1"));
    on_browser_destroyed(&mut state, 1);
    assert!(matches!(on_context_created(&mut state, 1, "sta://settings/", true, true, false), Document::Nothing));
    assert_eq!(
        (mark_of(true, true, true, true), mark_of(false, true, true, true), mark_of(false, false, false, true), mark_of(false, false, false, false)),
        (Mark::Ui, Mark::Frontend, Mark::Tab, Mark::Other)
    );
    for (url, page) in [("https://x/", true), ("about:blank", true), ("chrome-error://x", false), ("DevTools://x", false), ("chrome://x", false), ("sta://x", false)] {
        assert_eq!(is_page_url(url), page, "{url}");
    }
}

#[test]
fn a_script_runs_once() {
    let mut state = Renderer::new();
    web_tab(&mut state, 3, vec![boost("a", "p{}", "one()"), boost("b", "q{}", ""), boost("a", "", "one()")]);
    let apply = apply_boosts(&mut state, 3, &vec![true, true, true], true).unwrap();
    assert_eq!(apply.css.as_deref(), Some("p{}\nq{}"));
    assert_eq!(apply.scripts, ["one()"], "the same script of the same host");
    let again = apply_boosts(&mut state, 3, &vec![true, false, false], false).unwrap();
    assert!(again.scripts.is_empty() && again.css.as_deref() == Some("p{}"));
    on_context_created(&mut state, 3, "https://x/", true, true, false);
    assert_eq!(apply_boosts(&mut state, 3, &vec![false, false, true], true).unwrap().scripts, ["one()"], "a new document");
    assert!(apply_boosts(&mut state, 3, &vec![false, false, false], true).unwrap().css.is_none(), "nothing to style");
    assert_eq!(apply_boosts(&mut state, 3, &vec![false, false, false], false).unwrap().css.as_deref(), Some(""), "the old style goes");
    assert!(apply_boosts(&mut state, 9, &vec![], true).is_none());
}

#[test]
fn newer_boosts_are_taken_over() {
    let mut state = Renderer::new();
    web_tab(&mut state, 3, vec![]);
    assert!(!on_boosts_message(&mut state, 3, vec![boost("a", "x", "")], "v1".to_string(), true, Some("https://x/")), "it has that list");
    assert!(state.tabs[&3].boosts.is_empty());
    assert!(on_boosts_message(&mut state, 3, vec![boost("a", "x", "")], "v2".to_string(), true, Some("https://x/")));
    assert_eq!(state.tabs[&3].boosts.len(), 1);
    assert!(!on_boosts_message(&mut state, 3, vec![], "v3".to_string(), true, Some("chrome://version")));
    assert!(!on_boosts_message(&mut state, 3, vec![], "v4".to_string(), false, Some("https://x/")));
    assert!(!on_boosts_message(&mut state, 8, vec![], "v2".to_string(), true, Some("https://x/")));
}

#[test]
fn versions_tell_lists_apart() {
    let version = boosts_version("[]");
    assert!(version.len() == 16 && version.chars().all(|c| c.is_ascii_hexdigit()));
    assert_eq!(boosts_version("[]"), version);
    assert_ne!(boosts_version("[1]"), version);
}

#[test]
fn scripts_carry_their_text() {
    assert_eq!(js_string("a\"\n\u{e9}"), "\"a\\\"\\n\u{e9}\"");
    assert!(boost_css_script("p{}").contains("\"p{}\""));
    assert!(boost_js_script("go()").contains("go()"));
    assert!(parse(&js_string("x\\y")).is_some_and(|v| v.as_text() == Some("x\\y")));
}

#[test]
fn frames_stop_playing_with_their_document() {
    let mut state = Renderer::new();
    on_media(&mut state, 3, "f".to_string(), true);
    on_media(&mut state, 3, "f".to_string(), true);
    assert_eq!(state.audible.len(), 1);
    assert!(!on_context_released(&mut state, 3, "g") && on_context_released(&mut state, 3, "f") && !on_context_released(&mut state, 3, "f"));
    on_media(&mut state, 3, "f".to_string(), true);
    on_media(&mut state, 3, "f".to_string(), false);
    assert!(state.audible.is_empty());
}

#[test]
fn a_preview_has_a_limit() {
    assert!(!previews("") && previews("https://x/") && previews(&"a".repeat(MAX_PREVIEW_URL)) && !previews(&"a".repeat(MAX_PREVIEW_URL + 1)));
}

#[test]
fn messages_go_by_their_name() {
    assert_eq!(on_process_message_received("sta.boosts"), Received::Boosts);
    assert_eq!(on_process_message_received("sta.devtools.in"), Received::DevTools);
    assert_eq!(on_process_message_received("cefQueryMsg"), Received::Router);
}
