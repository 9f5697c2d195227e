use sta::suggest::{
    clear, debug_snapshot, endpoint, fetch_query, on_created, on_data, on_request_complete, on_timeout, reply, start, test_endpoint, url_like, Effect, Suggest,
    MAX_BODY_BYTES, MAX_TEXT_CHARS, TIMEOUT_MS,
};

#[test]
fn fetch_query_rules() {
    assert_eq!(fetch_query("rust").as_deref(), Some("rust"));
    assert_eq!(fetch_query("  rust pro ").as_deref(), Some("rust pro "), "leading whitespace dropped, trailing kept");
    assert_eq!(fetch_query("러스트").as_deref(), Some("러스트"));
    assert_eq!(fetch_query("example.com").as_deref(), Some("example.com"), "no explicit scheme");
    assert_eq!(fetch_query("localhost:3000").as_deref(), Some("localhost:3000"));
    assert_eq!(fetch_query("c++: tutorial").as_deref(), Some("c++: tutorial"));
    assert_eq!(fetch_query("rust: book").as_deref(), Some("rust: book"));
    // Forced search: `?` stripped, then anything goes.
    assert_eq!(fetch_query("?rust").as_deref(), Some("rust"));
    assert_eq!(fetch_query(" ? what is rust").as_deref(), Some("what is rust"));
    assert_eq!(fetch_query("?https://x.com").as_deref(), Some("https://x.com"));
    // Nothing to send.
    for text in [
        "", "   ", "?", " ? ", "http://example.com", "https:", "HTTPS://Example.com/a b", "sta://settings", "file:///C:/x",
        "about:blank", "data:text/html,hi", "view-source:https://x.com", "chrome://version", "mailto:me@example.com", "tel:+1555",
        "javascript:alert(1)", "zoommtg://zoom.us/join", "C:\\Users\\me", "c:/temp", "\\\\server\\share",
    ] {
        assert_eq!(fetch_query(text), None, "{text:?}");
    }
    let long = "a".repeat(MAX_TEXT_CHARS);
    assert_eq!(fetch_query(&long).as_deref(), Some(long.as_str()));
    assert_eq!(fetch_query(&format!("{long}b")), None);
    let korean = "가".repeat(MAX_TEXT_CHARS);
    assert!(fetch_query(&korean).is_some(), "the limit counts characters, not bytes");
}

fn sent(query: &str) -> Option<(String, String)> {
    Some((format!("https://s/?q={query}"), query.to_string()))
}

#[test]
fn a_request_is_answered_once() {
    let mut state = Suggest::new();
    let out = start(&mut state, 1, "rust".to_string(), sent("rust"));
    assert!(matches!(&out[..], [Effect::Fetch { id: 1, url }] if url == "https://s/?q=rust"));
    assert!(matches!(on_created(&mut state, 1, 1, true)[..], [Effect::TimeOutLater { id: 1, after_ms: TIMEOUT_MS }]));
    assert!(on_data(&mut state, 1, 1, b"[\"rust\",").is_empty());
    assert!(on_data(&mut state, 1, 1, b"[]]").is_empty());
    let out = on_request_complete(&mut state, 1, 1, true, Some(200));
    assert!(matches!(&out[..], [Effect::Suggest { id: 1, text, body, query }, Effect::Release { id: 1, cancel: false }]
        if text == "rust" && body == b"[\"rust\",[]]" && query == "rust"));
    assert!(on_request_complete(&mut state, 1, 1, true, Some(200)).is_empty());
    assert!(on_timeout(&mut state, 1, 1).is_empty());
    let (pending, stats) = debug_snapshot(&state);
    assert_eq!((pending, stats.started, stats.succeeded, stats.timed_out), (0, 1, 1, 0));
}

#[test]
fn only_the_newest_request_counts() {
    let mut state = Suggest::new();
    start(&mut state, 1, "ru".to_string(), sent("ru"));
    let out = start(&mut state, 1, "rus".to_string(), sent("rus"));
    assert!(matches!(&out[..], [Effect::Nothing { id: 1, text }, Effect::Fetch { id: 2, .. }] if text == "ru"));
    assert!(on_data(&mut state, 1, 1, b"late").is_empty());
    assert!(on_request_complete(&mut state, 1, 1, true, Some(200)).is_empty());
    assert_eq!(state.pending[&1].body.len(), 0);
    let out = start(&mut state, 1, "https://".to_string(), None);
    assert!(matches!(&out[..], [Effect::Nothing { id: 2, .. }, Effect::Skip { text }] if text == "https://"));
    let (_, stats) = debug_snapshot(&state);
    assert_eq!((stats.superseded, stats.skipped), (2, 1));
}

#[test]
fn a_request_ends_without_suggestions() {
    let mut state = Suggest::new();
    let mut ends = |f: &dyn Fn(&mut Suggest, u64) -> Vec<Effect>| {
        let id = state.next_id;
        start(&mut state, 4, "x".to_string(), sent("x"));
        on_created(&mut state, 4, id, true);
        let out = f(&mut state, id);
        assert!(matches!(&out[..], [Effect::Nothing { .. }, Effect::Release { cancel: true, .. }]));
    };
    ends(&|s, id| on_request_complete(s, 4, id, true, Some(404)));
    ends(&|s, id| on_request_complete(s, 4, id, false, Some(200)));
    ends(&|s, id| on_request_complete(s, 4, id, true, None));
    ends(&|s, id| on_timeout(s, 4, id));
    ends(&|s, id| on_data(s, 4, id, &vec![0u8; MAX_BODY_BYTES + 1]));
    start(&mut state, 4, "x".to_string(), sent("x"));
    let id = state.pending[&4].id;
    assert!(matches!(on_created(&mut state, 4, id, false)[..], [Effect::Nothing { .. }]), "there is no request to release");
    let (_, stats) = debug_snapshot(&state);
    assert_eq!((stats.failed, stats.timed_out), (5, 1));
    start(&mut state, 5, "x".to_string(), sent("x"));
    clear(&mut state);
    assert_eq!(debug_snapshot(&state).0, 0);
}

#[test]
fn the_endpoint_is_the_engines_or_the_tests() {
    let engine = Some("https://e/?q=a%20b".to_string());
    assert_eq!(endpoint(false, "a b", engine.clone(), None), None);
    assert_eq!(endpoint(true, "https://x", engine.clone(), None), None);
    assert_eq!(endpoint(true, "a b", None, None), None);
    assert_eq!(endpoint(true, " a b", engine.clone(), None), Some(("https://e/?q=a%20b".to_string(), "a b".to_string())));
    assert_eq!(endpoint(true, "a b", engine, Some("http://127.0.0.1/{q}")), Some(("http://127.0.0.1/a%20b".to_string(), "a b".to_string())));
    assert_eq!(test_endpoint(Some(" ".to_string())), None);
    assert_eq!(test_endpoint(None), None);
    assert!(url_like("https://x") && url_like("c:\\x") && !url_like("c++: x"));
}

#[test]
fn a_reply_is_an_object() {
    assert_eq!(reply("a\"b", &vec!["x\n".to_string(), "y".to_string()]), "{\"suggestions\":[\"x\\n\",\"y\"],\"text\":\"a\\\"b\"}");
    assert_eq!(reply("", &vec![]), "{\"suggestions\":[],\"text\":\"\"}");
}
