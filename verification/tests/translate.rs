use sta::json::{parse, Json};
use sta::translate::{
    batch_url, collected_texts, debug_snapshot, evaluate_params, evaluation, install_expression, on_applied, on_asked, on_batch_complete, on_browser_closed, on_collected,
    on_created, on_data, on_restored, on_timeout, parse_batch, translate, Effect, Jobs, ENDPOINT, MAX_BATCH, MAX_BODY_BYTES, MAX_URL_BYTES,
};

fn texts(n: usize, each: usize) -> Vec<String> {
    (0..n).map(|i| format!("{}{i}", "a".repeat(each))).collect()
}

#[test]
fn a_batch_stops_at_the_url_limit() {
    // Long enough that the length cap bites before MAX_BATCH does.
    let texts = texts(MAX_BATCH, 400);
    let (url, count) = batch_url("en", &texts, 0);
    assert!(count > 0 && count < MAX_BATCH, "length should cap the batch, took {count}");
    assert!(url.len() <= MAX_URL_BYTES + 400 * 3, "one overshooting string is allowed, got {}", url.len());
    assert!(url.starts_with(ENDPOINT));
    assert!(url.contains("&tl=en"));
}

#[test]
fn a_batch_stops_at_the_count_limit() {
    let texts = texts(MAX_BATCH * 2, 1);
    let (_, count) = batch_url("ko", &texts, 0);
    assert_eq!(count, MAX_BATCH);
}

#[test]
fn one_string_longer_than_the_limit_is_still_sent() {
    let texts = vec!["x".repeat(MAX_URL_BYTES * 2)];
    let (_, count) = batch_url("en", &texts, 0);
    assert_eq!(count, 1, "a single huge paragraph must not stall the job");
}

#[test]
fn batches_resume_where_the_last_one_stopped() {
    let texts = texts(10, 1);
    let (url, count) = batch_url("en", &texts, 8);
    assert_eq!(count, 2);
    assert!(url.contains("a8") && url.contains("a9") && !url.contains("a7"));
}

#[test]
fn text_is_percent_encoded() {
    let (url, _) = batch_url("en", &vec!["a&b=c d".to_string()], 0);
    assert!(url.contains("a%26b%3Dc%20d"), "{url}");
}

#[test]
fn the_answer_shape_is_pairs_of_translation_and_detected_language() {
    let body = br#"[["hello","ko"],["world","ko"]]"#;
    assert_eq!(parse_batch(body).unwrap(), vec!["hello", "world"]);
}

#[test]
fn a_flat_answer_is_read_too() {
    // Not what the endpoint sent when measured, but cheap to tolerate.
    assert_eq!(parse_batch(br#"["hello"]"#).unwrap(), vec!["hello"]);
}

#[test]
fn a_broken_answer_is_an_error_not_a_panic() {
    assert!(parse_batch(b"not json").is_err());
    assert!(parse_batch(br#"{"error":"nope"}"#).is_err());
    assert!(parse_batch(&[0xff, 0xfe]).is_err());
}

#[test]
fn unreadable_entries_become_empty_strings_and_keep_their_place() {
    // apply() skips empty strings, so a hole leaves that node alone instead of shifting others.
    assert_eq!(parse_batch(br#"[["a","ko"],null,["c","ko"]]"#).unwrap(), vec!["a", "", "c"]);
}

/// What a page answers with its texts.
fn page(list: &[&str]) -> Json {
    let quoted: Vec<String> = list.iter().map(|s| format!("\"{s}\"")).collect();
    parse(&format!("{{\"texts\":[{}]}}", quoted.join(","))).unwrap()
}

fn failed(out: &[Effect], reason: &str) -> bool {
    matches!(out.last(), Some(Effect::Finish { strings: 0, images: 0, restored: false, error: Some(e), .. }) if e == reason)
}

#[test]
fn a_page_is_translated_batch_by_batch() {
    let mut jobs = Jobs::new();
    assert!(matches!(&translate(&jobs, 7, Some(3), "en".to_string())[..], [Effect::AskPage { tab: 7, browser_id: 3, target }] if target == "en"));
    assert!(matches!(on_asked(7, 3, "en".to_string(), Ok(Some(&Json::Bool(false)))), Effect::CollectPage { .. }));
    let texts = page(&["eins", "zwei"]);
    let out = on_collected(&mut jobs, 7, 3, "en".to_string(), Ok(Some(&texts)));
    let [Effect::Fetch { tab: 7, batch, url }] = &out[..] else { panic!() };
    assert!(url.contains("q=eins") && url.contains("q=zwei"));
    let batch = *batch;
    assert_eq!(translate(&jobs, 7, Some(3), "en".to_string()).len(), 0, "one job at a time");
    on_created(&mut jobs, 7, batch, true);
    assert!(on_data(&mut jobs, 7, batch, br#"[["one","de"],["two \"2\"","de"]]"#).is_empty());
    let out = on_batch_complete(&mut jobs, 7, batch, Some(200));
    assert!(out.iter().any(|e| matches!(e, Effect::Release { tab: 7, .. })));
    let Some(Effect::ApplyPage { browser_id: 3, expression, .. }) = out.last() else { panic!() };
    assert!(expression.contains(r#"["one","two \"2\""]"#), "{expression}");
    let landed = parse("2").unwrap();
    let out = on_applied(&mut jobs, 7, Ok(Some(&landed)));
    assert!(matches!(out.last(), Some(Effect::Finish { tab: 7, strings: 2, restored: false, error: None, .. })));
    assert_eq!(debug_snapshot(&jobs).len(), 0);
}

#[test]
fn translations_keep_their_places() {
    let mut jobs = Jobs::new();
    let texts: Vec<String> = (0..MAX_BATCH + 1).map(|i| format!("t{i}")).collect();
    let names: Vec<&str> = texts.iter().map(|s| s.as_str()).collect();
    let collected = page(&names);
    let first = on_collected(&mut jobs, 1, 3, "en".to_string(), Ok(Some(&collected)));
    let [Effect::Fetch { batch, .. }] = &first[..] else { panic!() };
    // The answer is one translation short: the next batch starts with the text that has none.
    let body: Vec<String> = (0..MAX_BATCH - 1).map(|i| format!("\"T{i}\"")).collect();
    on_data(&mut jobs, 1, *batch, format!("[{}]", body.join(",")).as_bytes());
    let second = on_batch_complete(&mut jobs, 1, *batch, Some(200));
    let Some(Effect::Fetch { batch: next, url, .. }) = second.last() else { panic!() };
    assert!(*next != *batch && url.contains(&format!("q=t{}&q=t{MAX_BATCH}", MAX_BATCH - 1)));
    assert_eq!((jobs.jobs[&1].out[0].as_str(), jobs.jobs[&1].out[MAX_BATCH - 1].as_str()), ("T0", ""));
    // An empty answer is the end of what can be translated.
    on_data(&mut jobs, 1, *next, b"[]");
    let done = on_batch_complete(&mut jobs, 1, *next, Some(200));
    assert!(matches!(done.last(), Some(Effect::ApplyPage { .. })));
    assert_eq!((jobs.jobs[&1].out[MAX_BATCH - 2].as_str(), jobs.jobs[&1].out[MAX_BATCH].as_str()), ("T78", ""));
}

#[test]
fn a_translation_can_fail() {
    let collected = page(&["a"]);
    let begin = || {
        let mut jobs = Jobs::new();
        let out = on_collected(&mut jobs, 1, 3, "en".to_string(), Ok(Some(&collected)));
        let Some(Effect::Fetch { batch, .. }) = out.last() else { panic!() };
        (jobs, *batch)
    };
    let (mut jobs, batch) = begin();
    assert!(failed(&on_batch_complete(&mut jobs, 1, batch, None), "the translation service could not be reached"));
    let (mut jobs, batch) = begin();
    assert!(failed(&on_batch_complete(&mut jobs, 1, batch, Some(429)), "the translation service answered 429"));
    let (mut jobs, batch) = begin();
    on_data(&mut jobs, 1, batch, b"nope");
    assert!(matches!(on_batch_complete(&mut jobs, 1, batch, Some(200)).last(), Some(Effect::Finish { error: Some(_), .. })));
    let (mut jobs, batch) = begin();
    assert!(matches!(on_data(&mut jobs, 1, batch, &vec![b' '; MAX_BODY_BYTES + 1]).last(), Some(Effect::Finish { error: Some(_), .. })));
    let (mut jobs, batch) = begin();
    assert!(matches!(on_created(&mut jobs, 1, batch, false).last(), Some(Effect::Finish { error: Some(_), .. })));
    let (mut jobs, batch) = begin();
    on_created(&mut jobs, 1, batch, true);
    assert!(matches!(on_timeout(&mut jobs, 1, batch).last(), Some(Effect::Finish { error: Some(_), .. })));
    assert!(on_timeout(&mut jobs, 1, batch).is_empty());
    let (mut jobs, batch) = begin();
    assert!(on_data(&mut jobs, 1, batch.wrapping_add(1), b"late").is_empty() && jobs.jobs[&1].body.is_empty());
    assert!(matches!(on_applied(&mut jobs, 1, Err("gone".to_string())).last(), Some(Effect::Finish { error: Some(_), .. })));
    let (mut jobs, _) = begin();
    on_browser_closed(&mut jobs, 3);
    assert!(jobs.jobs.is_empty());
    assert!(failed(&translate(&Jobs::new(), 1, None, "en".to_string()), "the tab is gone"));
}

#[test]
fn a_translated_page_is_restored() {
    assert!(matches!(on_asked(7, 3, "en".to_string(), Ok(Some(&Json::Bool(true)))), Effect::RestorePage { tab: 7, browser_id: 3 }));
    assert!(matches!(on_asked(7, 3, "en".to_string(), Err("no".to_string())), Effect::Finish { error: Some(_), .. }));
    assert!(matches!(on_restored(7, Ok(None)), Effect::Finish { tab: 7, restored: true, error: None, .. }));
}

#[test]
fn a_script_answers_or_throws() {
    let answer = parse(r#"{"result":{"value":5}}"#).unwrap();
    assert!(matches!(evaluation(&answer), Ok(Some(v)) if v.as_u64() == Some(5)));
    let thrown = parse(r#"{"exceptionDetails":{"text":"Uncaught"},"result":{"value":5}}"#).unwrap();
    assert!(matches!(evaluation(&thrown), Err(e) if e == "Uncaught"));
    let bare = parse(r#"{"exceptionDetails":{}}"#).unwrap();
    assert!(matches!(evaluation(&bare), Err(e) if e == "the page refused the script"));
    assert!(matches!(evaluation(&parse("{}").unwrap()), Ok(None)));
    assert_eq!(install_expression("SCRIPT"), "SCRIPT;globalThis.__staTranslate.translated()");
    assert!(collected_texts(None).is_empty() && collected_texts(Some(&Json::Null)).is_empty());
}

#[test]
fn a_script_is_sent_with_its_parameters() {
    assert_eq!(evaluate_params("a(\"b\")"), "{\"awaitPromise\":true,\"expression\":\"a(\\\"b\\\")\",\"returnByValue\":true}");
}
