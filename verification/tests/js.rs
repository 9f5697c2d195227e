use sta::json::{parse, Json};
use sta::test_hooks::js::{
    attach, attach_failed, attach_answer, attach_params, attached, call, call_result, cdp, cdp_answer, cdp_events, cdp_params, cdp_summary, clear, cut_to, deliver, deliver_message, ensure,
    eval, eval_answer, evaluate_failed, event_text, events_answer, targets, targets_answer, targets_asker, evaluate, events, fail_all, invoke, invoke_answer,
    invoke_expression, invoke_failed, pick_events, on_message, remember,
    resolve, role_of, settle, shape_evaluate, CallAnswer, Clients, Delivered, Listed, LiveBrowser, Role, Shaped, SurfaceBrowser, World, ID_BASE, ID_MAX, MAX_EVENTS,
};
use sta::test_hooks::ErrorCode;

fn json(text: &str) -> Json {
    parse(text).unwrap()
}

fn world() -> World {
    World {
        live: vec![LiveBrowser { id: 1, url: "sta://topbar/".to_string() }, LiveBrowser { id: 2, url: "https://example.com/a".to_string() }],
        surfaces: vec![SurfaceBrowser { host: "topbar".to_string(), browser: Some(1) }, SurfaceBrowser { host: "peek".to_string(), browser: None }],
        tabs: vec![(7, 2)],
        topbar: Some(1),
    }
}

/// A world without a shell.
fn headless() -> World {
    World { topbar: None, ..world() }
}

fn copy(l: &Listed) -> Listed {
    Listed { id: l.id.clone(), browser: l.browser, kind: l.kind.clone(), url: l.url.clone(), title: l.title.clone(), role: l.role.clone() }
}

#[test]
fn a_target_is_found_by_what_names_it() {
    let mut clients = Clients::new();
    let found = |args: &str, clients: &Clients| {
        let t = resolve(&json(args), &world(), &clients.sessions).unwrap();
        (t.browser, t.session, t.what)
    };
    let none: Option<String> = None;
    assert_eq!(found("{\"target\":{\"browser\":2}}", &clients), (2, none.clone(), "browser 2".to_string()));
    assert_eq!(found("{\"target\":{\"surface\":\"topbar\"},\"sessionId\":\"s\"}", &clients), (1, Some("s".to_string()), "surface topbar".to_string()));
    assert_eq!(found("{\"target\":{\"tab\":7}}", &clients), (2, none.clone(), "tab 7".to_string()));
    assert_eq!(found("{\"target\":{\"match\":\"example\"}}", &clients), (2, none, "match \"example\"".to_string()));
    assert_eq!(found("{\"target\":{\"targetId\":\"T\"},\"sessionId\":\"s\"}", &clients), (1, Some("s".to_string()), "target T".to_string()));
    remember(&mut clients, "T", 2, "old");
    remember(&mut clients, "T", 2, "kept");
    assert_eq!(attached(&clients.sessions, "T"), Some((2, "kept".to_string())));
    assert_eq!(found("{\"target\":{\"targetId\":\"T\"}}", &clients), (2, Some("kept".to_string()), "target T".to_string()));
    clear(&mut clients);
    assert_eq!(attached(&clients.sessions, "T"), None);
}

#[test]
fn a_lost_target_is_refused() {
    let clients = Clients::new();
    let refused = |args: &str| {
        let e = resolve(&json(args), &world(), &clients.sessions).err().unwrap();
        (e.code, e.message)
    };
    assert_eq!(refused("{\"target\":{\"browser\":9}}"), (ErrorCode::NoSuchTarget, "no live browser 9".to_string()));
    assert_eq!(refused("{\"target\":{\"surface\":\"x\"}}"), (ErrorCode::InvalidArguments, "unknown surface \"x\"".to_string()));
    assert_eq!(refused("{\"target\":{\"surface\":\"peek\"}}"), (ErrorCode::NoSuchTarget, "surface peek has no browser".to_string()));
    assert_eq!(refused("{\"target\":{\"tab\":8}}"), (ErrorCode::NoSuchTarget, "tab 8 has no browser".to_string()));
    assert_eq!(refused("{\"target\":{\"targetId\":\"T\"}}"), (ErrorCode::NoSuchTarget, "no session for target T: call test_attach first".to_string()));
    assert_eq!(refused("{\"target\":{\"match\":\"zzz\"}}"), (ErrorCode::NoSuchTarget, "no target whose URL contains \"zzz\"".to_string()));
    assert_eq!(refused("{}"), (ErrorCode::InvalidArguments, "target takes one of surface, tab, targetId or match".to_string()));
}

#[test]
fn evaluations_keep_their_shape() {
    assert!(matches!(shape_evaluate("{\"result\":{\"type\":\"undefined\"}}"), Shaped::Undefined));
    assert!(matches!(shape_evaluate("{\"result\":{\"type\":\"number\",\"value\":4}}"), Shaped::Value { value } if value == "4"));
    assert!(matches!(shape_evaluate("{\"result\":{\"type\":\"object\"}}"), Shaped::Value { value } if value == "null"));
    let text = |s: &str| match shape_evaluate(s) {
        Shaped::Threw { text, .. } => text,
        _ => panic!("{s}"),
    };
    assert_eq!(text("{\"exceptionDetails\":{\"text\":\"t\",\"exception\":{\"description\":\"d\"}}}"), "d");
    assert_eq!(text("{\"exceptionDetails\":{\"text\":\"t\"}}"), "t");
    assert_eq!(text("{\"exceptionDetails\":{},\"result\":{\"type\":\"undefined\"}}"), "uncaught exception");
    assert_eq!(evaluate(&json("{\"awaitPromise\":false}"), "a\"b"), "{\"awaitPromise\":false,\"expression\":\"a\\\"b\",\"returnByValue\":true,\"userGesture\":false}");
    assert_eq!(
        invoke_expression("x", "null"),
        "window.sta.invoke(\"x\", null).then(function (r) { return { ok: r }; }, function (e) { return { err: e.code, msg: e.message }; })"
    );
    assert_eq!(invoke_failed("x", "tab 1", "{}").message, "window.sta.invoke(x) failed in tab 1: {}");
    let (session, said) = attach_answer("T", 1, "{\"sessionId\":\"s\"}").unwrap();
    assert_eq!((session.as_str(), said.text.as_str()), ("s", "attached to T"));
    assert_eq!(said.structured, "{\"browser\":1,\"sessionId\":\"s\",\"targetId\":\"T\"}");
    assert_eq!(attach_answer("T", 1, "{}").unwrap_err().message, "Target.attachToTarget(T) returned no sessionId");
    assert_eq!(role_of(&Role::DevTools { tab: 4 }), "devtools:4");
    assert_eq!(role_of(&Role::Surface { host: "find".to_string() }), "surface:find");
}

#[test]
fn a_message_is_answered_once() {
    let mut clients = Clients::new();
    assert_eq!(call(&mut clients, 1, "Page.enable", "{}", None), Err("no DevTools client for that browser".to_string()));
    ensure(&mut clients, 1);
    let (id, text) = call(&mut clients, 1, "Page.enable", "{}", Some("s")).unwrap();
    assert_eq!((id, text.as_str()), (ID_BASE, "{\"id\":1879048192,\"method\":\"Page.enable\",\"params\":{},\"sessionId\":\"s\"}"));
    let (next, _) = call(&mut clients, 1, "Page.enable", "{}", None).unwrap();
    assert_eq!(next, ID_BASE + 1);
    let reply = json("{\"id\":1879048192,\"error\":{\"message\":\"no\"}}");
    assert!(matches!(deliver_message(&mut clients, 1, &reply, "", "null", "null"), Delivered::Reply { id: ID_BASE, answer: Err(e) } if e == "no"));
    assert!(matches!(deliver_message(&mut clients, 1, &reply, "", "null", "null"), Delivered::Nothing), "the second reply is nobody's");
    assert!(!settle(&mut clients, 1, id) && settle(&mut clients, 1, next));
    let (again, _) = call(&mut clients, 1, "Page.enable", "{}", None).unwrap();
    assert_eq!(fail_all(&mut clients, 1), vec![again]);
    assert_eq!(fail_all(&mut clients, 1).len(), 0);
    assert_eq!(call_result(CallAnswer::Reply(Ok(3)), 5), Ok(3));
    assert_eq!(call_result::<u8>(CallAnswer::Refused, 5), Err("send_dev_tools_message refused the message".to_string()));
    assert_eq!(call_result::<u8>(CallAnswer::Dropped, 5), Err("the DevTools session was dropped".to_string()));
    assert_eq!(call_result::<u8>(CallAnswer::TimedOut, 5), Err("no answer within 5 ms".to_string()));
}

#[test]
fn only_our_replies_and_events_are_read() {
    assert!(on_message(b"{\"method\":\"Page.loadEventFired\"}"));
    assert!(on_message(b"{\"id\":1879048192,\"result\":{}}"));
    assert!(on_message(format!("{{\"id\":{ID_MAX}}}").as_bytes()));
    assert!(!on_message(b"{\"id\":5,\"result\":{}}"), "the agent's");
    assert!(!on_message(b"{\"id\":1073741824}"), "the shell's");
    assert!(!on_message(b"{\"id\":2147483647}"));
    assert!(!on_message(b"{\"id\":99999999999999999999999999999999}"));
    assert!(!on_message(b"{\"id\":\"x\"}"));
    assert!(on_message(b""));
}

#[test]
fn events_are_kept_and_cut() {
    let mut clients = Clients::new();
    ensure(&mut clients, 1);
    for n in 0..MAX_EVENTS + 2 {
        let msg = json(&format!("{{\"method\":\"m{n}\",\"sessionId\":\"s\"}}"));
        assert!(matches!(deliver_message(&mut clients, 1, &msg, &"x".repeat(3000), "null", "\"s\""), Delivered::Event));
    }
    let list = events(&mut clients, 1, true);
    assert_eq!((list.len(), list[0].method.as_str(), list[0].params.len(), list[0].session.as_str()), (MAX_EVENTS, "m2", 2000, "\"s\""));
    assert_eq!(events(&mut clients, 1, false).len(), 0);
    assert!(matches!(deliver(&mut clients, 2, b"{\"method\":\"m\"}"), Delivered::Nothing));
    // A cut never splits a character.
    assert_eq!(cut_to("가나다", 7), "가나");
    assert_eq!(cut_to("abc", 7), "abc");
    assert_eq!(cut_to("😀", 3), "");
}

#[test]
fn messages_are_read_as_bytes() {
    let mut clients = Clients::new();
    ensure(&mut clients, 1);
    call(&mut clients, 1, "Page.enable", "{}", None).unwrap();
    assert!(matches!(deliver(&mut clients, 1, b"\xff"), Delivered::Nothing));
    assert!(matches!(deliver(&mut clients, 1, b"{"), Delivered::Nothing));
    assert!(matches!(deliver(&mut clients, 1, b"{ \"id\": 1879048192, \"result\": {\"b\": 1.5, \"a\": []} }"),
        Delivered::Reply { id: ID_BASE, answer: Ok(text) } if text == "{\"a\":[],\"b\":1.5}"));
    assert!(matches!(deliver(&mut clients, 1, b"{\"method\":\"m\",\"params\":{ \"x\": 1 }}"), Delivered::Event));
    let list = events(&mut clients, 1, false);
    assert_eq!((list[0].method.as_str(), list[0].params.as_str(), list[0].session.as_str()), ("m", "{\"x\":1}", "null"));
}

#[test]
fn targets_are_listed_and_attached_to() {
    let world = world();
    let roles: Vec<Role> = world.live.iter().map(|_| Role::Other).collect();
    let answer = "{\"targetInfos\":[{\"targetId\":\"T\",\"type\":\"service_worker\",\"url\":\"chrome-extension://x\",\"title\":[1.5]},{\"targetId\":7,\"url\":1}]}";
    let list = targets(&world.live, &roles, Some(answer));
    assert_eq!(list.len(), world.live.len() + 2);
    assert_eq!((list[0].id.clone(), list[0].title.clone()), (format!("\"browser:{}\"", world.live[0].id), None));
    let found = &list[world.live.len()];
    assert_eq!((found.id.as_str(), found.browser, found.kind.as_str(), found.role.as_str()), ("\"T\"", None, "\"service_worker\"", "cdp"));
    assert_eq!((found.url.as_str(), found.title.as_deref()), ("chrome-extension://x", Some("[1.5]")));
    let odd = &list[world.live.len() + 1];
    assert_eq!((odd.id.as_str(), odd.kind.as_str(), odd.url.as_str(), odd.title.as_deref()), ("7", "null", "", Some("null")));
    assert_eq!(targets(&world.live, &roles, None).len(), world.live.len());
    let attaching = |args: &str| attach(&json(args), &world, &vec![]);
    assert_eq!(attaching("{\"target\":null,\"targetId\":\"T\"}").unwrap(), ("T".to_string(), 1));
    assert_eq!(attaching("{\"targetId\":\"T\"}").unwrap().1, 1);
    assert!(attaching("{\"target\":{},\"targetId\":\"T\"}").is_err());
    assert_eq!(attaching("{\"target\":{}}").unwrap_err().message, "targetId (a string) is required");
    assert_eq!(targets_asker(&json("{}"), &world).unwrap(), Some(1));
    assert_eq!(targets_asker(&json("{\"cdp\":false}"), &headless()).unwrap(), None);
    assert_eq!(targets_asker(&json("{}"), &headless()).unwrap_err().code, ErrorCode::BrowserNotRunning);
    let said = targets_answer(&list[1..3].iter().map(copy).collect());
    assert_eq!(said.text, "2 target(s)");
    assert_eq!(
        said.structured,
        "[{\"browser\":2,\"id\":\"browser:2\",\"role\":\"other\",\"type\":\"page\",\"url\":\"https://example.com/a\"},\
         {\"browser\":null,\"id\":\"T\",\"role\":\"cdp\",\"targetId\":\"T\",\"title\":[1.5],\"type\":\"service_worker\",\"url\":\"chrome-extension://x\"}]"
    );
    assert_eq!(attach_params("T\""), "{\"flatten\":true,\"targetId\":\"T\\\"\"}");
    assert_eq!(attach_failed("T", "gone").message, "Target.attachToTarget(T) failed: gone");
    assert_eq!(evaluate_failed("tab 1", "gone").message, "Runtime.evaluate in tab 1 failed: gone");
    let params = ["{\"params\":{\"a\":0.5}}", "{\"params\":null}", "{}"].map(cdp_params);
    assert_eq!(params, ["{\"a\":0.5}", "{}", "{}"]);
    assert_eq!(cdp_summary("Page.enable", "tab 1", 5), "Page.enable on tab 1 (5 ms)");
    assert_eq!((pick_events(vec![1], vec![2]), pick_events(vec![], vec![2])), (vec![1], vec![2]));
}

#[test]
fn script_tools_answer_in_full() {
    let (world, none) = (world(), vec![]);
    let text = "{\"target\":{\"tab\":7},\"expression\":\"1\",\"cmd\":\"tabs.list\",\"payload\":{\"b\":1},\"method\":\"Page.enable\",\"clear\":true}";
    let args = json(text);
    let (target, params) = eval(&args, &world, &none).unwrap();
    assert_eq!((target.browser, target.what.as_str(), params == evaluate(&args, "1")), (2, "tab 7", true));
    assert_eq!(eval(&json("{\"target\":{\"tab\":7}}"), &world, &none).err().unwrap().message, "expression (a string) is required");
    let said = eval_answer("tab 7", "{\"result\":{\"type\":\"number\",\"value\":4}}");
    assert_eq!((said.text.as_str(), said.structured.as_str()), ("evaluated in tab 7", "{\"value\":4}"));
    assert_eq!(eval_answer("x", "{\"result\":{\"type\":\"undefined\"}}").structured, "{}");
    let thrown = "{\"exceptionDetails\":{\"text\":\"t\",\"stackTrace\":[1]}}";
    assert_eq!(eval_answer("x", thrown).structured, "{\"error\":{\"stack\":[1],\"text\":\"t\"}}");
    let (_, command, params) = invoke(&args, text, &world, &none).unwrap();
    assert_eq!((command.as_str(), params), ("tabs.list", evaluate(&args, &invoke_expression("tabs.list", "{\"b\":1}"))));
    let said = invoke_answer("tabs.list", "tab 7", "{\"result\":{\"value\":{\"ok\":[]}}}").unwrap();
    assert_eq!((said.text.as_str(), said.structured.as_str()), ("tabs.list in tab 7", "{\"ok\":[]}"));
    assert_eq!(invoke_answer("c", "w", "{\"result\":{\"type\":\"undefined\"}}").unwrap().structured, "null");
    let failed = invoke_answer("c", "w", thrown).unwrap_err();
    assert_eq!((failed.code, failed.message.as_str()), (ErrorCode::ScriptError, "window.sta.invoke(c) failed in w: {\"stack\":[1],\"text\":\"t\"}"));
    let (_, method, params) = cdp(&args, text, &world, &none).unwrap();
    assert_eq!((method.as_str(), params.as_str()), ("Page.enable", "{}"));
    let said = cdp_answer("Page.enable", "tab 7", Ok("{}"), 5);
    assert_eq!((said.text.as_str(), said.structured.as_str()), ("Page.enable on tab 7 (5 ms)", "{\"ms\":5,\"result\":{}}"));
    assert_eq!(cdp_answer("m", "w", Err("g\"one"), 5).structured, "{\"error\":\"g\\\"one\",\"ms\":5}");
    assert!(cdp_events(&args, &world, &none).unwrap().1);
    let mut clients = Clients::new();
    ensure(&mut clients, 1);
    deliver(&mut clients, 1, b"{\"method\":\"m\",\"params\":{ \"x\": 1 }}");
    let list: Vec<String> = events(&mut clients, 1, false).iter().map(event_text).collect();
    let said = events_answer("tab 7", &list);
    assert_eq!(said.text, "1 event(s) of tab 7");
    assert_eq!(said.structured, "{\"events\":[{\"method\":\"m\",\"params\":\"{\\\"x\\\":1}\",\"sessionId\":null}]}");
}
