use sta::json::{parse, Json};
use sta::test_hooks::{
    answer, arm_from_process, arm_of, armed, auto_approve, batch, batch_answer, batch_arguments, batch_call, batch_failed, batch_result, bytes_answer, err, info, out,
    payload_text, state_answer, text_answer, batch_goes_on, batch_summary, begin_request, bool_arg, clear, data_dir_argument, data_dir_ok,
    debug_request, deliver, dispatch, find, from_debug_code, is_test_tool, named_member, structured, Structured, keeps_section, on_startup, points_arg, run, shell_browser, str_arg, summary,
    timeout_arg, Answer, Arm, Arming, Directory, ErrorCode, Hooks, Payload, Route, Tool,
};

fn json(text: &str) -> Json {
    parse(text).unwrap()
}

fn directory(path: &str) -> Directory {
    Directory { given: path.to_string(), absolute: path.to_string() }
}

#[test]
fn a_real_profile_is_never_a_test_data_directory() {
    let local = r"C:\Users\someone\AppData\Local";
    for bad in [r"C:\Users\someone\AppData\Local\sta", r"C:\Users\someone\AppData\Local\sta Dev", r"C:/Users/someone/AppData/Local/Astatine", r"C:\Users\someone\AppData\Local\Astatine Dev\", r"C:\Users\someone\AppData\Local\sta\deeper"] {
        assert!(data_dir_ok(Some(&directory(bad)), Some(&directory(local))).is_err(), "{bad}");
    }
    for good in [r"C:\ast\tmp\s6\tools\smoke", r"C:\Users\someone\AppData\Local\sta-e2e", r"D:\profiles\work"] {
        assert!(data_dir_ok(Some(&directory(good)), Some(&directory(local))).is_ok(), "{good}");
    }
    assert!(data_dir_ok(None, Some(&directory(local))).is_err(), "no data directory at all");
    // Capitals make no other directory, and without the folder of profiles there is none to hit.
    assert_eq!(
        data_dir_ok(Some(&directory(r"c:\USERS\someone\appdata\LOCAL\STA")), Some(&directory(local))),
        Err(r"c:\USERS\someone\appdata\LOCAL\STA is the real sta profile".to_string())
    );
    assert!(data_dir_ok(Some(&directory(r"C:\Users\someone\AppData\Local\sta")), None).is_ok());
    // The directories are compared as absolute paths, however they were named.
    let relative = Directory { given: "..\\Local".to_string(), absolute: local.to_string() };
    let named = Directory { given: "x".to_string(), absolute: r"C:\Users\someone\AppData\Local\sta\x".to_string() };
    assert_eq!(data_dir_ok(Some(&named), Some(&relative)), Err("x is the real sta profile".to_string()));
    assert_eq!(data_dir_ok(None, None), Err("pass --sta-data-dir=<path> (or STA_DATA_DIR)".to_string()));
}

/// An un-armed build answers `unknown_tool`, never `test_hooks_off` (probing a name must not confirm
/// that the surface exists).
#[test]
fn unarmed_answers_unknown_tool() {
    let state = Hooks::new(Arm { on: false, approve: false });
    assert!(!armed(&state), "the test binary never arms itself");
    let Err(e) = run(&state, "test_info", "{}") else { panic!("an un-armed build has no test tools") };
    assert_eq!(e.code, ErrorCode::UnknownTool, "{e:?}");
    assert!(!e.message.contains("test hook"), "{e:?}");
    assert_eq!(e.message, "sta has no tool \"test_info\"");
}

/// Every tool of the catalog has a route (and the other way round).
#[test]
fn the_catalog_and_the_dispatcher_agree() {
    let names = [
        "test_info", "test_state", "test_dispatch", "test_execute", "test_push_state", "test_open_tab", "test_focus", "test_accelerator", "test_send_key",
        "test_reset_permissions", "test_counts", "test_eval", "test_invoke", "test_targets", "test_cdp", "test_cdp_events", "test_attach", "test_real_keys",
        "test_post_mouse", "test_hover_input", "test_tab_key", "test_window", "test_hit_test", "test_window_message", "test_dialog", "test_capture",
        "test_pixels", "test_clipboard_get", "test_clipboard_set", "test_zone_identifier", "test_console_windows", "test_foreign", "test_foreign_close",
        "test_foreign_trigger", "test_batch",
    ];
    let state = Hooks::new(Arm { on: true, approve: true });
    let args = json("{\"command\": 1, \"effects\": []}");
    for name in names {
        let (tool, _) = run(&state, name, "{}").unwrap_or_else(|e| panic!("{name} has no route: {e:?}"));
        assert_eq!(tool.name(), name);
        assert!(dispatch(tool, &args).is_ok());
        assert!(is_test_tool(name));
    }
    assert_eq!(find("test_nothing"), None);
}

#[test]
fn the_surface_is_armed_by_all_of_its_locks() {
    let args = |list: &[&str]| list.iter().map(|s| s.to_string()).collect::<Vec<String>>();
    let dir = directory(r"C:\tmp\suite");
    let on = args(&["sta", "--sta-test-hooks"]);
    assert!(matches!(arm_from_process(&on, Some("1"), Some(&dir), None), Arming::Armed { approve: true }));
    assert!(matches!(arm_from_process(&args(&["sta", "--sta-test-hooks-no-approve"]), Some("1"), Some(&dir), None), Arming::Armed { approve: false }));
    assert!(matches!(arm_from_process(&on, Some("0"), Some(&dir), None), Arming::Closed));
    assert!(matches!(arm_from_process(&on, None, Some(&dir), None), Arming::Closed));
    assert!(matches!(arm_from_process(&args(&["sta"]), Some("1"), Some(&dir), None), Arming::Closed));
    let Arming::Refused { message } = arm_from_process(&on, Some("1"), None, None) else { panic!("no data directory") };
    assert_eq!(message, "[sta] --sta-test-hooks needs an explicit test data directory: pass --sta-data-dir=<path> (or STA_DATA_DIR)");
    // The switch wins over the environment, and an empty one is none.
    assert_eq!(data_dir_argument(&args(&["--sta-data-dir=", "--sta-data-dir=a"]), Some("b")), Some("a".to_string()));
    assert_eq!(data_dir_argument(&args(&["--sta-data-dir="]), Some("b")), Some("b".to_string()));
    assert_eq!(data_dir_argument(&args(&[]), Some("")), None);
}

#[test]
fn a_surface_that_shuts_down_says_so() {
    let mut state = Hooks::new(Arm { on: true, approve: false });
    assert!(armed(&state) && !auto_approve(&state));
    assert!(on_startup(&state).watch_consoles && !on_startup(&state).open_endpoint);
    let id = begin_request(&mut state);
    assert!(deliver(&mut state, id) && !deliver(&mut state, id), "a request is answered once");
    let id = begin_request(&mut state);
    clear(&mut state);
    assert!(!armed(&state) && !deliver(&mut state, id));
    assert_eq!(run(&state, "test_info", "{}").unwrap_err().code, ErrorCode::TestHooksOff);
}

#[test]
fn routes_carry_what_the_request_needs() {
    let Ok(Route::Request { command, payload, timeout_ms }) = dispatch(Tool::Dispatch, &json("{\"command\":{},\"timeoutMs\":5}")) else { panic!() };
    assert_eq!((command, payload, timeout_ms), ("debug.dispatch", Payload::Command, 5));
    let Ok(Route::Request { command, payload, timeout_ms }) = dispatch(Tool::RealKeys, &json("{\"timeoutMs\":5}")) else { panic!() };
    assert_eq!((command, payload, timeout_ms), ("debug.realKeys", Payload::Args, 120_000));
    assert_eq!(dispatch(Tool::Dispatch, &json("{}")).unwrap_err().message, "command is required");
    assert_eq!(dispatch(Tool::Execute, &json("{}")).unwrap_err().message, "effects is required");
    assert!(matches!(dispatch(Tool::Eval, &json("{}")), Ok(Route::Script)));
    assert!(matches!(dispatch(Tool::Pixels, &json("{}")), Ok(Route::Native)));
    assert!(matches!(dispatch(Tool::State, &json("{}")), Ok(Route::Store)));
    assert!(matches!(dispatch(Tool::Batch, &json("{}")), Ok(Route::Batch)));
    assert_eq!(summary(Tool::RealKeys, "4"), "sent 4 key transitions");
    assert_eq!(summary(Tool::OpenTab, "null"), "opened tab null");
}

#[test]
fn arguments_are_checked() {
    let args = json("{\"a\":\"x\",\"b\":true,\"timeoutMs\":999999,\"points\":[[1,2.5]],\"bad\":[[1]],\"worse\":[[1,\"2\"]],\"sections\":[\"tabs\",1]}");
    assert_eq!(str_arg(&args, "a").unwrap(), "x");
    assert_eq!(str_arg(&args, "b").unwrap_err().message, "b (a string) is required");
    assert!(bool_arg(&args, "b", false) && bool_arg(&args, "a", true));
    assert_eq!(timeout_arg(&args), 120_000);
    assert_eq!(timeout_arg(&json("{}")), 10_000);
    assert_eq!(timeout_arg(&json("{\"timeoutMs\":-3}")), 1);
    assert_eq!(points_arg(&args, "points").unwrap(), 1);
    assert_eq!(points_arg(&args, "bad").unwrap_err().message, "bad: every entry is a [x, y] pair");
    assert_eq!(points_arg(&args, "worse").unwrap_err().message, "worse: every entry is a [x, y] pair of numbers");
    assert_eq!(points_arg(&args, "none").unwrap_err().message, "none must be an array of [x, y] pairs");
    assert!(keeps_section(&args, "tabs") && !keeps_section(&args, "window") && keeps_section(&json("{}"), "window"));
}

#[test]
fn failures_of_requests_are_mapped() {
    let code = |c: i32| from_debug_code(c, "m".to_string()).code;
    assert_eq!([code(400), code(404), code(409), code(503), code(500)], [
        ErrorCode::InvalidArguments,
        ErrorCode::NoSuchTarget,
        ErrorCode::WindowBusy,
        ErrorCode::BrowserNotRunning,
        ErrorCode::Internal,
    ]);
    assert_eq!(debug_request(Answer::Value(7), "debug.info", 10).unwrap(), 7);
    assert_eq!(debug_request::<u8>(Answer::TimedOut, "debug.info", 10).unwrap_err().message, "debug.info did not answer within 10 ms");
    assert_eq!(debug_request::<u8>(Answer::Dropped, "debug.info", 10).unwrap_err().message, "debug.info was dropped without an answer");
    assert_eq!(shell_browser(Some(3)).unwrap(), 3);
    assert_eq!(shell_browser(None).unwrap_err().code, ErrorCode::BrowserNotRunning);
}

#[test]
fn a_batch_runs_what_it_may() {
    assert_eq!(batch(&json("{\"calls\":[{},{}],\"stopOnError\":false}"), 20).unwrap(), (2, false));
    assert_eq!(batch(&json("{\"calls\":[]}"), 20).unwrap_err().message, "calls takes 1 to 20 entries (got 0)");
    assert_eq!(batch(&json("{\"calls\":[1,2,3]}"), 2).unwrap_err().message, "calls takes 1 to 2 entries (got 3)");
    assert_eq!(batch(&json("{}"), 2).unwrap_err().message, "calls is required");
    assert_eq!(batch_call(&json("{\"name\":\"test_info\"}")).unwrap(), Tool::Info);
    assert_eq!(batch_call(&json("{\"name\":\"test_batch\"}")).unwrap_err().message, "test_batch cannot run inside test_batch");
    assert_eq!(batch_call(&json("{\"name\":\"test_real_keys\"}")).unwrap_err().message, "test_real_keys cannot run inside test_batch");
    assert_eq!(batch_call(&json("{\"name\":\"nope\"}")).unwrap_err().message, "sta has no tool \"nope\"");
    assert_eq!(batch_call(&json("{}")).unwrap_err().message, "every call needs a name");
    assert!(batch_goes_on(true, true) && batch_goes_on(false, false) && !batch_goes_on(false, true));
    assert_eq!(batch_summary(3), "3 call(s)");
}

#[test]
fn tools_answer_with_their_own_parts() {
    assert_eq!((named_member(Tool::OpenTab), named_member(Tool::Info)), (Some("tab"), None));
    assert!(matches!(structured(Tool::Info), Structured::Sections) && matches!(structured(Tool::Focus), Structured::Null));
}

#[test]
fn a_start_arms_the_surface() {
    assert_eq!(arm_of(&Arming::Closed), Some(Arm { on: false, approve: false }));
    assert_eq!(arm_of(&Arming::Armed { approve: true }), Some(Arm { on: true, approve: true }));
    assert_eq!(arm_of(&Arming::Refused { message: "no".to_string() }), None);
    let state = Hooks::new(arm_of(&Arming::Armed { approve: false }).unwrap());
    let given = |args: &str| run(&state, "test_focus", args).unwrap().1;
    assert_eq!((given("null"), given(" null "), given("{\"a\":1}")), ("{}".to_string(), "{}".to_string(), "{\"a\":1}".to_string()));
}

#[test]
fn shell_tools_answer_in_full() {
    let none = json("{}");
    let said = |tool: Tool, value: &str| {
        let o = answer(tool, value, &none, 12);
        (o.text, o.structured)
    };
    let both = |text: &str, data: &str| (text.to_string(), data.to_string());
    assert_eq!(said(Tool::Dispatch, "7"), both("dispatched", "null"));
    assert_eq!(said(Tool::OpenTab, "{\"tab\":4}"), both("opened tab 4", "{\"tab\":4}"));
    assert_eq!(said(Tool::OpenTab, "[]"), both("opened tab null", "[]"));
    assert_eq!(said(Tool::ResetPermissions, "3"), both("3 content settings reset", "{\"reset\":3}"));
    assert_eq!(said(Tool::ForeignClose, "true"), both("closed: true", "{\"closed\":true}"));
    let shell = "{\"controller\":{\"commandCounts\":{\"a\":1}},\"keyboard\":{}}";
    assert_eq!(said(Tool::Counts, shell), both("command counters", "{\"accelerators\":null,\"commandCounts\":{\"a\":1}}"));
    assert_eq!(said(Tool::Info, "{\"a\":1,\"tabs\":[2],\"z\":0}"), both("shell snapshot", "{\"a\":1,\"at\":12,\"tabs\":[2],\"testHooks\":true,\"z\":0}"));
    assert_eq!(info("{\"a\":1,\"tabs\":[2],\"z\":0}", &json("{\"sections\":[\"z\"]}"), 5), "{\"at\":5,\"testHooks\":true,\"z\":0}");
    assert_eq!(info("{\"at\":1}", &none, 5), "{\"at\":5,\"testHooks\":true}");
    assert_eq!(info("7", &none, 5), "7");
    assert_eq!((text_answer("{ \"b\": 1.50, \"a\": [] }"), text_answer("oops")), ("{\"a\":[],\"b\":1.5}".to_string(), "null".to_string()));
    assert_eq!(bytes_answer(9), "{\"bytes\":9}");
    let args = "{\"command\":{\"x\":1}}";
    let carried = [Payload::Null, Payload::Args, Payload::Command, Payload::Effects].map(|p| payload_text(p, args));
    assert_eq!(carried, ["null", args, "{\"x\":1}", "null"]);
    assert_eq!(state_answer(None).unwrap_err().message, "the store is not ready");
    assert_eq!(state_answer(Some(Err("why".to_string()))).unwrap_err().code, ErrorCode::Internal);
    assert_eq!(state_answer(Some(Ok("{}".to_string()))).unwrap().text, "UiState");
}

#[test]
fn a_batch_lists_what_its_calls_came_to() {
    assert_eq!((batch_arguments("{\"args\":[1]}"), batch_arguments("{}")), ("[1]".to_string(), "{}".to_string()));
    let results = vec![
        batch_result("test_focus", &out("focused".to_string(), "null".to_string())),
        batch_failed("test_eval", "timeout", &err(ErrorCode::Timeout, "late \"x\"")),
    ];
    assert_eq!(results[0], "{\"name\":\"test_focus\",\"ok\":true,\"structured\":null}");
    assert_eq!(results[1], "{\"error\":{\"code\":\"timeout\",\"message\":\"late \\\"x\\\"\"},\"name\":\"test_eval\",\"ok\":false}");
    let said = batch_answer(&results);
    assert_eq!((said.text.as_str(), said.structured), ("2 call(s)", format!("{{\"results\":[{},{}]}}", results[0], results[1])));
}
