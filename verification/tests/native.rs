use sta::json::{parse, Json};
use sta::png::{write_png, Image};
use sta::test_hooks::capture::{capture_flags, capture_size, dpi_of, release, window, Drawn};
use sta::rect::Edges;
use sta::test_hooks::native::{
    base64, belongs_to_us, capture_directory, capture_failed, capture_window, clipboard_get, color_at, console_windows, hit_test_answer, hit_tests, inline_answer,
    message_answer, pixels_wanted, saved_answer, window as window_answer, clipboard_set, clipboard_summary, clipboard_was_set, console_roots, console_summary, default_capture_name, dialog, dialog_sent, hit_test, info, inline_capture,
    modifiers, pixels, target_hwnd, top_level_windows, wants_all_windows, window_message, RawInfo, zone_identifier, Desk, Place, WindowState,
};
use sta::test_hooks::console_watch::{Watch, Window};
use sta::test_hooks::{console_watch, fallback, ErrorCode};

#[test]
fn base64_matches_the_standard_alphabet_and_padding() {
    assert_eq!(base64(b""), "");
    assert_eq!(base64(b"f"), "Zg==");
    assert_eq!(base64(b"fo"), "Zm8=");
    assert_eq!(base64(b"foo"), "Zm9v");
    assert_eq!(base64(b"foobar"), "Zm9vYmFy");
    assert_eq!(base64(&[0xff, 0xef, 0xbf]), "/++/");
}

#[test]
fn zone_identifier_reports_a_missing_file() {
    let Err(e) = zone_identifier(r"C:\definitely\not\here\sta-test.bin", false, None) else { panic!("a missing file must fail") };
    assert_eq!(e.code, ErrorCode::NoSuchTarget);
    assert_eq!(e.message, r"C:\definitely\not\here\sta-test.bin does not exist");
    let marked = zone_identifier("x", true, Some("ZoneId=3")).unwrap();
    assert_eq!((marked.text.as_str(), marked.structured.as_str()), ("the file carries a Zone.Identifier", "{\"zone\":\"ZoneId=3\"}"));
    let plain = zone_identifier("x", true, None).unwrap();
    assert_eq!((plain.text.as_str(), plain.structured.as_str()), ("no Zone.Identifier", "{\"zone\":null}"));
}

fn json(text: &str) -> Json {
    parse(text).unwrap()
}

/// The main window 10, its dialog 11, a window 12 without an owner, a window 13 of another process.
fn desk(foreground: isize) -> Desk {
    let w = |hwnd, pid, owner, visible| WindowState { hwnd, pid, owner, visible };
    Desk {
        main: 10,
        own_pid: 7,
        foreground,
        windows: vec![w(10, 7, 0, true), w(11, 7, 10, true), w(12, 7, 0, true), w(13, 8, 10, true), w(14, 7, 10, false), w(15, 0, 10, true)],
    }
}

#[test]
fn a_dialog_is_answered_and_nothing_else() {
    let press = dialog(&json("{}"), &desk(11)).unwrap();
    assert_eq!((press.hwnd, press.key, press.name.as_str()), (11, 0x0D, "enter"));
    assert_eq!(dialog(&json("{\"hwnd\":11,\"press\":\"tab\"}"), &desk(11)).unwrap().key, 0x09);
    let refused = |args: &str, foreground: isize| {
        let e = dialog(&json(args), &desk(foreground)).err().unwrap();
        (e.code, e.message)
    };
    assert_eq!(refused("{\"hwnd\":13}", 13), (ErrorCode::NoSuchTarget, "window 13 does not belong to this process".to_string()));
    assert_eq!(refused("{}", 0), (ErrorCode::NoSuchTarget, "window 0 does not belong to this process".to_string()));
    assert_eq!(refused("{}", 10), (ErrorCode::InvalidArguments, "that is sta's main window; use test_real_keys".to_string()));
    assert_eq!(refused("{}", 12), (ErrorCode::InvalidArguments, "window 12 is not owned by a window of sta's".to_string()));
    assert_eq!(refused("{}", 14), (ErrorCode::NoSuchTarget, "window 14 is not visible".to_string()));
    assert_eq!(refused("{\"press\":\"f1\"}", 11), (ErrorCode::InvalidArguments, "unknown press \"f1\" (enter, escape, space or tab)".to_string()));
    assert_eq!(refused("{\"hwnd\":11}", 10), (ErrorCode::WindowBusy, "window 11 is not the foreground window; nothing was sent".to_string()));
    assert_eq!(dialog(&json("{}"), &Desk { main: 0, own_pid: 7, foreground: 11, windows: vec![] }).err().unwrap().message, "sta has no window (starting up or shutting down)");
    let about = info(raw(11, 7, None), 11);
    let said = dialog_sent(&press, true, &about).unwrap();
    assert_eq!(said.text, "pressed enter in window 11");
    assert!(said.structured.starts_with("{\"hwnd\":11,\"press\":\"enter\",\"sent\":true,\"window\":{\"className\":"));
    assert_eq!(dialog_sent(&press, false, &about).unwrap_err().code, ErrorCode::WindowBusy);
}

#[test]
fn messages_go_to_our_windows() {
    assert_eq!(target_hwnd(&json("{}"), &desk(10)).unwrap(), 10);
    assert_eq!(target_hwnd(&json("{\"hwnd\":12}"), &desk(10)).unwrap(), 12);
    assert_eq!(target_hwnd(&json("{\"hwnd\":13}"), &desk(10)).unwrap_err().code, ErrorCode::InvalidArguments);
    let (hwnd, m) = window_message(&json("{\"message\":\"minimize\"}"), &desk(10)).unwrap();
    assert_eq!((hwnd, m.message, m.wparam, m.name), (10, 0x112, 0xF020, "SC_MINIMIZE"));
    assert_eq!(window_message(&json("{\"message\":\"close\"}"), &desk(10)).unwrap().1.name, "WM_CLOSE");
    assert_eq!(window_message(&json("{\"message\":\"x\"}"), &desk(10)).err().unwrap().message, "unknown message \"x\" (close, restore or minimize)");
    assert_eq!(window_message(&json("{}"), &desk(10)).err().unwrap().message, "message (a string) is required");
    assert_eq!(hit_test(100, 200, 5, -1), 199 << 16 | 105);
    let said = message_answer(10, &m);
    assert_eq!((said.text.as_str(), said.structured.as_str()), ("posted SC_MINIMIZE", "{\"hwnd\":10,\"posted\":\"SC_MINIMIZE\"}"));
    assert_eq!(hit_tests(&json("{\"points\":[[1,2]],\"space\":\"dip\"}"), 10).unwrap(), (10, 1, true));
    assert_eq!(hit_tests(&json("{\"points\":[[1,2]]}"), 0).unwrap_err().code, ErrorCode::NoSuchTarget);
    let said = hit_test_answer(&vec![2, -1]);
    assert_eq!((said.text.as_str(), said.structured.as_str()), ("2 hit test(s)", "{\"codes\":[2,-1]}"));
}

#[test]
fn a_window_is_captured_opaque() {
    let edges = Edges { left: 10, top: 20, right: 12, bottom: 21 };
    assert_eq!(capture_size(edges), (2, 1));
    assert_eq!(capture_size(Edges { right: 10, bottom: 20, ..edges }), (1, 1));
    assert_eq!((capture_flags(true), capture_flags(false)), (3, 2));
    assert_eq!((dpi_of(0, 120), dpi_of(5, 0), dpi_of(5, 120)), (96, 96, 120));
    let drawn = || Drawn { edges: Some(edges), screen: true, memory: true, bitmap: true, printed: true, lines: 1, bgra: vec![1, 2, 3, 0, 4, 5, 6, 7] };
    let image = window(5, &drawn()).unwrap();
    assert_eq!((image.width, image.height, image.rgba), (2, 1, vec![3, 2, 1, 255, 6, 5, 4, 255]));
    let failure = |d: Drawn| window(5, &d).err().unwrap();
    assert_eq!(window(0, &drawn()).err().unwrap(), "no window");
    assert_eq!(failure(Drawn { edges: None, ..drawn() }), "the window has no rectangle");
    assert_eq!(failure(Drawn { screen: false, ..drawn() }), "no screen DC");
    assert_eq!(failure(Drawn { bitmap: false, ..drawn() }), "PrintWindow failed");
    assert_eq!(failure(Drawn { lines: 0, ..drawn() }), "GetDIBits returned no scan lines");
    assert!(release(&drawn()).bitmap && !release(&Drawn { memory: false, ..drawn() }).selection);
    assert_eq!(fallback::window(5, false).err().unwrap(), "window capture is a Windows feature");
}

#[test]
fn captures_go_where_they_are_wanted() {
    let c = capture_window(&json("{\"region\":\"client\",\"inline\":true}"), &desk(10)).unwrap();
    assert!(c.client_only && c.hwnd == 10 && matches!(c.place, Place::Inline));
    assert!(matches!(capture_window(&json("{\"out\":\"a.png\"}"), &desk(10)).unwrap().place, Place::File(p) if p == "a.png"));
    assert!(matches!(capture_window(&json("{}"), &desk(10)).unwrap().place, Place::Logs));
    assert_eq!(inline_capture(b"foo", 4).unwrap(), "Zm9v");
    assert_eq!(inline_capture(b"foo", 3).unwrap_err().message, "the capture is 4 base64 characters; write it to a file instead");
    assert_eq!(default_capture_name(12), "capture-12.png");
    let said = inline_answer(4, 3, b"foo", "1.25", 4).unwrap();
    assert_eq!(said.text, "4x3 inline capture");
    assert_eq!(said.structured, "{\"data\":\"Zm9v\",\"height\":3,\"scale\":1.25,\"width\":4}");
    assert_eq!(inline_answer(4, 3, b"foo", "1", 3).unwrap_err().code, ErrorCode::TooLarge);
    let said = saved_answer("C:\\a.png", 4, 3, 99, "1", Ok(())).unwrap();
    assert_eq!(said.text, "saved C:\\a.png (4x3)");
    assert_eq!(said.structured, "{\"bytes\":99,\"height\":3,\"path\":\"C:\\\\a.png\",\"scale\":1,\"width\":4}");
    assert_eq!(saved_answer("a", 4, 3, 99, "1", Err("full")).unwrap_err().message, "cannot write a: full");
    assert_eq!(capture_directory(None).unwrap_err().message, "no data directory yet");
    assert_eq!((capture_directory(Some("d")).unwrap(), capture_failed("no window").code), ("d".to_string(), ErrorCode::Internal));
}

#[test]
fn pixels_are_read_inside_the_picture() {
    let image = Image { width: 2, height: 1, rgba: vec![0, 16, 255, 9, 1, 2, 3, 9] };
    assert_eq!(color_at(&image, 0, 0), "#0010ff");
    assert_eq!(color_at(&image, 99, -5), "#010203");
    let (path, count, device) = pixels_wanted(&json("{\"path\":\"a.png\",\"points\":[[0,0],[99,-5]],\"space\":\"device\"}")).unwrap();
    assert_eq!((path.as_str(), count, device), ("a.png", 2, true));
    assert_eq!(pixels_wanted(&json("{\"points\":1}")).unwrap_err().message, "path (a string) is required");
    let png = write_png(&image).unwrap();
    let said = pixels("a.png", Ok(&png), &vec![(0, 0), (99, -5)], "1.5").unwrap();
    assert_eq!(said.text, "2 pixel(s)");
    assert_eq!(said.structured, "{\"colors\":[\"#0010ff\",\"#010203\"],\"height\":1,\"scale\":1.5,\"width\":2}");
    let failed = pixels("a.png", Err("gone"), &vec![], "1").unwrap_err();
    assert_eq!((failed.code, failed.message.as_str()), (ErrorCode::NoSuchTarget, "cannot read a.png: gone"));
    let failed = pixels("a.png", Ok(b"x"), &vec![], "1").unwrap_err();
    assert_eq!((failed.code, failed.message.as_str()), (ErrorCode::InvalidArguments, "a.png: not a PNG"));
}

#[test]
fn the_rest_is_put_in_words() {
    assert_eq!(clipboard_summary(Some("가나")), "2 clipboard characters");
    assert_eq!(clipboard_summary(None), "the clipboard holds no text");
    assert_eq!(console_roots(&json("{\"roots\":[5,\"x\",6]}"), 1), vec![1, 5, 6]);
    assert_eq!(console_roots(&json("{}"), 1), vec![1]);
    assert_eq!(console_summary(1, 2, 3, 4), "1 console window(s) now, 2 seen (3 user-visible), 4 ours");
}

fn raw(hwnd: isize, pid: u32, edges: Option<Edges>) -> RawInfo {
    RawInfo {
        hwnd,
        pid,
        edges,
        dpi: 144,
        zoomed: false,
        iconic: true,
        style: 0x0004_0001,
        ex_style: 8,
        owner: 5,
        visible: true,
        enabled: true,
        class_name: "Chrome_WidgetWin_1".to_string(),
        title: "sta".to_string(),
    }
}

#[test]
fn windows_are_described_and_listed() {
    let edges = Some(Edges { left: 10, top: 20, right: 110, bottom: 70 });
    let main = info(raw(4, 1, edges), 4);
    assert_eq!((main.place, main.dpi, main.thick_frame, main.foreground, main.iconic), ([10, 20, 100, 50], 144, true, true, true));
    assert_eq!(info(raw(0, 1, None), 4).place, [0, 0, 0, 0]);
    assert_eq!(modifiers(0x8001, 1, 0xFFFF), (true, false, true));
    let all = vec![raw(4, 1, edges), raw(5, 2, edges), raw(6, 1, None)];
    let list = top_level_windows(&all, 1, &vec![6]);
    let seen: Vec<(isize, bool, i32)> = list.iter().map(|w| (w.hwnd, w.hidden, w.place[2])).collect();
    assert_eq!(seen, [(4, false, 100), (6, true, 0)]);
    let said = window_answer(&main, (true, false, false), None);
    assert_eq!(said.text, "window info");
    assert_eq!(
        said.structured,
        "{\"className\":\"Chrome_WidgetWin_1\",\"dpi\":144,\"enabled\":true,\"foreground\":true,\"height\":50,\"hwnd\":4,\"iconic\":true,\"left\":10,\
         \"modifiers\":{\"alt\":false,\"ctrl\":true,\"shift\":false},\"thickFrame\":true,\"title\":\"sta\",\"top\":20,\"width\":100,\"zoomed\":false}"
    );
    let said = window_answer(&main, (true, false, false), Some(&list));
    assert_eq!(said.text, "2 top-level window(s)");
    assert!(said.structured.contains(
        "\"windows\":[{\"className\":\"Chrome_WidgetWin_1\",\"enabled\":true,\"exStyle\":8,\"height\":50,\"hidden\":false,\"hwnd\":4,\"left\":10,\"owner\":5,\
         \"style\":262145,\"title\":\"sta\",\"top\":20,\"visible\":true,\"width\":100},"
    ));
    assert!(wants_all_windows(&parse("{\"all\":true}").unwrap()) && !wants_all_windows(&Json::Null));
}

#[test]
fn the_clipboard_is_set_or_not() {
    assert_eq!(clipboard_set(&parse("{\"text\":\"a\"}").unwrap()).unwrap(), "a");
    assert_eq!(clipboard_set(&Json::Null).unwrap_err().message, "text (a string) is required");
    let said = clipboard_was_set("a\"", true).unwrap();
    assert_eq!((said.text.as_str(), said.structured.as_str()), ("clipboard set", "{\"text\":\"a\\\"\"}"));
    let said = clipboard_get(Some("ab"));
    assert_eq!((said.text.as_str(), said.structured.as_str()), ("2 clipboard characters", "{\"text\":\"ab\"}"));
    assert_eq!(clipboard_get(None).structured, "{\"text\":null}");
    assert_eq!(clipboard_was_set("a", false).unwrap_err().message, "the clipboard could not be opened");
}

#[test]
fn only_windows_of_this_process_are_ours() {
    let d = desk(11);
    assert_eq!([0, 10, 13, 15, 99].map(|hwnd| belongs_to_us(&d, hwnd)), [false, true, false, false, false]);
    let none = Desk { own_pid: 0, ..desk(11) };
    assert!(!belongs_to_us(&none, 15), "no process is nobody's");
}

#[test]
fn console_windows_are_reported() {
    let mut watch = Watch::new();
    console_watch::record(&mut watch, 4, 77, "ConsoleWindowClass".into(), "t".into(), 1, &[(77, 5)]);
    let windows = vec![Window { hwnd: 6, pid: 8, class: "PseudoConsoleWindow".into(), title: String::new(), visible: true }];
    let said = console_windows(&json("{\"roots\":[5]}"), &mut watch, 1, "", &windows, 9);
    assert_eq!(said.text, "1 console window(s) now, 1 seen (1 user-visible), 1 ours");
    let seen = "{\"chain\":[77,5],\"className\":\"ConsoleWindowClass\",\"hosted\":false,\"hwnd\":4,\"ours\":true,\"pid\":77,\"shownAt\":1,\"title\":\"t\",\"userVisible\":true}";
    let now = "{\"className\":\"PseudoConsoleWindow\",\"hwnd\":6,\"pid\":8,\"title\":\"\",\"userVisible\":false}";
    assert_eq!(said.structured, format!("{{\"at\":9,\"current\":[{now}],\"ours\":[{seen}],\"seen\":[{seen}],\"watching\":false}}"));
    let said = console_windows(&json("{\"reset\":true}"), &mut watch, 1, "", &vec![], 9);
    assert_eq!(said.text, "0 console window(s) now, 0 seen (0 user-visible), 0 ours");
    assert_eq!(watch.seen.len(), 0);
}
