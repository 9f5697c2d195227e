use sta::test_hooks::console_watch::{attributed, chain_of, current, install, installed, our_exe, record, reset, snapshot, uninstall, Seen, Watch, Window, KEPT};

fn fake(class: &str, chain: Vec<u32>) -> Seen {
    Seen { hwnd: 4242, pid: chain[0], class: class.to_string(), title: String::new(), shown_at: 1, chain }
}

#[test]
fn ancestry_walks_up_and_stops() {
    let parents = [(100, 50), (50, 4), (4, 0), (7, 7)];
    assert_eq!(chain_of(&parents, 100), vec![100, 50, 4], "youngest first, up to the root");
    assert_eq!(chain_of(&parents, 7), vec![7], "a self-parenting entry cannot loop");
    assert_eq!(chain_of(&parents, 12345), vec![12345], "an unknown pid is only itself");
    let seen = fake("ConsoleWindowClass", chain_of(&parents, 100));
    assert!(attributed(&seen, &[50], "") && attributed(&seen, &[4], "") && attributed(&seen, &[100], ""));
    assert!(!attributed(&seen, &[999], ""));
    // A long line of ancestors is cut off.
    let line: Vec<(u32, u32)> = (1..100).map(|n| (n, n + 1)).collect();
    assert_eq!(chain_of(&line, 1).len(), 33);
}

#[test]
fn attribution_survives_a_process_that_already_exited() {
    let ours = 77;
    let exe = our_exe(Some(r"C:\Apps\STA\sta.exe"));
    // A helper that flashed a console and exited: no process entry is left anywhere, but the
    // chain was resolved when it was shown, so the flash is still ours.
    assert!(attributed(&fake("ConsoleWindowClass", vec![424_242, ours]), &[ours], &exe));
    assert!(!attributed(&fake("ConsoleWindowClass", vec![424_242, 424_243]), &[ours], &exe));
    // Windows 11 hands the console to Windows Terminal, whose process descends from svchost:
    // the only link back to us is the title, which is the client's image path.
    let mut hosted = fake("CASCADIA_HOSTING_WINDOW_CLASS", vec![424_242]);
    assert!(!attributed(&hosted, &[ours], &exe));
    hosted.title = r"C:\Apps\STA\sta.exe".to_uppercase();
    assert!(attributed(&hosted, &[ours], &exe), "a hosted console titled with our own image path is ours");
    assert!(!attributed(&hosted, &[ours], &our_exe(None)));
}

#[test]
fn a_seen_console_window_is_reported_with_its_attribution() {
    let ours = 77;
    let parents = [(77, 5)];
    assert_eq!(chain_of(&parents, ours).first(), Some(&ours), "a chain starts with the process itself");
    let mut watch = Watch::new();
    reset(&mut watch);
    record(&mut watch, 4242, ours, "ConsoleWindowClass".into(), "conhost".into(), 1, &parents);
    record(&mut watch, 4243, ours, "PseudoConsoleWindow".into(), String::new(), 2, &parents);
    record(&mut watch, 4244, ours, "Chrome_WidgetWin_1".into(), "sta".into(), 3, &parents);
    let taken = snapshot(&watch, &[ours], "", 9);
    assert_eq!(taken.seen.len(), 2, "both console windows, not the browser window");
    assert_eq!(taken.ours.len(), 2, "both are ours");
    assert_eq!(taken.seen[0].seen.chain[0], ours, "the ancestry is resolved when the window is recorded");
    assert!(taken.seen[0].user_visible, "a conhost window is one the user sees");
    assert!(!taken.seen[1].user_visible, "a pseudo console's host window is not");
    assert!(taken.seen[0].ours && !taken.seen[0].hosted && taken.seen[1].hosted);
    assert_eq!((taken.watching, taken.at), (false, 9));
    reset(&mut watch);
    assert_eq!(snapshot(&watch, &[ours], "", 9).seen.len(), 0);
}

#[test]
fn the_desktops_console_windows_are_listable() {
    let window = |class: &str, visible: bool| Window { hwnd: 1, pid: 2, class: class.to_string(), title: String::new(), visible };
    let desktop = vec![window("ConsoleWindowClass", true), window("Shell_TrayWnd", true), window("ConsoleWindowClass", false), window("PseudoConsoleWindow", true)];
    assert_eq!(current(&desktop), vec![0, 3]);
    assert_eq!(current(&vec![]).len(), 0);
}

#[test]
fn the_oldest_window_gives_way() {
    let mut watch = Watch::new();
    for n in 0..KEPT + 3 {
        record(&mut watch, n as isize, 1, "ConsoleWindowClass".into(), String::new(), n as u64, &[]);
    }
    let taken = snapshot(&watch, &[], "", 0);
    assert_eq!((taken.seen.len(), taken.seen[0].seen.hwnd), (KEPT, 3));
}

#[test]
fn the_hook_is_made_once() {
    let mut watch = Watch::new();
    assert!(!installed(&watch));
    assert!(install(&mut watch, 5) && !install(&mut watch, 6));
    assert!(installed(&watch));
    assert_eq!((uninstall(&mut watch), uninstall(&mut watch)), (Some(5), None));
}
