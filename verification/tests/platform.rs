use sta::platform::fallback;
use sta::platform::mac_bundle::{framework_dir, helper_exe, library_path, load_framework};
use sta::platform::win::{describe_foreground, picker_options, was_cancelled};
use sta::platform::mac_bundle::{app_plist, build, copy_due, helper_suffix, install_framework, link_due, Found, Install, Removed, Stamp, Step, BUNDLE_ID, HELPERS};
use sta::platform::win::{
    apply_window_chrome, cursor_sample, from_wide, is_extended, key_flags, mouse_lparam, msi_install_dir, os_ui_languages, pick_folder, set_clipboard_text,
    wide, Clip, Picked, Poll, CLIPBOARD_TRIES,
};
use sta::platform::hidden_windows::{Create, Creation, Desktop, Extra, Kind, RawWindow, Registry, Show};
use sta::platform::{hidden_windows, mac, os_ui_locale, unique_path, win};
use sta::rect::Edges;
use std::collections::{HashMap, HashSet};
use std::path::Path;

#[test]
fn show_in_folder_rejects_missing_paths() {
    let path = r"C:\definitely\not\here\sta-missing.txt";
    assert!(!win::show_in_folder(Path::new(path).exists(), 0));
    assert!(!fallback::show_in_folder(path));
    assert!(win::show_in_folder(Path::new("/").exists(), 0) && !win::show_in_folder(Path::new("/").exists(), -1));
}

/// The languages as the system lists them: each one ended by a zero, and one more zero.
fn language_buffer(names: &[&str]) -> Vec<u16> {
    let mut buffer = Vec::new();
    for name in names {
        buffer.extend(wide(name));
    }
    buffer.push(0);
    buffer
}

#[test]
fn ui_languages_look_like_bcp47() {
    let langs = os_ui_languages(&language_buffer(&["en-US", "de-DE"]));
    assert!(!langs.is_empty());
    for l in &langs {
        assert!(l.len() >= 2 && l.chars().all(|c| c.is_ascii_alphanumeric() || c == '-'), "{l}");
    }
    assert_eq!(os_ui_locale(&langs), langs[0]);
    assert_eq!(langs, vec!["en-US".to_string(), "de-DE".to_string()]);
    assert_eq!(os_ui_locale(&fallback::os_ui_languages()), "");
    assert_eq!(os_ui_languages(&[]).len(), 0);
}

#[test]
fn unique_path_numbers_like_chrome() {
    let mut existing: Vec<String> = Vec::new();
    assert_eq!(unique_path(&existing, "report.pdf"), "report.pdf");
    existing.push("report.pdf".to_string());
    assert_eq!(unique_path(&existing, "report.pdf"), "report (1).pdf");
    existing.push("report (1).pdf".to_string());
    assert_eq!(unique_path(&existing, "report.pdf"), "report (2).pdf");

    existing.push("archive.tar.gz".to_string());
    assert_eq!(unique_path(&existing, "archive.tar.gz"), "archive (1).tar.gz");
    existing.push("README".to_string());
    assert_eq!(unique_path(&existing, "README"), "README (1)");
    existing.push(".env".to_string());
    assert_eq!(unique_path(&existing, ".env"), ".env (1)");
    existing.push("my.file.name.txt".to_string());
    assert_eq!(unique_path(&existing, "my.file.name.txt"), "my.file.name (1).txt");
    // Capitals do not hide an extension of two parts, and the name keeps them.
    existing.push("Big.TAR.GZ".to_string());
    assert_eq!(unique_path(&existing, "Big.TAR.GZ"), "Big (1).TAR.GZ");
    // An extension alone is no extension of two parts.
    existing.push(".tar.gz".to_string());
    assert_eq!(unique_path(&existing, ".tar.gz"), ".tar (1).gz");
}

#[test]
fn the_plist_names_the_executable_and_hides_helpers() {
    let app = app_plist("sta", BUNDLE_ID, false, "1.2.3");
    assert!(app.contains("<key>CFBundleExecutable</key>\n\t<string>sta</string>"), "{app}");
    assert!(!app.contains("LSUIElement"));
    assert!(app.contains("NSCameraUsageDescription"));
    assert!(app.contains("<key>CFBundleVersion</key>\n\t<string>1.2.3</string>"));
    let helper = app_plist("sta Helper (GPU)", "com.p-asta.sta.helper.gpu", true, "1.2.3");
    assert!(helper.contains("<key>LSUIElement</key>\n\t<string>1</string>"), "{helper}");
    assert!(!helper.contains("NSCameraUsageDescription"));
    assert!(helper.starts_with("<?xml version=\"1.0\" encoding=\"UTF-8\"?>\n") && helper.ends_with("</dict>\n</plist>\n"));
}

#[test]
fn a_bundle_is_assembled_and_refreshed_in_place() {
    let (app, steps) = build("/root/sta", "/root", false, "1.2.3");
    assert_eq!(app, "/root/sta.app");
    let mut written = Vec::new();
    for step in &steps {
        match step {
            Step::CopyProgram { from, to } => {
                assert_eq!(from, "/root/sta");
                written.push(to.clone());
            }
            Step::Write { path, .. } => written.push(path.clone()),
            Step::LinkHelper { from, to } => {
                assert_eq!(from, "/root/sta.app/Contents/MacOS/sta");
                written.push(to.clone());
            }
            Step::CopyHelper { .. } => panic!("helpers are links while developing"),
            Step::CreateDir { .. } | Step::InstallFramework { .. } => {}
        }
    }
    assert!(written.contains(&"/root/sta.app/Contents/MacOS/sta".to_string()));
    assert!(written.contains(&"/root/sta.app/Contents/Info.plist".to_string()));
    for i in 0..HELPERS {
        let name = format!("sta Helper{}", helper_suffix(i));
        assert!(written.contains(&format!("/root/sta.app/Contents/Frameworks/{name}.app/Contents/MacOS/{name}")), "{name}");
    }
    // Same binary: nothing is rewritten.
    let stamp = Stamp { size: 15, modified: Some(7) };
    assert!(!copy_due(stamp, Some(stamp)));
    assert!(copy_due(Stamp { size: 16, ..stamp }, Some(stamp)) && copy_due(Stamp { modified: Some(8), ..stamp }, Some(stamp)) && copy_due(stamp, None));
    assert!(link_due(true, true) && link_due(false, false) && !link_due(false, true), "the helper links follow the binary");
    // One that stands alone copies.
    let (_, alone) = build("/root/sta", "/out/", true, "1.2.3");
    assert_eq!(alone.iter().filter(|s| matches!(s, Step::CopyHelper { .. })).count(), 5);
    assert!(matches!(alone.last(), Some(Step::InstallFramework { copy: true, target }) if target == "/out/sta.app/Contents/Frameworks/Chromium Embedded Framework.framework"));
}

#[test]
fn a_framework_of_the_wrong_kind_is_replaced() {
    let none = Found { is_link: false, leads_to_source: false, has_resources: false, target_exists: false, source_exists: true };
    assert_eq!(install_framework(none, false), Install::Link { first: Removed::Nothing });
    assert_eq!(install_framework(none, true), Install::Copy { first: Removed::Nothing });
    let link = Found { is_link: true, leads_to_source: true, target_exists: true, has_resources: true, ..none };
    assert_eq!(install_framework(link, false), Install::Keep);
    assert_eq!(install_framework(link, true), Install::Copy { first: Removed::Link });
    let copied = Found { is_link: false, leads_to_source: false, ..link };
    assert_eq!(install_framework(copied, true), Install::Keep);
    assert_eq!(install_framework(copied, false), Install::Link { first: Removed::Directory });
    assert_eq!(install_framework(Found { source_exists: false, ..none }, true), Install::Missing);
    assert_eq!(install_framework(Found { source_exists: false, ..copied }, false), Install::Keep);
}

#[test]
fn texts_survive_utf16() {
    for text in ["", "sta", "Größe", "러스트", "a😀b"] {
        let units = wide(text);
        assert_eq!(units.last(), Some(&0));
        assert_eq!(from_wide(&units[..units.len() - 1]), text);
        assert_eq!(units[..units.len() - 1].to_vec(), text.encode_utf16().collect::<Vec<u16>>());
    }
    let broken = [0x61u16, 0xD800, 0x62, 0xDC00];
    assert_eq!(from_wide(&broken), String::from_utf16_lossy(&broken));
    assert_eq!(from_wide(&[0xD800]), "\u{FFFD}");
    assert_eq!(msi_install_dir(true, &wide("C:\\sta")), Some("C:\\sta".to_string()));
    assert_eq!(msi_install_dir(true, &wide("")), None);
    assert_eq!(msi_install_dir(false, &wide("C:\\sta")), None);
}

#[test]
fn the_clipboard_is_tried_and_given_back() {
    // Everything works.
    let mut step = Clip::Open { left: CLIPBOARD_TRIES };
    let mut steps = 0;
    while !matches!(step, Clip::Done { .. }) {
        step = set_clipboard_text(step, true);
        steps += 1;
    }
    assert_eq!((step, steps), (Clip::Done { ok: true }, 6));
    // Nothing does: it is tried ten times.
    let mut step = Clip::Open { left: CLIPBOARD_TRIES };
    let mut tries = 0;
    while matches!(step, Clip::Open { .. }) {
        step = set_clipboard_text(step, false);
        tries += 1;
    }
    assert_eq!((step, tries), (Clip::Done { ok: false }, 10));
    // The text is not taken: the memory is freed, and the clipboard closed.
    assert_eq!(set_clipboard_text(Clip::Place, false), Clip::Free);
    assert_eq!(set_clipboard_text(Clip::Free, true), Clip::Close { ok: false });
}

#[test]
fn a_picked_folder_is_named() {
    let picked = |created: bool, shown: i32, name: Option<&str>| pick_folder(&Picked { created, shown, name: name.map(wide) });
    assert_eq!(picked(true, 0, Some("C:\\tmp")), Some("C:\\tmp".to_string()));
    assert_eq!(picked(true, 0, Some("")), None);
    assert_eq!(picked(true, 0, None), None);
    assert_eq!(picked(true, -1, Some("C:\\tmp")), None);
    assert_eq!(picked(false, 0, Some("C:\\tmp")), None);
}

#[test]
fn the_cursor_is_seen_through_owned_popups() {
    let mut owners: HashMap<isize, isize> = HashMap::new();
    owners.insert(30, 20);
    owners.insert(20, 10);
    let desk = Desktop { owners, windows: HashSet::new(), looks: HashMap::new() };
    let poll = |root: isize| Poll { cursor: Some((105, 207)), client: Some((100, 200)), root, left: 0x8000, right: 0, middle: 1 };
    let over = cursor_sample(10, &poll(10), &desk).unwrap();
    assert!(over.over_window && !over.owned_popup && over.buttons && over.clicked);
    assert_eq!((over.x, over.y, over.client_left, over.client_top), (105, 207, 100, 200));
    assert!(cursor_sample(10, &poll(30), &desk).unwrap().owned_popup);
    assert!(!cursor_sample(10, &poll(40), &desk).unwrap().owned_popup);
    assert!(cursor_sample(0, &poll(10), &desk).is_none());
    assert!(cursor_sample(10, &Poll { cursor: None, ..poll(10) }, &desk).is_none());
    assert!(fallback::cursor_sample(10).is_none());
}

#[test]
fn input_is_packed_as_the_system_takes_it() {
    assert_eq!(mouse_lparam(3, 4), 0x0004_0003);
    assert_eq!(mouse_lparam(-1, -2), 0xFFFE_FFFF);
    assert_eq!(mouse_lparam(0x1_0005, i32::MIN), 0x0000_0005);
    assert_eq!((key_flags(0x41, false), key_flags(0x41, true), key_flags(0x25, false), key_flags(0x25, true)), (0, 2, 1, 3));
    assert!(is_extended(0x2E) && is_extended(0x28) && !is_extended(0x29));
    assert_eq!(apply_window_chrome(0, true).len(), 0);
    let chrome = apply_window_chrome(5, true);
    assert_eq!((chrome[0].attribute, chrome[0].value, chrome[1].attribute, chrome[1].value), (20, 1, 33, 2));
}

#[test]
fn a_hidden_window_is_refused_and_its_second_dialog_cloaked() {
    let mut owners: HashMap<isize, isize> = HashMap::new();
    owners.insert(21, 20);
    owners.insert(22, 20);
    owners.insert(11, 10);
    let windows: HashSet<isize> = [10, 11, 20, 21, 22].into_iter().collect();
    let desk = Desktop { owners, windows, looks: HashMap::new() };
    let mut state = Registry::new();
    assert!(hidden_windows::install(&mut state, 10));
    assert!(!hidden_windows::hide_root(&mut state, 10), "never the main window");
    assert!(hidden_windows::hide_root(&mut state, 20));
    assert!(hidden_windows::on_activate(&mut state, &desk, 20, 1));
    assert!(hidden_windows::on_activate(&mut state, &desk, 21, 2));
    assert!(!hidden_windows::on_activate(&mut state, &desk, 11, 3));
    hidden_windows::allow_dialogs(&mut state, &desk, 20, true, 4);
    let window = |hwnd: isize| Creation { hwnd, style: 0x80, ex_style: 0, owner: 20 };
    assert_eq!(hidden_windows::on_create(&mut state, &desk, window(21), 5), Create::Dialog);
    assert_eq!(hidden_windows::on_create(&mut state, &desk, window(22), 6), Create::Owned { extra: true });
    hidden_windows::on_cloaked_at_create(&mut state, &desk, window(22), true, false, true, 6);
    assert_eq!((state.stats.cloaked_at_create, state.stats.extra_dialogs_cloaked), (1, 1));
    assert!(!hidden_windows::on_activate(&mut state, &desk, 21, 7));
    assert!(hidden_windows::on_activate(&mut state, &desk, 22, 8));
    assert_eq!(hidden_windows::on_show(&mut state, &desk, 11, 11, false, 9), Show::StaOwned);
    assert_eq!(hidden_windows::show_root(&mut state, &desk, 20), vec![20, 22], "the root, and what it owns");
    assert!(!hidden_windows::is_hidden(&mut state, &desk, 20, 11));
}

#[test]
fn the_mac_side_decides() {
    let mut quitting = mac::Quitting { handler: false };
    assert_eq!(mac::should_terminate(&quitting), mac::TerminateReply::Now);
    mac::set_quit_handler(&mut quitting);
    assert_eq!(mac::should_terminate(&quitting), mac::TerminateReply::Cancel);
    let menus = mac::install_main_menu();
    assert_eq!(menus.iter().map(|m| m.title).collect::<Vec<_>>(), ["sta", "Edit", "Window"]);
    assert_eq!(menus.iter().map(|m| m.entries.len()).collect::<Vec<_>>(), [7, 7, 2]);
    assert!(mac::system_dark_mode(Some("DARK")) && !mac::system_dark_mode(Some("Light")) && !mac::system_dark_mode(None));
    let mut buttons = mac::Buttons { held: false };
    assert_eq!([true, true, false, true].map(|held| mac::clicked(&mut buttons, held)), [true, false, false, true]);
    assert_eq!(mac::window_under(5, 5, None), (true, false));
    assert_eq!(mac::window_under(6, 5, Some(&vec![7, 5])), (true, true));
    assert_eq!(mac::window_under(6, 5, Some(&vec![7])), (false, false));
    assert_eq!(mac::sha256_length(3), Some(3));
}

#[test]
fn small_answers_of_the_platforms() {
    assert!(mac::setting_changed(&mac::SettingObserver { registered: true, callback: true }));
    assert!(mac::request_attention(true, false) && !mac::request_attention(true, true) && !mac::request_attention(false, false));
    assert!(mac::url_for(true) == mac::Opened::File && mac::url_for(false) == mac::Opened::Address);
    assert_eq!(mac::run_folder_panel(mac::MODAL_RESPONSE_OK, Some("/tmp")).as_deref(), Some("/tmp"));
    assert_eq!(mac::run_folder_panel(0, Some("/tmp")), None);
    assert_eq!(picker_options(1), 0x861);
    assert!(was_cancelled(0x8007_04C7u32 as i32) && !was_cancelled(0));
    assert_eq!(describe_foreground(None), "none");
    assert_eq!(describe_foreground(Some((4, "Cls", "a\"b"))), "pid 4 class Cls title \"a\\\"b\"");
    assert_eq!(framework_dir(Some("/a/sta.app"), false, None), None);
    assert_eq!(framework_dir(Some("/a/sta.app"), true, Some("/real")).as_deref(), Some("/real"));
    assert!(helper_exe(Some("/a/sta.app"), true).is_some_and(|p| p.starts_with("/a/sta.app/")) && helper_exe(None, true).is_none());
    assert!(library_path(Some("/fw")).is_ok_and(|p| p.starts_with("/fw/")));
    assert_eq!(library_path(None), Err("the CEF framework is missing from Contents/Frameworks".to_string()));
    assert_eq!((load_framework("/l", 1), load_framework("/l", 0)), (Ok(()), Err("cannot load /l".to_string())));
}

#[test]
fn the_foreground_goes_back_to_the_main_window() {
    let mut registry = Registry::new();
    hidden_windows::install(&mut registry, 1);
    let desktop = Desktop { owners: HashMap::from([(6, 5)]), windows: HashSet::from([1, 5, 6]), looks: HashMap::new() };
    assert!(hidden_windows::hide_root(&mut registry, 5));
    assert!(hidden_windows::on_foreground(&mut registry, &desktop, 5, 0), "a hidden window got it");
    assert!(!hidden_windows::on_foreground(&mut registry, &desktop, 1, 0));
}

#[test]
fn a_click_is_reported_once_per_press() {
    let mut buttons = mac::Buttons { held: false };
    let samples = [true, false, true].map(|held| mac::cursor_sample(&mut buttons, 4, 5, (1, 2), (true, false), held));
    assert_eq!(samples.map(|s| (s.buttons, s.clicked)), [(true, true), (false, false), (true, true)]);
    assert_eq!((samples[0].x, samples[0].client_top, samples[0].over_window, samples[0].owned_popup), (4, 2, true, false));
}

#[test]
fn a_name_is_found_however_many_exist() {
    let mut existing: Vec<String> = vec!["a.txt".to_string()];
    existing.extend((1..=10_050).map(|n| format!("a ({n}).txt")));
    assert_eq!(unique_path(&existing, "a.txt"), "a (10051).txt");
    assert_eq!(unique_path(&existing, "b.txt"), "b.txt");
}

#[test]
fn the_log_says_what_a_window_looked_like() {
    let raw = RawWindow {
        class: "Chrome_WidgetWin_1".to_string(),
        title: "Remove?".to_string(),
        style: 0x16CF_0000,
        ex_style: 0x100,
        owner: 5,
        visible: true,
        cloaked: false,
        edges: Edges { left: 10, top: 20, right: 110, bottom: 70 },
    };
    let desk = Desktop {
        owners: HashMap::from([(6, 5)]),
        windows: HashSet::from([5, 6]),
        looks: HashMap::from([(6, hidden_windows::describe(6, raw))]),
    };
    let mut state = Registry::new();
    assert!(hidden_windows::install(&mut state, 1));
    hidden_windows::on_installed(&mut state, true);
    assert!(!hidden_windows::install(&mut state, 0), "only once");
    assert!(hidden_windows::hide_root(&mut state, 5) && hidden_windows::hide_root(&mut state, 5));
    hidden_windows::on_root_cloaked(&mut state, &desk, 5, true, 1);
    assert_eq!(
        hidden_windows::on_create(&mut state, &desk, Creation { hwnd: 6, style: 0x80, ex_style: 0, owner: 5 }, 2),
        Create::Owned { extra: false },
    );
    hidden_windows::on_cloaked_at_create(&mut state, &desk, Creation { hwnd: 6, style: 0x80, ex_style: 0, owner: 5 }, false, false, false, 3);
    assert_eq!(state.stats.cloak_at_create_failed, 1);
    assert_eq!(hidden_windows::on_show(&mut state, &desk, 6, 6, false, 4), Show::Cloak);
    hidden_windows::on_cloaked_on_show(&mut state, &desk, 6, 5);
    let seen = hidden_windows::snapshot(&state, &desk);
    assert!(seen.installed);
    assert_eq!((seen.hidden.len(), seen.owned.len()), (1, 1), "nothing is listed twice");
    assert_eq!((seen.hidden[0].hwnd, seen.hidden[0].class.as_str(), seen.hidden[0].style.as_str()), (5, "", "0x0"));
    assert_eq!((seen.owned[0].title.as_str(), seen.owned[0].style.as_str(), seen.owned[0].rect), ("Remove?", "0x16cf0000", [10, 20, 100, 50]));
    assert_eq!(seen.recent.iter().map(|e| (e.time_ms, e.kind)).collect::<Vec<_>>(), [(1, Kind::Hidden), (3, Kind::OwnedCreated), (5, Kind::CloakedOnShow)]);
    assert!(matches!(seen.recent[0].extra, Extra::Cloaked { ok: true }));
    assert!(matches!(&seen.recent[1].extra, Extra::Created { owner: 5, style, ex_style } if style == "0x80" && ex_style == "0x0"));
    assert_eq!(seen.recent[1].window.title, "Remove?");
    for time in 0..60 {
        hidden_windows::on_activate(&mut state, &desk, 6, time);
    }
    assert_eq!((state.log.len(), state.log[0].time_ms), (48, 12));
    hidden_windows::uninstall(&mut state);
    assert!(!hidden_windows::snapshot(&state, &desk).installed);
}
