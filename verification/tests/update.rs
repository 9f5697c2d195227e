use sta::update::{
    on_helper_failed, on_write_failed, unpacked_name,    on_copy_failed, CopyFailure, CopyStep, Copying, after_failed_copy, apply_from_command_line, archive_name, check_after_startup, exe_in, install_now, is_finished, on_archive, on_archive_opened,
    on_download_data, on_download_progress, on_manifest, on_request_complete, on_request_started, on_timeout, on_unpacked, parse_u32, payload_or_error,
    payload_root, start_check, start_download, updates_allowed, Apply, Asset, Candidate, Effect, Install, Kind, Limits, Opened, Piece, Release, Started, Status,
    System, Update, APPLY_FLAG, CHECK_DELAY_MS, DOWNLOAD_TIMEOUT_MS, MANIFEST_TIMEOUT_MS,
};

/// The directories of an unpacked release, level by level, below one that holds only a wrapper.
fn levels(paths: &[(&str, bool)]) -> Vec<Vec<Candidate>> {
    paths.iter().map(|(path, has_exe)| vec![Candidate { path: path.to_string(), has_exe: *has_exe }]).collect()
}

/// What staging an archive has to find in an unpacked release: the browser is one directory deep
/// (`sta-<version>-<platform>/`), and on macOS one more (`sta.app/Contents/MacOS/`).
#[test]
fn the_payload_is_found_inside_the_archive_wrapper() {
    for mac in [false, true] {
        let root = "update";
        let wrapper = "update/sta-9.9.9-platform";
        let payload = if mac { "update/sta-9.9.9-platform/sta.app" } else { wrapper };
        assert_eq!(exe_in(if mac { System::Mac } else { System::Other }).last(), Some(&"sta"));

        let from_root = if mac { levels(&[(root, false), (wrapper, false), (payload, true)]) } else { levels(&[(root, false), (payload, true)]) };
        let from_wrapper = if mac { levels(&[(wrapper, false), (payload, true)]) } else { levels(&[(payload, true)]) };
        assert_eq!(payload_root(&from_root), Some(payload.to_string()));
        assert_eq!(payload_root(&from_wrapper), Some(payload.to_string()));
        // A directory with nothing that looks like a browser in it.
        let empty = levels(&[(root, false), (wrapper, false), (payload, false)]);
        assert_eq!(payload_root(&empty), None);
    }
    // Four levels down is too deep.
    assert_eq!(payload_root(&levels(&[("a", false), ("a/b", false), ("a/b/c", false), ("a/b/c/d", true)])), None);
}

const LIMITS: Limits = Limits { manifest: 100, archive: 1000 };

fn release(newer: bool) -> Release {
    let asset = Asset { url: "https://r/sta.zip".to_string(), sha256: "abc".to_string(), size: 6 };
    Release { version: "9.9.9".to_string(), notes: "new".to_string(), newer, asset: Some(asset) }
}

fn failure(out: &[Effect]) -> Option<&str> {
    match out.last() {
        Some(Effect::Report(Status::Failed { message })) => Some(message.as_str()),
        _ => None,
    }
}

/// An update whose download was requested.
fn downloading() -> (Update, u64) {
    let mut state = Update::new();
    on_manifest(&mut state, Ok(release(true)), 5);
    assert!(matches!(&start_download(&mut state, true)[..], [Effect::OpenArchive { version }] if version == "9.9.9"));
    let out = on_archive_opened(&mut state, Opened::Ready, 0);
    let Some(Effect::Request { id, kind: Kind::Archive, url, timeout_ms: DOWNLOAD_TIMEOUT_MS }) = out.last() else { panic!() };
    assert_eq!(url, "https://r/sta.zip");
    (state, *id)
}

#[test]
fn a_check_reads_the_manifest() {
    let mut state = Update::new();
    assert_eq!(check_after_startup(&mut state, true), Some(CHECK_DELAY_MS));
    assert_eq!(check_after_startup(&mut state, true), None, "once");
    assert!(start_check(&mut state, false, "https://m").is_empty());
    let out = start_check(&mut state, true, "https://m");
    let [Effect::Report(Status::Checking), Effect::Request { id, kind: Kind::Manifest, url, timeout_ms: MANIFEST_TIMEOUT_MS }] = &out[..] else { panic!() };
    let id = *id;
    assert_eq!(url, "https://m");
    assert!(start_check(&mut state, true, "https://m").is_empty(), "one at a time");
    on_request_started(&mut state, id, Kind::Manifest, Started::Yes, MANIFEST_TIMEOUT_MS);
    let (piece, out) = on_download_data(&mut state, id, b"{}", LIMITS);
    assert!(matches!(piece, Piece::Done) && out.is_empty());
    let out = on_request_complete(&mut state, id, 200);
    assert!(matches!(out.last(), Some(Effect::ReadManifest { body }) if body == b"{}"));
    assert!(matches!(on_manifest(&mut state, Ok(release(false)), 77)[..], [Effect::Report(Status::UpToDate { checked_at: 77 })]));
    assert!(matches!(&on_manifest(&mut state, Ok(release(true)), 77)[..], [Effect::Report(Status::Available { version, size: 6, .. })] if version == "9.9.9"));
    assert_eq!(failure(&on_manifest(&mut state, Err("bad".to_string()), 77)), Some("bad"));
}

#[test]
fn a_manifest_can_be_too_large() {
    let mut state = Update::new();
    start_check(&mut state, true, "https://m");
    let id = state.pending.as_ref().unwrap().id;
    let (_, out) = on_download_data(&mut state, id, &[0u8; 101], LIMITS);
    assert_eq!(failure(&out), Some("the manifest is too large"));
}

#[test]
fn only_a_matching_archive_is_unpacked() {
    let (mut state, id) = downloading();
    let (piece, _) = on_download_data(&mut state, id, b"sixsix", LIMITS);
    assert!(matches!(piece, Piece::Write));
    let out = on_request_complete(&mut state, id, 200);
    assert!(matches!(out.last(), Some(Effect::CheckArchive { expected, received: 6, .. }) if expected == "abc"));
    let refused = on_archive(&mut state, "9.9.9".to_string(), "xyz", "abc", 6);
    assert!(matches!(refused.first(), Some(Effect::RemoveArchive { .. })));
    assert_eq!(failure(&refused), Some("the download of 9.9.9 does not match the release (6 bytes, sha256 xyz)"));
    assert!(matches!(&on_archive(&mut state, "9.9.9".to_string(), "abc", "abc", 6)[..], [Effect::Unpack { version }] if version == "9.9.9"));
    let out = on_unpacked(&mut state, "9.9.9".to_string(), Ok("dir".to_string()));
    assert!(matches!(out.last(), Some(Effect::Report(Status::Ready { version })) if version == "9.9.9"));
    assert_eq!(state.staged.as_deref(), Some("dir"));
    let bad = on_unpacked(&mut state, "9.9.9".to_string(), Err("full".to_string()));
    assert_eq!(failure(&bad), Some("cannot unpack 9.9.9: full"));
    assert!(matches!(bad[..], [Effect::RemoveUnpacked { .. }, Effect::RemoveArchive { .. }, _]));
}

#[test]
fn a_download_of_the_wrong_size_is_deleted() {
    let (mut state, id) = downloading();
    on_download_data(&mut state, id, b"five5", LIMITS);
    let out = on_request_complete(&mut state, id, 200);
    assert!(out.iter().any(|e| matches!(e, Effect::RemoveArchive { .. })));
    assert_eq!(failure(&out), Some("the download is 5 bytes, the release says 6"));

    // What the transfer announces is reported, and changes nothing about what the release says.
    let (mut state, id) = downloading();
    assert!(matches!(&on_download_progress(&mut state, id, 2, 5, 1000)[..], [Effect::Report(Status::Downloading { total: 5, .. })]));
    on_download_data(&mut state, id, b"five5", LIMITS);
    assert_eq!(failure(&on_request_complete(&mut state, id, 200)), Some("the download is 5 bytes, the release says 6"));

    let (mut state, id) = downloading();
    let (piece, out) = on_download_data(&mut state, id, &[0u8; 1001], LIMITS);
    assert!(matches!(piece, Piece::Done));
    assert_eq!(failure(&out), Some("the download is larger than any release"));

    let (mut state, id) = downloading();
    let out = on_request_complete(&mut state, id, 503);
    assert!(failure(&out).is_some_and(|m| m.contains("503")));
    assert!(out.iter().any(|e| matches!(e, Effect::RemoveArchive { .. })));
}

#[test]
fn a_download_needs_a_check() {
    let mut state = Update::new();
    assert_eq!(failure(&start_download(&mut state, true)), Some("nothing to download: check for an update first"));
    on_manifest(&mut state, Ok(release(true)), 5);
    let out = on_archive_opened(&mut state, Opened::NoDirectory("denied".to_string()), 0);
    assert_eq!(failure(&out), Some("cannot create the staging directory: denied"));
    let out = on_archive_opened(&mut state, Opened::NoFile { path: "p".to_string(), error: "denied".to_string() }, 0);
    assert_eq!(failure(&out), Some("cannot write p: denied"));
    let (mut state, id) = downloading();
    assert!(failure(&on_request_started(&mut state, id, Kind::Archive, Started::NoRequest, 1)).is_some());
    let (mut state, id) = downloading();
    assert!(failure(&on_timeout(&mut state, id, Kind::Archive)).is_some());
    assert!(on_timeout(&mut state, id, Kind::Archive).is_empty());
}

#[test]
fn progress_is_reported_now_and_then() {
    let (mut state, id) = downloading();
    assert!(on_download_progress(&mut state, id, 1, 6, 100).is_empty());
    assert!(matches!(&on_download_progress(&mut state, id, 3, 6, 1000)[..], [Effect::Report(Status::Downloading { received: 3, total: 6, .. })]));
    assert!(on_download_progress(&mut state, id, 4, 6, 1100).is_empty());
}

#[test]
fn a_staged_build_replaces_the_browser() {
    let mut state = Update::new();
    assert!(matches!(install_now(&mut state, Some("t".to_string()), true, "sta", 4), Install::NotStaged));
    state.staged = Some("s".to_string());
    let Install::Failed(out) = install_now(&mut state, None, true, "sta", 4) else { panic!() };
    assert_eq!(failure(&out), Some("cannot find the directory sta runs from"));
    let Install::Failed(out) = install_now(&mut state, Some("t".to_string()), false, "sta", 4) else { panic!() };
    assert_eq!(failure(&out), Some("the staged build has no sta"));
    let Install::Start { source, mut arguments } = install_now(&mut state, Some("t".to_string()), true, "sta", 42) else { panic!() };
    assert_eq!((source.as_str(), arguments[0].as_str()), ("s", APPLY_FLAG));
    // What the helper is started with is what it reads.
    arguments.insert(0, "sta".to_string());
    let Apply::Replace { source, target, pid } = apply_from_command_line(&arguments) else { panic!() };
    assert_eq!((source.as_str(), target.as_str(), pid), ("s", "t", 42));
    assert!(matches!(apply_from_command_line(&vec!["sta".to_string()]), Apply::Browser));
    assert!(matches!(apply_from_command_line(&vec![APPLY_FLAG.to_string()]), Apply::Incomplete));
}

#[test]
fn small_rules_of_updates() {
    assert!(updates_allowed(None, None) && !updates_allowed(Some("1"), None) && !updates_allowed(None, Some("1")));
    assert_eq!((parse_u32("42"), parse_u32("+42"), parse_u32("4294967296"), parse_u32(""), parse_u32("4x")), (Some(42), Some(42), None, None, None));
    let retry = after_failed_copy(0);
    assert!((retry.wait_ms, retry.again) == (100, true) && !after_failed_copy(9).again && after_failed_copy(9).wait_ms == 1000);
    assert_eq!(payload_or_error(Some("r".to_string()), "sta"), Ok("r".to_string()));
    assert!(payload_or_error(None, "sta").is_err_and(|e| e.contains("sta")));
    assert!(archive_name("1.2.3").contains("1.2.3") && !is_finished("profile"));
}

#[test]
fn a_build_is_copied_directory_by_directory() {
    let mut copying = Copying::new();
    assert_eq!(copying.next_dir().as_deref(), Some(""));
    assert!(matches!(copying.on_entry("locales".to_string(), true), CopyStep::MakeDir { path } if path == "locales"));
    assert!(matches!(copying.on_entry("sta.exe".to_string(), false), CopyStep::CopyFile { path } if path == "sta.exe"));
    copying.on_copied();
    assert_eq!(copying.next_dir().as_deref(), Some("locales"));
    assert_eq!((copying.next_dir(), copying.files), (None, 1));
    assert!(matches!(on_copy_failed("d", 0, "locked"), CopyFailure::Again { wait_ms: 100 }));
    assert!(matches!(on_copy_failed("d", 9, "locked"), CopyFailure::Off { wait_ms: 1000, message } if message == "d: locked"));
}

#[test]
fn writing_and_starting_can_fail() {
    let (mut state, id) = downloading();
    assert!(on_write_failed(&mut state, id + 1, "full").is_empty());
    assert_eq!(failure(&on_write_failed(&mut state, id, "full")), Some("cannot write the download: full"));
    assert_eq!(failure(&on_helper_failed(&mut state, "denied")), Some("cannot start the apply helper: denied"));
    assert_eq!((unpacked_name("1.2"), archive_name("1.2")), ("sta-1.2".to_string(), "sta-1.2.zip".to_string()));
}
