use sta::scheme::{
    asset_answer, cancel, create, error_response, extension_icon_path, host_of, icon_answer, placeholder_asset, read, resolve_asset, response_headers,
    scheme_options, security_headers, skip, Lookup,
};

#[test]
fn maps_urls() {
    assert_eq!(resolve_asset("sta://sidebar/"), Ok("sidebar/index.html".into()));
    assert_eq!(resolve_asset("sta://sidebar"), Ok("sidebar/index.html".into()));
    assert_eq!(resolve_asset("sta://boosts/?id=5#x"), Ok("boosts/index.html".into()));
    assert_eq!(resolve_asset("sta://settings/general"), Ok("settings/index.html".into()));
    assert_eq!(resolve_asset("sta://sidebar/sidebar.js?v=1"), Ok("sidebar/sidebar.js".into()));
    assert_eq!(resolve_asset("sta://topbar/common/ipc.js"), Ok("common/ipc.js".into()));
    assert_eq!(resolve_asset("sta://nope/"), Err(404));
    assert_eq!(resolve_asset("https://sidebar/"), Err(400));
    assert_eq!(resolve_asset("sta://sidebar/a/../../x.js"), Err(400));
    assert_eq!(resolve_asset("sta://sidebar/a%5Cb.js"), Err(400));
    assert_eq!(host_of("sta://command/?x"), Some("command".to_string()));
}

#[test]
fn extension_icons_keep_their_path_on_the_two_hosts_that_serve_them() {
    let id = "a".repeat(32);
    assert_eq!(resolve_asset(&format!("sta://command/__ext-icon/{id}/32")), Ok(format!("command/__ext-icon/{id}/32")));
    assert_eq!(resolve_asset(&format!("sta://settings/__ext-icon/{id}/48")), Ok(format!("settings/__ext-icon/{id}/48")));
    // Any other host is a 404, and traversal is refused before this rule ever runs.
    assert_eq!(resolve_asset(&format!("sta://sidebar/__ext-icon/{id}/32")), Err(404));
    assert_eq!(resolve_asset("sta://command/__ext-icon/../../x/32"), Err(400));
    assert_eq!(extension_icon_path(&format!("command/__ext-icon/{id}/32")), Some(format!("__ext-icon/{id}/32")));
    assert_eq!(extension_icon_path("command/index.html"), None);
    assert_eq!(extension_icon_path(&format!("sidebar/__ext-icon/{id}/32")), None);
}

#[test]
fn placeholders_only_for_overlay_hosts() {
    assert_eq!(placeholder_asset("find/index.html").map(|a| a.mime()), Some("text/html"));
    assert_eq!(placeholder_asset("peek/__shell_placeholder.js").map(|a| a.mime()), Some("text/javascript"));
    assert!(placeholder_asset("sidebar/index.html").is_none());
    assert!(placeholder_asset("toast/other.js").is_none());
    assert!(placeholder_asset("common/ipc.js").is_none());
}

#[test]
fn every_response_is_announced() {
    let page = asset_answer("sidebar/index.html", Some(b"<p>".to_vec()), vec![], vec![]);
    let told = response_headers(&page);
    assert_eq!((told.status, told.mime.as_str(), told.utf8, told.length), (200, "text/html", true, 3));
    assert_eq!(asset_answer("toast/index.html", None, b"h".to_vec(), b"s".to_vec()).body, b"h");
    assert_eq!(asset_answer("sidebar/nope.js", None, b"h".to_vec(), b"s".to_vec()).status, 404);
    let icon = icon_answer(Some(("image/png".to_string(), vec![1, 2])));
    assert_eq!((response_headers(&icon).mime.as_str(), response_headers(&icon).utf8), ("image/png", false));
    assert_eq!((icon_answer(None).status, error_response(400).status), (404, 400));
    let names: Vec<&str> = security_headers().iter().map(|h| h.0).collect();
    assert_eq!(names, ["Content-Security-Policy", "Cache-Control", "X-Content-Type-Options", "Referrer-Policy"]);
    assert_eq!(scheme_options(), 1 + 4 + 8 + 16 + 64);
}

#[test]
fn a_response_is_read_to_its_end() {
    let mut page = asset_answer("sidebar/index.html", Some(b"abcdef".to_vec()), vec![], vec![]);
    assert_eq!(skip(&mut page, 1), Some(1));
    assert_eq!(read(&mut page, 3), b"bcd");
    assert_eq!(read(&mut page, 9), b"ef");
    assert!(read(&mut page, 9).is_empty());
    cancel(&mut page);
    assert!(read(&mut page, 9).is_empty());
}

#[test]
fn only_known_addresses_are_looked_up() {
    assert!(matches!(create("GET", "sta://sidebar/sidebar.js"), Lookup::Asset(path) if path == "sidebar/sidebar.js"));
    assert!(matches!(create("POST", "sta://sidebar/"), Lookup::Refused(r) if r.status == 405));
    assert!(matches!(create("GET", "sta://nope/"), Lookup::Refused(r) if r.status == 404));
}
