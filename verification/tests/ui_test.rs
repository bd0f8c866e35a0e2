use super_core::ui::{
    default_reload_timeout, embedded_asset_key, inject_needed, is_core_reserved_route, mime_for,
    normalize_ui_path, resolve_outcome, resolve_timeout, resolve_view, UiAnswer, UiResolveOutcome,
};

#[test]
fn normalize_root_to_index() {
    assert_eq!(normalize_ui_path("/"), "index.html");
    assert_eq!(normalize_ui_path(""), "index.html");
    assert_eq!(normalize_ui_path("/assets/app.js"), "assets/app.js");
    assert_eq!(normalize_ui_path("/../etc/passwd"), "index.html");
}

#[test]
fn normalize_keeps_dots_inside_names() {
    assert_eq!(normalize_ui_path("//a..b/c.js"), "a..b/c.js");
    assert_eq!(normalize_ui_path("/assets/../x"), "index.html");
    assert_eq!(normalize_ui_path("/assets/.."), "index.html");
}

#[test]
fn mime_types_by_last_extension() {
    assert_eq!(mime_for("index.html"), "text/html");
    assert_eq!(mime_for("assets/app.min.js"), "application/javascript");
    assert_eq!(mime_for("a.mjs"), "application/javascript");
    assert_eq!(mime_for("style.css"), "text/css");
    assert_eq!(mime_for("x.json"), "application/json");
    assert_eq!(mime_for("x.js.map"), "application/json");
    assert_eq!(mime_for("logo.svg"), "image/svg+xml");
    assert_eq!(mime_for("a.png"), "image/png");
    assert_eq!(mime_for("favicon.ico"), "image/x-icon");
    assert_eq!(mime_for("f.woff2"), "font/woff2");
    assert_eq!(mime_for("f.woff"), "font/woff");
    assert_eq!(mime_for("f.ttf"), "font/ttf");
    assert_eq!(mime_for("site.webmanifest"), "application/manifest+json");
    assert_eq!(mime_for("README"), "application/octet-stream");
    assert_eq!(mime_for("archive.HTML"), "application/octet-stream");
}

#[test]
fn shell_page_gets_config() {
    assert!(inject_needed(""));
    assert!(inject_needed("/"));
    assert!(inject_needed("index.html"));
    assert!(inject_needed("/sub/index.html"));
    assert!(!inject_needed("/index.html.map"));
    assert!(!inject_needed("assets/app.js"));
}

#[test]
fn embedded_keys() {
    assert_eq!(embedded_asset_key(""), "index.html");
    assert_eq!(embedded_asset_key("/"), "index.html");
    assert_eq!(embedded_asset_key("///assets/a.js"), "assets/a.js");
}

#[test]
fn reserved_routes_and_budgets() {
    assert!(is_core_reserved_route("GET", "/api/v1/system/license"));
    assert!(is_core_reserved_route("get", "/api/v1/system/license"));
    assert!(!is_core_reserved_route("POST", "/api/v1/system/license"));
    assert!(!is_core_reserved_route("GET", "/api/v1/system/license/"));
    assert_eq!(resolve_timeout(0), 10_000);
    assert_eq!(resolve_timeout(50), 50);
    assert_eq!(default_reload_timeout(), 30);
}

#[test]
fn resolve_outcome_returns_asset() {
    let answer = UiAnswer {
        code: 0,
        data: Some(b"<html>ok</html>".to_vec()),
        mime: Some(b"text/html".to_vec()),
    };
    match resolve_outcome(Some(answer)) {
        UiResolveOutcome::Asset { mime, data } => {
            assert_eq!(mime, "text/html");
            assert_eq!(data, b"<html>ok</html>");
        }
        _ => panic!("expected asset"),
    }
}

#[test]
fn resolve_outcome_maps_missing_and_timeout() {
    let missing = UiAnswer { code: 1, data: None, mime: None };
    assert!(matches!(resolve_outcome(Some(missing)), UiResolveOutcome::Missing));
    let empty = UiAnswer { code: 0, data: Some(vec![]), mime: None };
    assert!(matches!(resolve_outcome(Some(empty)), UiResolveOutcome::Missing));
    let refused = UiAnswer { code: 2, data: Some(b"x".to_vec()), mime: None };
    assert!(matches!(resolve_outcome(Some(refused)), UiResolveOutcome::Missing));
    assert!(matches!(resolve_outcome(None), UiResolveOutcome::TimedOut));
}

#[test]
fn resolve_mime_falls_back_to_octet_stream() {
    let no_mime = UiAnswer { code: 0, data: Some(b"x".to_vec()), mime: None };
    match resolve_outcome(Some(no_mime)) {
        UiResolveOutcome::Asset { mime, .. } => assert_eq!(mime, "application/octet-stream"),
        _ => panic!("expected asset"),
    }
    let bad = UiAnswer { code: 0, data: Some(b"x".to_vec()), mime: Some(vec![0xff, 0xfe]) };
    match resolve_outcome(Some(bad)) {
        UiResolveOutcome::Asset { mime, .. } => assert_eq!(mime, "application/octet-stream"),
        _ => panic!("expected asset"),
    }
}

#[test]
fn resolve_view_borrows_plugin_bytes() {
    let data: &[u8] = b"body";
    let mime: &[u8] = b"text/css";
    let a = resolve_view(0, Some(data), Some(mime)).unwrap();
    assert_eq!(a.data, b"body");
    assert_eq!(a.mime, "text/css");
    assert!(resolve_view(0, Some(&data[..0]), Some(mime)).is_none());
    assert!(resolve_view(0, None, Some(mime)).is_none());
    assert!(resolve_view(-1, Some(data), None).is_none());
    assert_eq!(resolve_view(0, Some(data), None).unwrap().mime, "application/octet-stream");
}
