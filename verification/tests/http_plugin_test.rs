use super_core::http_plugin::{
    api_body, api_response, audit_gate, auth_gate, auth_result, check_http_vtable, dispatch_reply,
    init_error, nul_pos, plan_plugin_routes, rbac_gate, rbac_result, route_list_text, ApiAnswer,
    AuthDecision, DeniedBody, GateStep, HookReply, PluginRoutes, RouteListError, VtableError,
};

fn reply(code: i32, text: &[u8]) -> Option<HookReply> {
    let mut buf = vec![0u8; 2048];
    buf[..text.len()].copy_from_slice(text);
    Some(HookReply { code, buf })
}

fn ctx_of(d: &AuthDecision) -> Option<Option<String>> {
    match d {
        AuthDecision::Pass { ctx } => Some(ctx.clone()),
        _ => None,
    }
}

#[test]
fn auth_misconfigured_plugin_maps_to_500() {
    let d = auth_result(reply(2, b""));
    assert!(matches!(d, AuthDecision::Failed));
    assert_eq!(d.status(), Some(500));
}

#[test]
fn auth_garbage_context_maps_to_500() {
    let d = auth_result(reply(0, &[0xFF, 0xFE]));
    assert!(matches!(d, AuthDecision::Failed));
    assert_eq!(d.status(), Some(500));
}

#[test]
fn auth_missing_hook_maps_to_500() {
    assert_eq!(auth_gate(false, "/probe"), GateStep::Reject(500));
    assert_eq!(auth_gate(true, "/probe"), GateStep::Call);
    assert_eq!(auth_gate(true, "/pro\0be"), GateStep::Reject(500));
}

#[test]
fn auth_junk_json_injects_no_user_context() {
    let d = auth_result(reply(0, b"{\"totally\":\"unrelated\"}"));
    assert_eq!(d.status(), None);
    assert_eq!(ctx_of(&d), Some(Some("{\"totally\":\"unrelated\"}".to_string())));
}

#[test]
fn auth_empty_ctx_injects_no_user_context() {
    let d = auth_result(reply(0, b""));
    assert_eq!(d.status(), None);
    assert_eq!(ctx_of(&d), Some(Some(String::new())));
}

#[test]
fn api_response_maps_invalid_status_to_500() {
    let r = api_response(0, String::new());
    assert_eq!(r.status, 500);
    assert!(r.body.is_none());
}

#[test]
fn auth_timeout_fails_closed_with_504() {
    let d = auth_result(None);
    assert!(matches!(d, AuthDecision::TimedOut));
    assert_eq!(d.status(), Some(504));
}

#[test]
fn rbac_timeout_fails_closed() {
    assert_eq!(rbac_gate(true, true, "/probe", "GET"), GateStep::Call);
    assert_eq!(rbac_result(None), Some(500));
}

#[test]
fn api_timeout_maps_to_504() {
    let r = dispatch_reply(None);
    assert_eq!(r.status, 504);
    assert!(r.body.is_none());
}

#[test]
fn auth_codes_pass_and_refuse() {
    let d = auth_result(reply(3, b"ignored"));
    assert_eq!(ctx_of(&d), Some(None));
    match auth_result(reply(1, b"")) {
        AuthDecision::Unauthorized(DeniedBody::Message(m)) => assert_eq!(m, "unauthorized"),
        _ => panic!("expected 401"),
    }
    match auth_result(reply(4, b"token expired")) {
        AuthDecision::Unauthorized(DeniedBody::Message(m)) => assert_eq!(m, "token expired"),
        _ => panic!("expected 401"),
    }
    match auth_result(reply(4, b"")) {
        AuthDecision::Unauthorized(DeniedBody::Message(m)) => assert_eq!(m, "unauthorized"),
        _ => panic!("expected 401"),
    }
    match auth_result(reply(4, b"  {\"status\":\"error\"}")) {
        AuthDecision::Unauthorized(DeniedBody::Json(t)) => assert_eq!(t, "  {\"status\":\"error\"}"),
        _ => panic!("expected 401"),
    }
    assert_eq!(auth_result(reply(4, b"x")).status(), Some(401));
    assert!(matches!(auth_result(reply(-1, b"")), AuthDecision::Failed));
}

#[test]
fn context_stops_at_first_nul() {
    let d = auth_result(reply(0, b"ab\0cd"));
    assert_eq!(ctx_of(&d), Some(Some("ab".to_string())));
    assert_eq!(nul_pos(b"ab\0cd\0"), 2);
    assert_eq!(nul_pos(b"abc"), 3);
    assert_eq!(nul_pos(b""), 0);
    assert_eq!(nul_pos(b"\0"), 0);
}

#[test]
fn rbac_and_audit_gates() {
    assert_eq!(rbac_gate(false, true, "/a", "GET"), GateStep::Reject(500));
    assert_eq!(rbac_gate(false, false, "/a", "GET"), GateStep::Reject(500));
    assert_eq!(rbac_gate(true, false, "/a", "GET"), GateStep::Pass);
    assert_eq!(rbac_gate(true, true, "/a\0", "GET"), GateStep::Reject(500));
    assert_eq!(rbac_result(Some(0)), None);
    assert_eq!(rbac_result(Some(7)), Some(403));
    assert_eq!(audit_gate(false, "GET"), GateStep::Reject(500));
    assert_eq!(audit_gate(true, "GET"), GateStep::Pass);
    assert_eq!(audit_gate(true, "HEAD"), GateStep::Pass);
    assert_eq!(audit_gate(true, "OPTIONS"), GateStep::Pass);
    assert_eq!(audit_gate(true, "POST"), GateStep::Call);
    assert_eq!(audit_gate(true, "get"), GateStep::Call);
}

#[test]
fn api_reply_status_and_body() {
    let r = api_response(201, "{\"ok\":true}".to_string());
    assert_eq!(r.status, 201);
    assert_eq!(r.body.as_deref(), Some("{\"ok\":true}"));
    assert_eq!(api_response(1000, String::new()).status, 500);
    assert_eq!(api_response(99, String::new()).status, 500);
    assert_eq!(api_response(999, String::new()).status, 999);
    let mut buf = vec![0u8; 16];
    buf[..4].copy_from_slice(b"{}\xffz");
    assert_eq!(api_body(&buf), "{}\u{FFFD}z");
    let r = dispatch_reply(Some(ApiAnswer { status: 65_536 + 404, buf: b"nf\0junk".to_vec() }));
    assert_eq!(r.status, 404);
    assert_eq!(r.body.as_deref(), Some("nf"));
    let r = dispatch_reply(Some(ApiAnswer { status: 204, buf: vec![0u8; 8] }));
    assert_eq!(r.status, 204);
    assert!(r.body.is_none());
}

#[test]
fn route_list_reading() {
    let mut buf = vec![0u8; 64];
    let json = b"[{\"method\":\"GET\",\"path\":\"/x\"}]";
    buf[..json.len()].copy_from_slice(json);
    assert_eq!(route_list_text(Some(json.len() + 1), &buf).unwrap(), String::from_utf8(json.to_vec()).unwrap());
    assert_eq!(route_list_text(Some(3), &buf).unwrap(), "[{\"");
    assert_eq!(route_list_text(Some(0), &buf), Err(RouteListError::Empty));
    assert_eq!(route_list_text(Some(64), &buf), Err(RouteListError::Empty));
    assert_eq!(route_list_text(None, &buf), Err(RouteListError::NoHook));
    assert_eq!(route_list_text(Some(2), &[0xff, 0xfe, 0]), Err(RouteListError::NotUtf8));
    assert_eq!(RouteListError::Empty.message(), "HTTP plugin list_routes returned empty buffer");
}

#[test]
fn vtable_and_init_checks() {
    assert_eq!(check_http_vtable(1, 1, true), Ok(()));
    let e = check_http_vtable(2, 1, true).unwrap_err();
    assert_eq!(e, VtableError::Version { plugin: 2, host: 1 });
    assert_eq!(e.message(), "HTTP plugin API version 2 != host 1");
    let e = check_http_vtable(1, 1, false).unwrap_err();
    assert_eq!(e.message(), "HTTP plugin missing handle_api");
    assert_eq!(init_error(None), None);
    assert_eq!(init_error(Some(0)), None);
    assert_eq!(init_error(Some(-3)), Some("HTTP plugin init failed (-3)".to_string()));
}

fn routes(pairs: &[(&str, &str)], has_auth: bool) -> PluginRoutes {
    PluginRoutes {
        routes: pairs.iter().map(|(m, p)| (m.to_string(), p.to_string())).collect(),
        has_auth,
    }
}

#[test]
fn plugin_routes_are_grouped_by_path() {
    let plugins = vec![
        routes(&[("get", "/a"), ("GET", "/api/v1/system/license"), ("post", "/a")], false),
        routes(&[("GET", "/b"), ("DELETE", "/a")], true),
        routes(&[("PUT", "/c")], true),
    ];
    let plan = plan_plugin_routes(&plugins);
    let got: Vec<(String, usize, Vec<String>)> =
        plan.routes.iter().map(|g| (g.path.clone(), g.plugin, g.methods.clone())).collect();
    assert_eq!(
        got,
        vec![
            ("/a".to_string(), 0, vec!["GET".to_string(), "POST".to_string(), "DELETE".to_string()]),
            ("/b".to_string(), 1, vec!["GET".to_string()]),
            ("/c".to_string(), 2, vec!["PUT".to_string()]),
        ]
    );
    assert_eq!(plan.skipped, vec![("GET".to_string(), "/api/v1/system/license".to_string())]);
    assert_eq!(plan.auth_plugin, Some(1));
}

#[test]
fn no_plugin_route_means_no_auth_layer() {
    let plugins = vec![routes(&[("get", "/api/v1/system/license")], true)];
    let plan = plan_plugin_routes(&plugins);
    assert!(plan.routes.is_empty());
    assert_eq!(plan.auth_plugin, None);
    assert_eq!(plan.skipped.len(), 1);
    assert_eq!(plan_plugin_routes(&vec![]).auth_plugin, None);
}
