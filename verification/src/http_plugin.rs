//! The HTTP plugin bridge: how the host reads what a plugin's entry points
//! wrote back, and how it answers a request on each outcome. Every
//! abnormal answer fails closed: the request is refused and carries no
//! authentication context.

use vstd::prelude::*;
use crate::logs::{spec_utf8_lossy, utf8_lossy};
use crate::text::{
    chars_of, concat2, concat3, fmt_i64, fmt_u64, spec_dec, spec_dec_int, spec_trim, str_eq, trim,
};
use crate::ui::{
    is_core_reserved_route, spec_to_uppercase, spec_utf8_strict, to_uppercase, utf8_strict,
};

verus! {

/// `i` is the position of the first NUL byte of `buf`.
pub open spec fn spec_first_nul(buf: Seq<u8>, i: int) -> bool {
    &&& 0 <= i < buf.len()
    &&& buf[i] == 0
    &&& forall|j: int| 0 <= j < i ==> buf[j] != 0
}

/// Length of the NUL-terminated text at the start of `buf`: the position
/// of its first NUL byte, or its whole length when it has none.
pub open spec fn spec_nul_pos(buf: Seq<u8>) -> int {
    if exists|i: int| spec_first_nul(buf, i) {
        choose|i: int| spec_first_nul(buf, i)
    } else {
        buf.len() as int
    }
}

/// The bytes of `buf` before its first NUL.
pub open spec fn spec_until_nul(buf: Seq<u8>) -> Seq<u8> {
    buf.take(spec_nul_pos(buf))
}

/// Position of the first NUL byte of `buf`, its length when it has none.
pub fn nul_pos(buf: &[u8]) -> (r: usize)
    ensures
        r == spec_nul_pos(buf@),
        r <= buf@.len(),
{
    let mut i: usize = 0;
    while i < buf.len()
        invariant
            i <= buf@.len(),
            forall|j: int| 0 <= j < i ==> buf@[j] != 0,
        decreases buf.len() - i,
    {
        if buf[i] == 0 {
            proof {
                assert(spec_first_nul(buf@, i as int));
                let c = choose|k: int| spec_first_nul(buf@, k);
                assert(spec_first_nul(buf@, c));
                if c < i {
                    assert(buf@[c] != 0);
                }
                if c > i {
                    assert(buf@[i as int] != 0);
                }
            }
            return i;
        }
        i = i + 1;
    }
    proof {
        if exists|k: int| spec_first_nul(buf@, k) {
            let k = choose|k: int| spec_first_nul(buf@, k);
            assert(buf@[k] != 0);
        }
    }
    buf.len()
}

/// The bytes of `buf` before its first NUL.
pub fn until_nul(buf: &[u8]) -> (r: &[u8])
    ensures
        r@ == spec_until_nul(buf@),
{
    let n = nul_pos(buf);
    vstd::slice::slice_subrange(buf, 0, n)
}

/// A text holds a NUL character, so it cannot be handed to a plugin as a
/// C string.
pub open spec fn spec_has_nul(s: Seq<char>) -> bool {
    exists|i: int| 0 <= i < s.len() && s[i] == '\0'
}

/// Whether a text holds a NUL character.
pub fn has_nul(s: &str) -> (r: bool)
    ensures
        r == spec_has_nul(s@),
{
    let cs = chars_of(s);
    let mut i: usize = 0;
    while i < cs.len()
        invariant
            cs@ == s@,
            i <= cs@.len(),
            forall|j: int| 0 <= j < i ==> cs@[j] != '\0',
        decreases cs.len() - i,
    {
        if cs[i] == '\0' {
            return true;
        }
        i = i + 1;
    }
    false
}

/// What the host does with a request before or instead of calling into a
/// plugin hook.
#[derive(Clone, Copy, Debug, PartialEq, Eq, Structural)]
pub enum GateStep {
    /// Answer with this status without calling the hook.
    Reject(u16),
    /// Let the request through without calling the hook.
    Pass,
    /// Call the hook.
    Call,
}

/// Authentication of a request: refused with 500 when the plugin has no
/// `authenticate` hook or the path cannot be handed over; else the hook
/// is called.
pub fn auth_gate(has_hook: bool, path: &str) -> (r: GateStep)
    ensures
        r == (if !has_hook || spec_has_nul(path@) {
            GateStep::Reject(500)
        } else {
            GateStep::Call
        }),
{
    if !has_hook || has_nul(path) {
        GateStep::Reject(500)
    } else {
        GateStep::Call
    }
}

/// What a plugin hook returned: its code and the output buffer it wrote.
pub struct HookReply {
    pub code: i32,
    pub buf: Vec<u8>,
}

/// Body of a 401 answer.
pub enum DeniedBody {
    /// The plugin's detail is a JSON document (it starts with `{`): it is
    /// the body when it parses, else the default error body is.
    Json(String),
    /// The error body `{"status":"error","message":...}` with this message.
    Message(String),
}

/// How the host answers a request after the `authenticate` hook.
pub enum AuthDecision {
    /// Let the request through, with the plugin's authentication context
    /// when it gave one.
    Pass { ctx: Option<String> },
    /// 401.
    Unauthorized(DeniedBody),
    /// 500: the plugin answered something the host cannot trust.
    Failed,
    /// 504: the hook did not return within the budget.
    TimedOut,
}

/// The context that a decision lets through: `Some(c)` when the request
/// passes, with `c` the context it carries.
pub open spec fn spec_passed(r: AuthDecision) -> Option<Option<Seq<char>>> {
    match r {
        AuthDecision::Pass { ctx } => Some(
            match ctx {
                Some(c) => Some(c@),
                None => None,
            },
        ),
        _ => None,
    }
}

/// The 401 body of a decision: whether it is the plugin's JSON, and its
/// text.
pub open spec fn spec_denied(r: AuthDecision) -> Option<(bool, Seq<char>)> {
    match r {
        AuthDecision::Unauthorized(DeniedBody::Json(t)) => Some((true, t@)),
        AuthDecision::Unauthorized(DeniedBody::Message(m)) => Some((false, m@)),
        _ => None,
    }
}

/// The 401 body for a plugin's refusal detail: the detail as JSON when,
/// trimmed, it starts with `{`; else a message, the detail or
/// `unauthorized` when it is empty.
pub open spec fn spec_denied_for(detail: Seq<char>) -> (bool, Seq<char>) {
    if spec_trim(detail).len() > 0 && spec_trim(detail)[0] == '{' {
        (true, detail)
    } else if detail.len() == 0 {
        (false, "unauthorized"@)
    } else {
        (false, detail)
    }
}

/// The text a hook wrote: the bytes before the first NUL, when they are
/// valid UTF-8.
pub open spec fn spec_hook_text(buf: Seq<u8>) -> Option<Seq<char>> {
    spec_utf8_strict(spec_until_nul(buf))
}

fn hook_text(buf: &[u8]) -> (r: Option<&str>)
    ensures
        match r {
            Some(t) => spec_hook_text(buf@) == Some(t@),
            None => spec_hook_text(buf@) is None,
        },
{
    utf8_strict(until_nul(buf))
}

fn denied_body(detail: &str) -> (r: DeniedBody)
    ensures
        (match r {
            DeniedBody::Json(t) => (true, t@),
            DeniedBody::Message(m) => (false, m@),
        }) == spec_denied_for(detail@),
{
    proof {
        reveal_strlit("unauthorized");
    }
    let t = trim(detail);
    let cs = chars_of(t.as_str());
    if cs.len() > 0 && cs[0] == '{' {
        DeniedBody::Json(detail.to_owned())
    } else if detail.is_empty() {
        DeniedBody::Message("unauthorized".to_owned())
    } else {
        DeniedBody::Message(detail.to_owned())
    }
}

/// How the host answers after the `authenticate` hook, `None` when it did
/// not return within the budget. Code 3 lets the request through without
/// a context; code 0 with the context the hook wrote, and fails when that
/// is not valid UTF-8; code 1 refuses with the default message, code 4
/// with the hook's detail; any other code fails.
pub fn auth_result(reply: Option<HookReply>) -> (r: AuthDecision)
    ensures
        spec_passed(r) is Some ==> (reply matches Some(h) && (h.code == 3 || (h.code == 0
            && spec_hook_text(h.buf@) is Some))),
        match reply {
            None => r is TimedOut,
            Some(h) => if h.code == 3 {
                spec_passed(r) == Some(None::<Seq<char>>)
            } else if h.code == 0 {
                match spec_hook_text(h.buf@) {
                    Some(t) => spec_passed(r) == Some(Some(t)),
                    None => r is Failed,
                }
            } else if h.code == 1 {
                spec_denied(r) == Some((false, "unauthorized"@))
            } else if h.code == 4 {
                spec_denied(r) == Some(
                    spec_denied_for(
                        match spec_hook_text(h.buf@) {
                            Some(t) => t,
                            None => Seq::<char>::empty(),
                        },
                    ),
                )
            } else {
                r is Failed
            },
        },
{
    match reply {
        None => AuthDecision::TimedOut,
        Some(h) => {
            if h.code == 3 {
                AuthDecision::Pass { ctx: None }
            } else if h.code == 0 {
                match hook_text(h.buf.as_slice()) {
                    Some(t) => AuthDecision::Pass { ctx: Some(t.to_owned()) },
                    None => AuthDecision::Failed,
                }
            } else if h.code == 1 {
                AuthDecision::Unauthorized(DeniedBody::Message("unauthorized".to_owned()))
            } else if h.code == 4 {
                let detail = match hook_text(h.buf.as_slice()) {
                    Some(t) => t,
                    None => "",
                };
                proof {
                    reveal_strlit("");
                }
                AuthDecision::Unauthorized(denied_body(detail))
            } else {
                AuthDecision::Failed
            }
        },
    }
}

impl AuthDecision {
    /// Status of the answer when the request does not pass.
    pub fn status(&self) -> (r: Option<u16>)
        ensures
            r == (match *self {
                AuthDecision::Pass { .. } => None,
                AuthDecision::Unauthorized(_) => Some(401u16),
                AuthDecision::Failed => Some(500u16),
                AuthDecision::TimedOut => Some(504u16),
            }),
    {
        match self {
            AuthDecision::Pass { .. } => None,
            AuthDecision::Unauthorized(_) => Some(401),
            AuthDecision::Failed => Some(500),
            AuthDecision::TimedOut => Some(504),
        }
    }
}

/// Authorization of a request: refused with 500 when the plugin has no
/// `authorize` hook; passed when the request carries no authentication
/// context; refused with 500 when its path or method cannot be handed
/// over; else the hook is called.
pub fn rbac_gate(has_hook: bool, has_ctx: bool, path: &str, method: &str) -> (r: GateStep)
    ensures
        r == (if !has_hook {
            GateStep::Reject(500)
        } else if !has_ctx {
            GateStep::Pass
        } else if spec_has_nul(path@) || spec_has_nul(method@) {
            GateStep::Reject(500)
        } else {
            GateStep::Call
        }),
{
    if !has_hook {
        GateStep::Reject(500)
    } else if !has_ctx {
        GateStep::Pass
    } else if has_nul(path) || has_nul(method) {
        GateStep::Reject(500)
    } else {
        GateStep::Call
    }
}

/// Outcome of the `authorize` hook, `None` when it did not return within
/// the budget: the request passes (`None`) on code 0; it is refused with
/// 403 on any other code and with 500 on a timeout.
pub fn rbac_result(code: Option<i32>) -> (r: Option<u16>)
    ensures
        r == (match code {
            None => Some(500u16),
            Some(c) => if c == 0 {
                None
            } else {
                Some(403u16)
            },
        }),
{
    match code {
        None => Some(500),
        Some(c) => if c == 0 {
            None
        } else {
            Some(403)
        },
    }
}

/// Methods that change nothing, which the audit hook does not record.
pub open spec fn spec_read_only_method(method: Seq<char>) -> bool {
    method == "GET"@ || method == "OPTIONS"@ || method == "HEAD"@
}

/// Auditing of a request: refused with 500 when the plugin has no
/// `audit_request` hook; read-only methods pass unrecorded; others are
/// recorded after they are served.
pub fn audit_gate(has_hook: bool, method: &str) -> (r: GateStep)
    ensures
        r == (if !has_hook {
            GateStep::Reject(500)
        } else if spec_read_only_method(method@) {
            GateStep::Pass
        } else {
            GateStep::Call
        }),
{
    if !has_hook {
        GateStep::Reject(500)
    } else if str_eq(method, "GET") || str_eq(method, "OPTIONS") || str_eq(method, "HEAD") {
        GateStep::Pass
    } else {
        GateStep::Call
    }
}

/// A status code that an HTTP response can carry: three digits
/// (`http::StatusCode::from_u16`).
pub open spec fn spec_valid_status(status: u16) -> bool {
    100 <= status <= 999
}

/// Answer of a plugin's API handler as the host sends it.
pub struct ApiReply {
    pub status: u16,
    /// The JSON body, none when the handler wrote nothing.
    pub body: Option<String>,
}

/// The host's answer for a handler's status and body: the status when it
/// is a valid one, else 500; the body as JSON unless it is empty.
pub fn api_response(status: u16, body: String) -> (r: ApiReply)
    ensures
        r.status == (if spec_valid_status(status) {
            status
        } else {
            500
        }),
        match r.body {
            None => body@.len() == 0,
            Some(b) => body@.len() > 0 && b@ == body@,
        },
{
    let code = if 100 <= status && status <= 999 {
        status
    } else {
        500
    };
    if body.as_str().is_empty() {
        ApiReply { status: code, body: None }
    } else {
        ApiReply { status: code, body: Some(body) }
    }
}

/// Body a handler wrote: the bytes before the first NUL, decoded with
/// replacement of invalid UTF-8.
pub fn api_body(buf: &[u8]) -> (r: String)
    ensures
        r@ == spec_utf8_lossy(spec_until_nul(buf@)),
{
    utf8_lossy(until_nul(buf))
}

/// What a plugin's API handler returned: its status and the output
/// buffer it wrote.
pub struct ApiAnswer {
    pub status: u32,
    pub buf: Vec<u8>,
}

/// The host's answer to a request dispatched to a plugin's API handler,
/// `None` when the handler did not return within the budget (504). The
/// status is taken modulo 2^16, as the handler's 32-bit status is cut to
/// an HTTP status.
pub fn dispatch_reply(reply: Option<ApiAnswer>) -> (r: ApiReply)
    ensures
        match reply {
            None => r.status == 504 && r.body is None,
            Some(h) => {
                let status = h.status as u16;
                let body = spec_utf8_lossy(spec_until_nul(h.buf@));
                &&& r.status == (if spec_valid_status(status) {
                    status
                } else {
                    500
                })
                &&& match r.body {
                    None => body.len() == 0,
                    Some(b) => body.len() > 0 && b@ == body,
                }
            },
        },
{
    match reply {
        None => ApiReply { status: 504, body: None },
        Some(h) => {
            let status = h.status as u16;
            let body = api_body(h.buf.as_slice());
            api_response(status, body)
        },
    }
}

/// Why a plugin's route list cannot be read.
#[derive(Clone, Copy, Debug, PartialEq, Eq, Structural)]
pub enum RouteListError {
    /// The plugin has no `list_routes` entry point.
    NoHook,
    /// It wrote nothing, or claims to have filled the whole buffer.
    Empty,
    /// What it wrote is not valid UTF-8.
    NotUtf8,
}

impl RouteListError {
    pub fn message(&self) -> (r: &'static str)
        ensures
            r@ == (match *self {
                RouteListError::NoHook => "HTTP plugin missing list_routes"@,
                RouteListError::Empty => "HTTP plugin list_routes returned empty buffer"@,
                RouteListError::NotUtf8 => "HTTP plugin list_routes returned invalid UTF-8"@,
            }),
    {
        proof {
            reveal_strlit("HTTP plugin missing list_routes");
            reveal_strlit("HTTP plugin list_routes returned empty buffer");
            reveal_strlit("HTTP plugin list_routes returned invalid UTF-8");
        }
        match self {
            RouteListError::NoHook => "HTTP plugin missing list_routes",
            RouteListError::Empty => "HTTP plugin list_routes returned empty buffer",
            RouteListError::NotUtf8 => "HTTP plugin list_routes returned invalid UTF-8",
        }
    }
}

/// The JSON text of a plugin's route list, from the count of bytes that
/// `list_routes` returned (`None` when the plugin has none) and the buffer
/// it wrote: the text before the first NUL among those bytes.
pub fn route_list_text(written: Option<usize>, buf: &[u8]) -> (r: Result<String, RouteListError>)
    ensures
        match written {
            None => r == Err::<String, RouteListError>(RouteListError::NoHook),
            Some(n) => if n == 0 || n >= buf@.len() {
                r == Err::<String, RouteListError>(RouteListError::Empty)
            } else {
                match spec_hook_text(buf@.take(n as int)) {
                    Some(t) => r is Ok && r->Ok_0@ == t,
                    None => r == Err::<String, RouteListError>(RouteListError::NotUtf8),
                }
            },
        },
{
    match written {
        None => Err(RouteListError::NoHook),
        Some(n) => {
            if n == 0 || n >= buf.len() {
                Err(RouteListError::Empty)
            } else {
                let head = vstd::slice::slice_subrange(buf, 0, n);
                match hook_text(head) {
                    Some(t) => Ok(t.to_owned()),
                    None => Err(RouteListError::NotUtf8),
                }
            }
        },
    }
}

/// Why a plugin's HTTP table is refused.
#[derive(Clone, Copy, Debug, PartialEq, Eq, Structural)]
pub enum VtableError {
    /// It was built for another version of the plugin interface.
    Version { plugin: u32, host: u32 },
    /// It has no API handler.
    MissingHandleApi,
}

impl VtableError {
    pub fn message(&self) -> (r: String)
        ensures
            r@ == (match *self {
                VtableError::Version { plugin, host } => "HTTP plugin API version "@ + spec_dec(
                    plugin as nat,
                ) + " != host "@ + spec_dec(host as nat),
                VtableError::MissingHandleApi => "HTTP plugin missing handle_api"@,
            }),
    {
        match self {
            VtableError::Version { plugin, host } => {
                let a = fmt_u64(*plugin as u64);
                let b = fmt_u64(*host as u64);
                let head = concat3("HTTP plugin API version ", a.as_str(), " != host ");
                concat2(head.as_str(), b.as_str())
            },
            VtableError::MissingHandleApi => {
                proof {
                    reveal_strlit("HTTP plugin missing handle_api");
                }
                "HTTP plugin missing handle_api".to_owned()
            },
        }
    }
}

/// A plugin's HTTP table is accepted when it speaks the host's version of
/// the interface and has an API handler.
pub fn check_http_vtable(plugin_version: u32, host_version: u32, has_handle_api: bool) -> (r: Result<
    (),
    VtableError,
>)
    ensures
        r == (if plugin_version != host_version {
            Err(VtableError::Version { plugin: plugin_version, host: host_version })
        } else if !has_handle_api {
            Err(VtableError::MissingHandleApi)
        } else {
            Ok(())
        }),
{
    if plugin_version != host_version {
        Err(VtableError::Version { plugin: plugin_version, host: host_version })
    } else if !has_handle_api {
        Err(VtableError::MissingHandleApi)
    } else {
        Ok(())
    }
}

/// The error of a plugin's `init` hook from its code (`None` when the
/// plugin has no such hook): none on success (no hook, or code 0).
pub fn init_error(code: Option<i32>) -> (r: Option<String>)
    ensures
        match code {
            Some(c) if c != 0 => r is Some && r->0@ == "HTTP plugin init failed ("@ + spec_dec_int(
                c as int,
            ) + ")"@,
            _ => r is None,
        },
{
    match code {
        Some(c) => if c != 0 {
            let d = fmt_i64(c as i64);
            Some(concat3("HTTP plugin init failed (", d.as_str(), ")"))
        } else {
            None
        },
        None => None,
    }
}

/// The routes that one loaded plugin declares, as (method, path), and
/// whether it has an `authenticate` hook.
pub struct PluginRoutes {
    pub routes: Vec<(String, String)>,
    pub has_auth: bool,
}

/// One path that the plugins serve: the plugin that serves it and the
/// methods declared for it, upper-cased, in declaration order.
pub struct PathRoute {
    pub path: String,
    pub plugin: usize,
    pub methods: Vec<String>,
}

/// How the host mounts the plugins' routes.
pub struct RoutePlan {
    pub routes: Vec<PathRoute>,
    /// Declared routes that core serves itself, which no plugin may take.
    pub skipped: Vec<(String, String)>,
    /// The plugin whose hooks guard every request; none when no plugin
    /// route is mounted.
    pub auth_plugin: Option<usize>,
}

/// A route that core serves itself (`is_core_reserved_route`).
pub open spec fn spec_reserved(method: Seq<char>, path: Seq<char>) -> bool {
    spec_to_uppercase(method) == "GET"@ && path == "/api/v1/system/license"@
}

/// The routes of plugin `i` that it may serve, as (method, path, plugin).
pub open spec fn spec_kept(routes: Seq<(String, String)>, i: int) -> Seq<(Seq<char>, Seq<char>, int)>
    decreases routes.len(),
{
    if routes.len() == 0 {
        Seq::empty()
    } else {
        let (m, p) = routes.last();
        spec_kept(routes.drop_last(), i) + (if spec_reserved(m@, p@) {
            Seq::empty()
        } else {
            seq![(m@, p@, i)]
        })
    }
}

/// The declared routes that core keeps for itself.
pub open spec fn spec_reserved_of(routes: Seq<(String, String)>) -> Seq<(Seq<char>, Seq<char>)>
    decreases routes.len(),
{
    if routes.len() == 0 {
        Seq::empty()
    } else {
        let (m, p) = routes.last();
        spec_reserved_of(routes.drop_last()) + (if spec_reserved(m@, p@) {
            seq![(m@, p@)]
        } else {
            Seq::empty()
        })
    }
}

/// All routes that the plugins may serve, plugin by plugin.
pub open spec fn spec_route_entries(plugins: Seq<PluginRoutes>) -> Seq<(Seq<char>, Seq<char>, int)>
    decreases plugins.len(),
{
    if plugins.len() == 0 {
        Seq::empty()
    } else {
        spec_route_entries(plugins.drop_last()) + spec_kept(
            plugins.last().routes@,
            plugins.len() - 1,
        )
    }
}

/// All declared routes that core keeps for itself, plugin by plugin.
pub open spec fn spec_skipped(plugins: Seq<PluginRoutes>) -> Seq<(Seq<char>, Seq<char>)>
    decreases plugins.len(),
{
    if plugins.len() == 0 {
        Seq::empty()
    } else {
        spec_skipped(plugins.drop_last()) + spec_reserved_of(plugins.last().routes@)
    }
}

/// The first plugin with an `authenticate` hook.
pub open spec fn spec_first_auth(plugins: Seq<PluginRoutes>) -> Option<int>
    decreases plugins.len(),
{
    if plugins.len() == 0 {
        None
    } else {
        match spec_first_auth(plugins.drop_last()) {
            Some(i) => Some(i),
            None => if plugins.last().has_auth {
                Some(plugins.len() - 1)
            } else {
                None
            },
        }
    }
}

/// Position of the group for `path`, -1 when there is none.
pub open spec fn spec_group_index(groups: Seq<(Seq<char>, int, Seq<Seq<char>>)>, path: Seq<char>) -> int
    decreases groups.len(),
{
    if groups.len() == 0 {
        -1
    } else if groups.last().0 == path {
        groups.len() - 1
    } else {
        spec_group_index(groups.drop_last(), path)
    }
}

/// Adds a route to the groups: its method joins the group of its path,
/// or it opens a new group served by its plugin.
pub open spec fn spec_add_route(
    groups: Seq<(Seq<char>, int, Seq<Seq<char>>)>,
    e: (Seq<char>, Seq<char>, int),
) -> Seq<(Seq<char>, int, Seq<Seq<char>>)> {
    let k = spec_group_index(groups, e.1);
    if k >= 0 {
        groups.update(k, (groups[k].0, groups[k].1, groups[k].2.push(spec_to_uppercase(e.0))))
    } else {
        groups.push((e.1, e.2, seq![spec_to_uppercase(e.0)]))
    }
}

/// The routes grouped by path, in order of first declaration.
pub open spec fn spec_groups(entries: Seq<(Seq<char>, Seq<char>, int)>) -> Seq<
    (Seq<char>, int, Seq<Seq<char>>),
>
    decreases entries.len(),
{
    if entries.len() == 0 {
        Seq::empty()
    } else {
        spec_add_route(spec_groups(entries.drop_last()), entries.last())
    }
}

/// A mounted path as plain values.
pub open spec fn spec_path_route(g: PathRoute) -> (Seq<char>, int, Seq<Seq<char>>) {
    (g.path@, g.plugin as int, g.methods@.map_values(|m: String| m@))
}

/// The mounted paths as plain values.
pub open spec fn spec_path_routes(v: Seq<PathRoute>) -> Seq<(Seq<char>, int, Seq<Seq<char>>)> {
    v.map_values(|g: PathRoute| spec_path_route(g))
}

/// Routes as plain values.
pub open spec fn spec_pairs(v: Seq<(String, String)>) -> Seq<(Seq<char>, Seq<char>)> {
    v.map_values(|e: (String, String)| (e.0@, e.1@))
}

/// Routes with their plugin as plain values.
pub open spec fn spec_triples(v: Seq<(String, String, usize)>) -> Seq<(Seq<char>, Seq<char>, int)> {
    v.map_values(|e: (String, String, usize)| (e.0@, e.1@, e.2 as int))
}

proof fn lemma_take_last<T>(s: Seq<T>, i: int)
    requires
        0 <= i < s.len(),
    ensures
        s.take(i + 1).drop_last() == s.take(i),
        s.take(i + 1).last() == s[i],
{
    assert(s.take(i + 1).drop_last() =~= s.take(i));
}

fn group_index(groups: &Vec<PathRoute>, path: &str) -> (r: Option<usize>)
    ensures
        match r {
            Some(k) => k == spec_group_index(spec_path_routes(groups@), path@) && k < groups@.len(),
            None => spec_group_index(spec_path_routes(groups@), path@) == -1,
        },
{
    let ghost gv = spec_path_routes(groups@);
    let mut j: usize = groups.len();
    assert(gv.take(j as int) =~= gv);
    while j > 0
        invariant
            j <= groups@.len(),
            gv == spec_path_routes(groups@),
            spec_group_index(gv, path@) == spec_group_index(gv.take(j as int), path@),
        decreases j,
    {
        proof {
            lemma_take_last(gv, j - 1);
        }
        if str_eq(groups[j - 1].path.as_str(), path) {
            return Some(j - 1);
        }
        j = j - 1;
    }
    None
}

/// Groups the routes by path: the first route of a path decides the
/// plugin that serves it, and every later method declared for that path
/// joins it.
fn group_routes(entries: &Vec<(String, String, usize)>) -> (r: Vec<PathRoute>)
    ensures
        spec_path_routes(r@) == spec_groups(spec_triples(entries@)),
{
    let ghost ev = spec_triples(entries@);
    let mut groups: Vec<PathRoute> = Vec::new();
    let mut i: usize = 0;
    assert(spec_path_routes(groups@) =~= Seq::<(Seq<char>, int, Seq<Seq<char>>)>::empty());
    while i < entries.len()
        invariant
            i <= entries@.len(),
            ev == spec_triples(entries@),
            spec_path_routes(groups@) == spec_groups(ev.take(i as int)),
        decreases entries.len() - i,
    {
        proof {
            lemma_take_last(ev, i as int);
        }
        let ghost before = spec_path_routes(groups@);
        let up = to_uppercase(entries[i].0.as_str());
        match group_index(&groups, entries[i].1.as_str()) {
            Some(k) => {
                let mut g = groups.remove(k);
                let ghost ms = g.methods@;
                g.methods.push(up);
                assert(g.methods@.map_values(|m: String| m@) =~= ms.map_values(|m: String| m@).push(
                    spec_to_uppercase(entries@[i as int].0@),
                ));
                groups.insert(k, g);
                assert(spec_path_routes(groups@) =~= before.update(
                    k as int,
                    (
                        before[k as int].0,
                        before[k as int].1,
                        before[k as int].2.push(spec_to_uppercase(entries@[i as int].0@)),
                    ),
                ));
            },
            None => {
                let path = entries[i].1.clone();
                let mut methods: Vec<String> = Vec::new();
                methods.push(up);
                let g = PathRoute { path, plugin: entries[i].2, methods };
                assert(g.methods@.map_values(|m: String| m@) =~= seq![
                    spec_to_uppercase(entries@[i as int].0@),
                ]);
                groups.push(g);
                assert(spec_path_routes(groups@) =~= before.push(spec_path_route(g)));
            },
        }
        i = i + 1;
    }
    assert(ev.take(entries@.len() as int) =~= ev);
    groups
}

/// How the host mounts the routes that the loaded plugins declare, in
/// load order. Routes that core serves itself are skipped; the others
/// are grouped by path (`spec_groups`). The first plugin with an
/// `authenticate` hook guards every request, but only when some plugin
/// route is mounted.
pub fn plan_plugin_routes(plugins: &Vec<PluginRoutes>) -> (r: RoutePlan)
    ensures
        spec_path_routes(r.routes@) == spec_groups(spec_route_entries(plugins@)),
        spec_pairs(r.skipped@) == spec_skipped(plugins@),
        r.auth_plugin == (if spec_route_entries(plugins@).len() == 0 {
            None::<usize>
        } else {
            match spec_first_auth(plugins@) {
                Some(i) => Some(i as usize),
                None => None,
            }
        }),
{
    let mut entries: Vec<(String, String, usize)> = Vec::new();
    let mut skipped: Vec<(String, String)> = Vec::new();
    let mut auth: Option<usize> = None;
    let mut i: usize = 0;
    while i < plugins.len()
        invariant
            i <= plugins@.len(),
            spec_triples(entries@) == spec_route_entries(plugins@.take(i as int)),
            spec_pairs(skipped@) == spec_skipped(plugins@.take(i as int)),
            auth == (match spec_first_auth(plugins@.take(i as int)) {
                Some(k) => Some(k as usize),
                None => None::<usize>,
            }),
            forall|k: int| 0 <= k < entries@.len() ==> entries@[k].2 < i,
        decreases plugins.len() - i,
    {
        proof {
            lemma_take_last(plugins@, i as int);
        }
        if plugins[i].has_auth && auth.is_none() {
            auth = Some(i);
        }
        let routes = &plugins[i].routes;
        let ghost e0 = spec_triples(entries@);
        let ghost s0 = spec_pairs(skipped@);
        let mut j: usize = 0;
        assert(routes@.take(0) =~= Seq::<(String, String)>::empty());
        while j < routes.len()
            invariant
                i < plugins@.len(),
                routes == &plugins@[i as int].routes,
                j <= routes@.len(),
                spec_triples(entries@) == e0 + spec_kept(routes@.take(j as int), i as int),
                spec_pairs(skipped@) == s0 + spec_reserved_of(routes@.take(j as int)),
                forall|k: int| 0 <= k < entries@.len() ==> entries@[k].2 <= i,
            decreases routes.len() - j,
        {
            proof {
                lemma_take_last(routes@, j as int);
            }
            let ghost ev = spec_triples(entries@);
            let ghost sv = spec_pairs(skipped@);
            let m = routes[j].0.clone();
            let p = routes[j].1.clone();
            if is_core_reserved_route(m.as_str(), p.as_str()) {
                skipped.push((m, p));
                assert(spec_pairs(skipped@) =~= sv.push((routes@[j as int].0@, routes@[j as int].1@)));
                assert(spec_triples(entries@) =~= ev);
            } else {
                entries.push((m, p, i));
                assert(spec_triples(entries@) =~= ev.push(
                    (routes@[j as int].0@, routes@[j as int].1@, i as int),
                ));
                assert(spec_pairs(skipped@) =~= sv);
            }
            j = j + 1;
        }
        assert(routes@.take(routes@.len() as int) =~= routes@);
        i = i + 1;
    }
    assert(plugins@.take(plugins@.len() as int) =~= plugins@);
    if entries.len() == 0 {
        return RoutePlan { routes: Vec::new(), skipped, auth_plugin: None };
    }
    let routes = group_routes(&entries);
    RoutePlan { routes, skipped, auth_plugin: auth }
}

} // verus!
