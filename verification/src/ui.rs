//! Serving of the dashboard: asset keys, content types, which responses
//! get the runtime configuration injected, and the routes and budgets of
//! the plugin bridges.

use vstd::prelude::*;
use crate::text::{chars_of, str_eq, string_of_range};

verus! {

/// Default budget of a configuration reload request, in seconds.
pub fn default_reload_timeout() -> (r: u64)
    ensures
        r == 30,
{
    30
}

/// Budget of one call into the UI plugin, in milliseconds.
pub const RESOLVE_FFI_TIMEOUT_MS: u64 = 10_000;

/// Budget of a UI plugin call: the override when one is set (non-zero),
/// else the default of ten seconds.
pub fn resolve_timeout(override_ms: u64) -> (r: u64)
    ensures
        r == (if override_ms == 0 {
            RESOLVE_FFI_TIMEOUT_MS
        } else {
            override_ms
        }),
{
    if override_ms == 0 {
        RESOLVE_FFI_TIMEOUT_MS
    } else {
        override_ms
    }
}

/// Upper-case form of a text (`str::to_uppercase`, full Unicode mapping).
pub uninterp spec fn spec_to_uppercase(s: Seq<char>) -> Seq<char>;

/// `str::to_uppercase`.
#[verifier::external_body]
pub(crate) fn to_uppercase(s: &str) -> (r: String)
    ensures
        r@ == spec_to_uppercase(s@),
{
    s.to_uppercase()
}

/// Routes that core serves itself and that no HTTP plugin may take over.
pub fn is_core_reserved_route(method: &str, path: &str) -> (r: bool)
    ensures
        r == (spec_to_uppercase(method@) == "GET"@ && path@ == "/api/v1/system/license"@),
{
    let m = to_uppercase(method);
    str_eq(m.as_str(), "GET") && str_eq(path, "/api/v1/system/license")
}

/// Whether a text ends with a suffix.
pub open spec fn spec_ends_with(s: Seq<char>, suffix: Seq<char>) -> bool {
    suffix.len() <= s.len() && s.subrange(s.len() - suffix.len(), s.len() as int) == suffix
}

fn ends_with(s: &str, suffix: &str) -> (r: bool)
    ensures
        r == spec_ends_with(s@, suffix@),
{
    let cs = chars_of(s);
    let xs = chars_of(suffix);
    if xs.len() > cs.len() {
        return false;
    }
    let off = cs.len() - xs.len();
    let mut i: usize = 0;
    while i < xs.len()
        invariant
            off + xs@.len() == cs@.len(),
            cs.len() == cs@.len(),
            cs@ == s@,
            xs@ == suffix@,
            i <= xs@.len(),
            forall|k: int| 0 <= k < i ==> xs@[k] == cs@[off + k],
        decreases xs.len() - i,
    {
        if xs[i] != cs[off + i] {
            return false;
        }
        i = i + 1;
    }
    assert(s@.subrange(off as int, s@.len() as int) =~= suffix@);
    true
}

/// Whether a dashboard response is the shell page, which gets the runtime
/// configuration injected and is never cached.
pub fn inject_needed(file_path: &str) -> (r: bool)
    ensures
        r == (file_path@.len() == 0 || file_path@ == "/"@ || file_path@ == "index.html"@
            || spec_ends_with(file_path@, "/index.html"@)),
{
    file_path.is_empty() || str_eq(file_path, "/") || str_eq(file_path, "index.html") || ends_with(
        file_path,
        "/index.html",
    )
}

/// Position of the last `c` in `s`, or `-1`.
pub open spec fn spec_last_index(s: Seq<char>, c: char) -> int
    decreases s.len(),
{
    if s.len() == 0 {
        -1
    } else if s.last() == c {
        s.len() - 1
    } else {
        spec_last_index(s.drop_last(), c)
    }
}

proof fn lemma_last_index(s: Seq<char>, c: char)
    ensures
        -1 <= spec_last_index(s, c) < s.len(),
        spec_last_index(s, c) >= 0 ==> s[spec_last_index(s, c)] == c,
        forall|k: int| spec_last_index(s, c) < k < s.len() ==> s[k] != c,
    decreases s.len(),
{
    if s.len() > 0 && s.last() != c {
        lemma_last_index(s.drop_last(), c);
        assert forall|k: int| spec_last_index(s, c) < k < s.len() implies s[k] != c by {
            if k < s.len() - 1 {
                assert(s.drop_last()[k] == s[k]);
            }
        }
    }
}

/// The text after the last `.` (the whole text when there is none), as
/// `path.rsplit('.').next()` gives it.
pub open spec fn spec_last_dot_part(s: Seq<char>) -> Seq<char> {
    s.subrange(spec_last_index(s, '.') + 1, s.len() as int)
}

fn last_dot_part(s: &str) -> (r: String)
    ensures
        r@ == spec_last_dot_part(s@),
{
    let cs = chars_of(s);
    let mut i: usize = cs.len();
    assert(cs@.subrange(0, i as int) == cs@);
    while i > 0 && cs[i - 1] != '.'
        invariant
            i <= cs@.len(),
            cs@ == s@,
            spec_last_index(s@, '.') == spec_last_index(cs@.subrange(0, i as int), '.'),
        decreases i,
    {
        assert(cs@.subrange(0, i as int).drop_last() == cs@.subrange(0, i - 1));
        i = i - 1;
    }
    proof {
        if i > 0 {
            assert(cs@.subrange(0, i as int).last() == '.');
        }
        assert(spec_last_index(s@, '.') + 1 == i);
    }
    string_of_range(&cs, i, cs.len())
}

/// Content type of an embedded asset, by the text after its last dot.
pub open spec fn spec_mime_for(ext: Seq<char>) -> Seq<char> {
    if ext == "html"@ {
        "text/html"@
    } else if ext == "js"@ || ext == "mjs"@ {
        "application/javascript"@
    } else if ext == "css"@ {
        "text/css"@
    } else if ext == "json"@ {
        "application/json"@
    } else if ext == "svg"@ {
        "image/svg+xml"@
    } else if ext == "png"@ {
        "image/png"@
    } else if ext == "ico"@ {
        "image/x-icon"@
    } else if ext == "woff2"@ {
        "font/woff2"@
    } else if ext == "woff"@ {
        "font/woff"@
    } else if ext == "ttf"@ {
        "font/ttf"@
    } else if ext == "webmanifest"@ {
        "application/manifest+json"@
    } else if ext == "map"@ {
        "application/json"@
    } else {
        "application/octet-stream"@
    }
}

/// Content type of an embedded asset.
pub fn mime_for(path: &str) -> (r: &'static str)
    ensures
        r@ == spec_mime_for(spec_last_dot_part(path@)),
{
    let e = last_dot_part(path);
    let x = e.as_str();
    if str_eq(x, "html") {
        "text/html"
    } else if str_eq(x, "js") || str_eq(x, "mjs") {
        "application/javascript"
    } else if str_eq(x, "css") {
        "text/css"
    } else if str_eq(x, "json") {
        "application/json"
    } else if str_eq(x, "svg") {
        "image/svg+xml"
    } else if str_eq(x, "png") {
        "image/png"
    } else if str_eq(x, "ico") {
        "image/x-icon"
    } else if str_eq(x, "woff2") {
        "font/woff2"
    } else if str_eq(x, "woff") {
        "font/woff"
    } else if str_eq(x, "ttf") {
        "font/ttf"
    } else if str_eq(x, "webmanifest") {
        "application/manifest+json"
    } else if str_eq(x, "map") {
        "application/json"
    } else {
        "application/octet-stream"
    }
}

/// The text without its leading slashes (`trim_start_matches('/')`).
pub open spec fn spec_strip_slashes(s: Seq<char>) -> Seq<char>
    decreases s.len(),
{
    if s.len() > 0 && s[0] == '/' {
        spec_strip_slashes(s.drop_first())
    } else {
        s
    }
}

fn strip_slashes(s: &str) -> (r: String)
    ensures
        r@ == spec_strip_slashes(s@),
{
    let cs = chars_of(s);
    let n = cs.len();
    let mut i: usize = 0;
    assert(cs@.subrange(0, n as int) == cs@);
    while i < n && cs[i] == '/'
        invariant
            i <= n == cs@.len(),
            cs@ == s@,
            spec_strip_slashes(s@) == spec_strip_slashes(cs@.subrange(i as int, n as int)),
        decreases n - i,
    {
        assert(cs@.subrange(i as int, n as int).drop_first() == cs@.subrange(i + 1, n as int));
        i = i + 1;
    }
    string_of_range(&cs, i, n)
}

/// Key of a request path among the embedded dashboard assets: the shell
/// page for `""` and `/`, else the path without its leading slashes.
pub fn embedded_asset_key(file_path: &str) -> (r: String)
    ensures
        r@ == (if file_path@.len() == 0 || file_path@ == "/"@ {
            "index.html"@
        } else {
            spec_strip_slashes(file_path@)
        }),
{
    if file_path.is_empty() || str_eq(file_path, "/") {
        "index.html".to_owned()
    } else {
        strip_slashes(file_path)
    }
}

/// Whether `s` has a `/`-separated segment equal to `..`.
pub open spec fn spec_has_parent_segment(s: Seq<char>) -> bool {
    exists|i: int|
        0 <= i && i + 2 <= s.len() && #[trigger] s[i] == '.' && s[i + 1] == '.' && (i == 0 || s[i - 1]
            == '/') && (i + 2 == s.len() || s[i + 2] == '/')
}

fn has_parent_segment(cs: &Vec<char>) -> (r: bool)
    ensures
        r == spec_has_parent_segment(cs@),
{
    let n = cs.len();
    let mut i: usize = 0;
    while n >= 2 && i < n - 1
        invariant
            n == cs@.len(),
            forall|k: int|
                0 <= k < i && k + 2 <= n ==> !(#[trigger] cs@[k] == '.' && cs@[k + 1] == '.' && (k
                    == 0 || cs@[k - 1] == '/') && (k + 2 == n || cs@[k + 2] == '/')),
        decreases n - i,
    {
        if cs[i] == '.' && cs[i + 1] == '.' && (i == 0 || cs[i - 1] == '/') && (i + 2 == n || cs[i
            + 2] == '/') {
            return true;
        }
        i = i + 1;
    }
    false
}

/// Asset key of a dashboard request for the UI plugin: the path without
/// its leading slashes; the shell page when that is empty or climbs out of
/// the asset root with a `..` segment.
pub fn normalize_ui_path(uri_path: &str) -> (r: String)
    ensures
        r@ == (if spec_strip_slashes(uri_path@).len() == 0 || spec_has_parent_segment(
            spec_strip_slashes(uri_path@),
        ) {
            "index.html"@
        } else {
            spec_strip_slashes(uri_path@)
        }),
{
    let stripped = strip_slashes(uri_path);
    let cs = chars_of(stripped.as_str());
    if cs.len() == 0 || has_parent_segment(&cs) {
        "index.html".to_owned()
    } else {
        stripped
    }
}

/// Text of a byte string under strict UTF-8 decoding
/// (`std::str::from_utf8`): none when the bytes are not valid UTF-8.
pub uninterp spec fn spec_utf8_strict(bytes: Seq<u8>) -> Option<Seq<char>>;

/// `std::str::from_utf8`, with the error collapsed to `None`.
#[verifier::external_body]
pub(crate) fn utf8_strict<'a>(bytes: &'a [u8]) -> (r: Option<&'a str>)
    ensures
        match r {
            Some(t) => spec_utf8_strict(bytes@) == Some(t@),
            None => spec_utf8_strict(bytes@) is None,
        },
{
    match std::str::from_utf8(bytes) {
        Ok(t) => Some(t),
        Err(_) => None,
    }
}

/// Content type of an asset whose plugin gave no usable one.
pub open spec fn spec_octet_stream() -> Seq<char> {
    "application/octet-stream"@
}

/// Content type that the host serves for the mime bytes a UI plugin wrote
/// back: the bytes as text when present and valid UTF-8, else
/// `application/octet-stream`.
pub open spec fn spec_ui_mime(mime: Option<Seq<u8>>) -> Seq<char> {
    match mime {
        None => spec_octet_stream(),
        Some(b) => match spec_utf8_strict(b) {
            Some(t) => t,
            None => spec_octet_stream(),
        },
    }
}

/// The plugin answered with an asset: status zero and a non-empty body.
pub open spec fn spec_ui_found(code: i32, data: Option<Seq<u8>>) -> bool {
    code == 0 && data is Some && data.unwrap().len() > 0
}

fn ui_mime<'a>(mime: Option<&'a [u8]>) -> (r: &'a str)
    ensures
        r@ == spec_ui_mime(
            match mime {
                Some(b) => Some(b@),
                None => None,
            },
        ),
{
    let octet = "application/octet-stream";
    proof {
        reveal_strlit("application/octet-stream");
    }
    match mime {
        None => octet,
        Some(b) => match utf8_strict(b) {
            Some(t) => t,
            None => octet,
        },
    }
}

/// Outcome of a bounded UI asset resolve.
pub enum UiResolveOutcome {
    /// The asset, copied out of the plugin.
    Asset { mime: String, data: Vec<u8> },
    /// The plugin answered "not found" or refused the arguments.
    Missing,
    /// The plugin did not answer within the budget: the host answers 504
    /// and never falls back to the shell page.
    TimedOut,
}

/// An asset borrowed from the plugin's static data.
pub struct UiAsset<'a> {
    pub data: &'a [u8],
    pub mime: &'a str,
}

/// What the plugin's `resolve_asset` entry point wrote back, copied out of
/// plugin memory: its status code, the asset bytes and the mime bytes
/// (`None` for a null pointer).
pub struct UiAnswer {
    pub code: i32,
    pub data: Option<Vec<u8>>,
    pub mime: Option<Vec<u8>>,
}

/// Borrowed view of a resolve answer: the asset when the plugin found one,
/// with its content type decided by `spec_ui_mime`.
pub fn resolve_view<'a>(code: i32, data: Option<&'a [u8]>, mime: Option<&'a [u8]>) -> (r: Option<
    UiAsset<'a>,
>)
    ensures
        ({
            let d = match data {
                Some(b) => Some(b@),
                None => None,
            };
            let m = match mime {
                Some(b) => Some(b@),
                None => None,
            };
            match r {
                None => !spec_ui_found(code, d),
                Some(a) => spec_ui_found(code, d) && a.data@ == d.unwrap() && a.mime@ == spec_ui_mime(m),
            }
        }),
{
    match data {
        Some(bytes) => {
            if code != 0 || bytes.len() == 0 {
                None
            } else {
                Some(UiAsset { data: bytes, mime: ui_mime(mime) })
            }
        },
        None => None,
    }
}

/// Outcome of a bounded resolve from the plugin's answer, `None` when it
/// did not answer within the budget.
pub fn resolve_outcome(answer: Option<UiAnswer>) -> (r: UiResolveOutcome)
    ensures
        match answer {
            None => r is TimedOut,
            Some(a) => {
                let d = match a.data {
                    Some(b) => Some(b@),
                    None => None,
                };
                let m = match a.mime {
                    Some(b) => Some(b@),
                    None => None,
                };
                if spec_ui_found(a.code, d) {
                    &&& r is Asset
                    &&& r->data@ == d.unwrap()
                    &&& r->mime@ == spec_ui_mime(m)
                } else {
                    r is Missing
                }
            },
        },
{
    match answer {
        None => UiResolveOutcome::TimedOut,
        Some(a) => {
            let m = match &a.mime {
                Some(b) => Some(b.as_slice()),
                None => None,
            };
            match a.data {
                Some(bytes) => {
                    if a.code != 0 || bytes.len() == 0 {
                        UiResolveOutcome::Missing
                    } else {
                        let mime = ui_mime(m).to_owned();
                        UiResolveOutcome::Asset { mime, data: bytes }
                    }
                },
                None => UiResolveOutcome::Missing,
            }
        },
    }
}

} // verus!
