//! Built-in HTTP authentication: a static Bearer secret from `auth_secret`
//! or from the key file `data/auth.key`.
//!
//! When the licensed `security` plugin owns authentication this gate stays
//! off, so that exactly one gate is active.

use rand::RngCore;
use vstd::prelude::*;
use crate::text::{
    chars_of, concat2, concat3, has_prefix, spec_is_whitespace, spec_trim, spec_trim_end,
    spec_trim_start, str_eq, string_of_range, trim, spec_hex_digit,
};

verus! {

/// The configured secret once trimmed, when it is not empty.
pub open spec fn spec_non_empty_secret(config_secret: Option<Seq<char>>) -> Option<Seq<char>> {
    match config_secret {
        Some(s) => if spec_trim(s).len() > 0 {
            Some(spec_trim(s))
        } else {
            None
        },
        None => None,
    }
}

/// View of an optional string slice.
pub open spec fn opt_view(s: Option<&str>) -> Option<Seq<char>> {
    match s {
        Some(t) => Some(t@),
        None => None,
    }
}

/// Trimmed non-empty `auth_secret` from the configuration, if any.
pub fn non_empty_auth_secret(config_secret: Option<&str>) -> (r: Option<String>)
    ensures
        match r {
            Some(s) => spec_non_empty_secret(opt_view(config_secret)) == Some(s@),
            None => spec_non_empty_secret(opt_view(config_secret)) is None,
        },
{
    match config_secret {
        Some(s) => {
            let t = trim(s);
            if t.as_str().is_empty() {
                None
            } else {
                Some(t)
            }
        },
        None => None,
    }
}

/// Whether the built-in auth gate wraps the API router: never when the
/// plugin's authentication is active, else exactly when a secret is set.
pub fn core_auth_should_activate(config_secret: Option<&str>, plugin_auth_active: bool) -> (r:
    bool)
    ensures
        r == (!plugin_auth_active && spec_non_empty_secret(opt_view(config_secret)) is Some),
{
    if plugin_auth_active {
        return false;
    }
    non_empty_auth_secret(config_secret).is_some()
}

/// Shared state of the auth gate: the admin secret.
pub struct AuthState {
    pub secret: String,
}

impl AuthState {
    pub fn new(secret: String) -> (r: Self)
        ensures
            r.secret@ == secret@,
    {
        AuthState { secret }
    }

    /// Whether a presented token is the secret (plain equality).
    pub fn secret_matches(&self, token: &str) -> (r: bool)
        ensures
            r == (token@ == self.secret@),
    {
        str_eq(token, self.secret.as_str())
    }
}

/// Paths that skip the Bearer check: UI discovery and probes.
pub open spec fn spec_auth_exempt(path: Seq<char>) -> bool {
    ||| path == "/"@
    ||| path == "/health"@
    ||| path == "/metrics"@
    ||| path == "/api/v1/openapi.json"@
    ||| path == "/api/v1/auth/status"@
    ||| "/api/docs"@.is_prefix_of(path)
    ||| "/assets"@.is_prefix_of(path)
}

/// Whether a request path skips authentication (`/api/v1/auth/login` does
/// not: the login sends the typed secret as Bearer).
pub fn is_auth_exempt(path: &str) -> (r: bool)
    ensures
        r == spec_auth_exempt(path@),
{
    str_eq(path, "/") || str_eq(path, "/health") || str_eq(path, "/metrics") || str_eq(
        path,
        "/api/v1/openapi.json",
    ) || str_eq(path, "/api/v1/auth/status") || has_prefix(path, "/api/docs") || has_prefix(
        path,
        "/assets",
    )
}

/// End of the `&`-separated segment of `q` that starts at `from`.
pub open spec fn spec_segment_end(q: Seq<char>, from: int) -> int
    decreases q.len() - from,
{
    if from >= q.len() || q[from] == '&' {
        from
    } else {
        spec_segment_end(q, from + 1)
    }
}

pub proof fn lemma_segment_end(q: Seq<char>, from: int)
    requires
        0 <= from <= q.len(),
    ensures
        from <= spec_segment_end(q, from) <= q.len(),
        forall|k: int| from <= k < spec_segment_end(q, from) ==> q[k] != '&',
        spec_segment_end(q, from) < q.len() ==> q[spec_segment_end(q, from)] == '&',
    decreases q.len() - from,
{
    if from < q.len() && q[from] != '&' {
        lemma_segment_end(q, from + 1);
    }
}

/// Value of the first `token=` pair of the query string from position
/// `from` on whose value is not empty.
pub open spec fn spec_token_from(q: Seq<char>, from: int) -> Option<Seq<char>>
    decreases q.len() - from,
{
    if 0 <= from <= q.len() {
        let end = spec_segment_end(q, from);
        let seg = q.subrange(from, end);
        proof {
            lemma_segment_end(q, from);
        }
        if "token="@.is_prefix_of(seg) && seg.len() > "token="@.len() {
            Some(seg.subrange("token="@.len() as int, seg.len() as int))
        } else if end < q.len() {
            spec_token_from(q, end + 1)
        } else {
            None
        }
    } else {
        None
    }
}

/// Token of a request: the non-empty rest of an `Authorization` value that
/// starts with `Bearer `, else the first non-empty `token=` query value.
pub open spec fn spec_extract_token(authorization: Option<Seq<char>>, query: Option<Seq<char>>) -> Option<
    Seq<char>,
> {
    let bearer = "Bearer "@;
    match authorization {
        Some(a) if bearer.is_prefix_of(a) && a.len() > bearer.len() => Some(
            a.subrange(bearer.len() as int, a.len() as int),
        ),
        _ => match query {
            Some(q) => spec_token_from(q, 0),
            None => spec_token_from(Seq::empty(), 0),
        },
    }
}

/// Whether `cs[at..]` starts with the characters of `lit`.
fn chars_start_with(cs: &Vec<char>, at: usize, end: usize, lit: &str) -> (r: bool)
    requires
        at <= end <= cs.len(),
    ensures
        r == lit@.is_prefix_of(cs@.subrange(at as int, end as int)),
{
    let ls = chars_of(lit);
    if ls.len() > end - at {
        return false;
    }
    let mut i: usize = 0;
    while i < ls.len()
        invariant
            at <= end <= cs.len(),
            i <= ls.len() <= end - at,
            ls@ == lit@,
            forall|k: int| 0 <= k < i ==> ls@[k] == cs@[at + k],
        decreases ls.len() - i,
    {
        if ls[i] != cs[at + i] {
            return false;
        }
        i = i + 1;
    }
    assert(ls@ =~= cs@.subrange(at as int, end as int).subrange(0, ls@.len() as int));
    true
}

/// Bearer token from the `Authorization` header value, or the `token=`
/// query parameter (used by WebSocket clients).
pub fn extract_token(authorization: Option<&str>, query: Option<&str>) -> (r: Option<String>)
    ensures
        match r {
            Some(t) => spec_extract_token(opt_view(authorization), opt_view(query)) == Some(t@),
            None => spec_extract_token(opt_view(authorization), opt_view(query)) is None,
        },
{
    proof {
        reveal_strlit("Bearer ");
        reveal_strlit("token=");
    }
    match authorization {
        Some(a) => {
            let cs = chars_of(a);
            if chars_start_with(&cs, 0, cs.len(), "Bearer ") && cs.len() > 7 {
                assert(cs@.subrange(0, cs@.len() as int) == a@);
                return Some(string_of_range(&cs, 7, cs.len()));
            }
            assert(cs@.subrange(0, cs@.len() as int) == a@);
        },
        None => {},
    }
    let q: &str = match query {
        Some(q) => q,
        None => "",
    };
    proof {
        reveal_strlit("");
    }
    let cs = chars_of(q);
    let n = cs.len();
    let mut from: usize = 0;
    assert(spec_extract_token(opt_view(authorization), opt_view(query)) == spec_token_from(q@, 0));
    loop
        invariant
            spec_extract_token(opt_view(authorization), opt_view(query)) == spec_token_from(q@, 0),
            from <= n == cs@.len(),
            cs@ == q@,
            spec_token_from(q@, 0) == spec_token_from(q@, from as int),
        decreases n - from,
    {
        let mut end = from;
        while end < n && cs[end] != '&'
            invariant
                from <= end <= n == cs@.len(),
                spec_segment_end(cs@, from as int) == spec_segment_end(cs@, end as int),
            decreases n - end,
        {
            end = end + 1;
        }
        proof {
            reveal_strlit("token=");
            lemma_segment_end(cs@, from as int);
            assert(spec_segment_end(cs@, end as int) == end);
            assert(spec_segment_end(cs@, from as int) == end);
        }
        if chars_start_with(&cs, from, end, "token=") && end - from > 6 {
            let v = string_of_range(&cs, from + 6, end);
            assert(v@ == cs@.subrange(from as int, end as int).subrange(6, end - from));
            assert(spec_token_from(q@, from as int) == Some(v@));
            return Some(v);
        }
        if end < n {
            assert(spec_token_from(q@, from as int) == spec_token_from(q@, end + 1));
            from = end + 1;
        } else {
            assert(spec_token_from(q@, from as int) is None);
            return None;
        }
    }
}

impl AuthState {
    /// Decision of the auth gate on a request: exempt paths pass; any other
    /// passes only with a token equal to the secret.
    pub fn admits(&self, path: &str, authorization: Option<&str>, query: Option<&str>) -> (r: bool)
        ensures
            r == (spec_auth_exempt(path@) || spec_extract_token(opt_view(authorization), opt_view(query))
                == Some(self.secret@)),
    {
        if is_auth_exempt(path) {
            return true;
        }
        match extract_token(authorization, query) {
            Some(token) => self.secret_matches(token.as_str()),
            None => false,
        }
    }
}

/// Where the active secret came from.
#[derive(Debug)]
pub enum AuthSecretSource {
    /// Explicit `auth_secret` in the configuration.
    Config,
    /// Loaded from an existing key file.
    File { path: String },
    /// Freshly generated; the caller writes it to the key file.
    Generated { path: String },
}

/// Why no secret could be resolved.
#[derive(Debug)]
pub enum AuthSecretError {
    /// The key file exists but holds only whitespace.
    EmptyKeyFile { path: String },
}

impl AuthSecretError {
    pub fn message(&self) -> (r: String)
        ensures
            match self {
                AuthSecretError::EmptyKeyFile { path } => r@ == "auth key file "@ + path@
                    + " is empty — delete it to regenerate, or set auth_secret in conf/super.toml"@,
            },
    {
        match self {
            AuthSecretError::EmptyKeyFile { path } => concat3(
                "auth key file ",
                path.as_str(),
                " is empty — delete it to regenerate, or set auth_secret in conf/super.toml",
            ),
        }
    }
}

/// Lower-case hexadecimal text of bytes, two digits per byte, high first.
pub open spec fn spec_hex(bytes: Seq<u8>) -> Seq<char>
    decreases bytes.len(),
{
    if bytes.len() == 0 {
        Seq::empty()
    } else {
        spec_hex(bytes.drop_last()) + seq![
            spec_hex_digit((bytes.last() / 16) as nat),
            spec_hex_digit((bytes.last() % 16) as nat),
        ]
    }
}

pub proof fn lemma_hex_len(bytes: Seq<u8>)
    ensures
        spec_hex(bytes).len() == 2 * bytes.len(),
    decreases bytes.len(),
{
    if bytes.len() > 0 {
        lemma_hex_len(bytes.drop_last());
    }
}

/// `hex::encode`: lower-case hexadecimal, two digits per byte.
#[verifier::external_body]
pub(crate) fn hex_encode(bytes: &[u8]) -> (r: String)
    ensures
        r@ == spec_hex(bytes@),
{
    hex::encode(bytes)
}

/// Number of random bytes in a generated secret.
pub const SECRET_BYTES: usize = 32;

/// `n` bytes drawn from the operating system's generator
/// (`rand::rngs::OsRng::fill_bytes`); only the length is claimed.
#[verifier::external_body]
fn os_random_bytes(n: usize) -> (r: Vec<u8>)
    ensures
        r.len() == n,
{
    let mut bytes = vec![0u8; n];
    rand::rngs::OsRng.fill_bytes(&mut bytes);
    bytes
}

/// A fresh secret: 32 random bytes in hexadecimal (64 characters).
pub fn generate_secret() -> (r: String)
    ensures
        r@.len() == 64,
        exists|b: Seq<u8>| b.len() == 32 && r@ == spec_hex(b),
{
    let bytes = os_random_bytes(SECRET_BYTES);
    let s = hex_encode(bytes.as_slice());
    proof {
        lemma_hex_len(bytes@);
    }
    s
}

/// What [`resolve_auth_secret`] decides, by case: the configured secret
/// wins; else the trimmed key file, an error when it is blank; else a fresh
/// secret.
pub open spec fn spec_resolved(
    config_secret: Option<Seq<char>>,
    key_path: Seq<char>,
    key_file: Option<Seq<char>>,
    r: Result<(String, AuthSecretSource), AuthSecretError>,
) -> bool {
    match spec_non_empty_secret(config_secret) {
        Some(s) => r matches Ok((t, src)) && t@ == s && src is Config,
        None => match key_file {
            Some(raw) => if spec_trim(raw).len() == 0 {
                r matches Err(AuthSecretError::EmptyKeyFile { path }) && path@ == key_path
            } else {
                r matches Ok((t, AuthSecretSource::File { path })) && t@ == spec_trim(raw)
                    && path@ == key_path
            },
            None => r matches Ok((t, AuthSecretSource::Generated { path })) && path@ == key_path
                && t@.len() == 64 && exists|b: Seq<u8>| b.len() == 32 && t@ == spec_hex(b),
        },
    }
}

/// Resolve the admin Bearer secret: a non-empty configured secret, else the
/// content of the key file at `key_path` (`key_file`, read by the caller
/// when the file exists), else a generated one that the caller writes to
/// `key_path`.
pub fn resolve_auth_secret(config_secret: Option<&str>, key_path: &str, key_file: Option<&str>) -> (r:
    Result<(String, AuthSecretSource), AuthSecretError>)
    ensures
        spec_resolved(opt_view(config_secret), key_path@, opt_view(key_file), r),
{
    if let Some(s) = non_empty_auth_secret(config_secret) {
        return Ok((s, AuthSecretSource::Config));
    }
    match key_file {
        Some(raw) => {
            let secret = trim(raw);
            if secret.as_str().is_empty() {
                Err(AuthSecretError::EmptyKeyFile { path: key_path.to_owned() })
            } else {
                Ok((secret, AuthSecretSource::File { path: key_path.to_owned() }))
            }
        },
        None => {
            let secret = generate_secret();
            Ok((secret, AuthSecretSource::Generated { path: key_path.to_owned() }))
        },
    }
}

/// Text of the key file written for a generated secret: the secret on a
/// line of its own.
pub open spec fn spec_key_file_text(secret: Seq<char>) -> Seq<char> {
    secret + seq!['\n']
}

/// The key file text for `secret` (see [`spec_key_file_text`]).
pub fn key_file_text(secret: &str) -> (r: String)
    ensures
        r@ == spec_key_file_text(secret@),
{
    proof {
        reveal_strlit("\n");
    }
    concat2(secret, "\n")
}

/// No hexadecimal digit is whitespace.
proof fn lemma_hex_no_whitespace(bytes: Seq<u8>)
    ensures
        forall|i: int| 0 <= i < spec_hex(bytes).len() ==> !spec_is_whitespace(#[trigger] spec_hex(bytes)[i]),
    decreases bytes.len(),
{
    if bytes.len() > 0 {
        lemma_hex_no_whitespace(bytes.drop_last());
        let h = spec_hex(bytes.drop_last());
        let hi = spec_hex_digit((bytes.last() / 16) as nat);
        let lo = spec_hex_digit((bytes.last() % 16) as nat);
        assert(spec_hex(bytes) == h + seq![hi, lo]);
        assert(!spec_is_whitespace(hi) && !spec_is_whitespace(lo));
        assert forall|i: int| 0 <= i < spec_hex(bytes).len() implies !spec_is_whitespace(
            #[trigger] spec_hex(bytes)[i],
        ) by {
            if i < h.len() {
                assert(spec_hex(bytes)[i] == h[i]);
            }
        }
    }
}

/// A generated key, once written to the key file, is loaded back
/// unchanged: resolving again with that file (and still no configured
/// secret) gives the same secret, taken from the file.
pub proof fn lemma_generated_key_reloads(
    config_secret: Option<Seq<char>>,
    key_path: Seq<char>,
    secret: Seq<char>,
    first: Result<(String, AuthSecretSource), AuthSecretError>,
    second: Result<(String, AuthSecretSource), AuthSecretError>,
)
    requires
        spec_resolved(config_secret, key_path, None, first),
        first matches Ok((s, AuthSecretSource::Generated { .. })) && s@ == secret,
        spec_resolved(config_secret, key_path, Some(spec_key_file_text(secret)), second),
    ensures
        second matches Ok((t, AuthSecretSource::File { path })) && t@ == secret && path@ == key_path,
{
    let b = choose|b: Seq<u8>| b.len() == 32 && secret == spec_hex(b);
    lemma_hex_no_whitespace(b);
    lemma_hex_len(b);
    let f = spec_key_file_text(secret);
    assert(f.len() > 0 && !spec_is_whitespace(f[0]));
    assert(spec_trim_start(f) == f);
    assert(f.drop_last() =~= secret);
    assert(spec_is_whitespace(f.last()));
    assert(!spec_is_whitespace(secret.last()));
    assert(spec_trim_end(secret) == secret);
    assert(spec_trim_end(f) == spec_trim_end(secret));
    assert(spec_trim(f) == secret);
}

} // verus!
