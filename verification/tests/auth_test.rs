use super_core::auth::{
    core_auth_should_activate, extract_token, is_auth_exempt, non_empty_auth_secret,
    resolve_auth_secret, AuthSecretError, AuthSecretSource, AuthState,
};

#[test]
fn exempt_paths() {
    assert!(is_auth_exempt("/health"));
    assert!(is_auth_exempt("/api/v1/auth/status"));
    assert!(!is_auth_exempt("/api/v1/auth/login"));
    assert!(!is_auth_exempt("/api/v1/programs"));
}

#[test]
fn extract_bearer_and_query() {
    assert_eq!(extract_token(Some("Bearer abc"), None).as_deref(), Some("abc"));
    assert_eq!(
        extract_token(None, Some("token=xyz&id=1")).as_deref(),
        Some("xyz")
    );
}

#[test]
fn plugin_always_wins() {
    assert!(!core_auth_should_activate(Some("secret"), true));
    assert!(!core_auth_should_activate(None, true));
}

#[test]
fn no_secret_means_open() {
    assert!(!core_auth_should_activate(None, false));
    assert!(!core_auth_should_activate(Some(""), false));
    assert!(!core_auth_should_activate(Some("   "), false));
}

#[test]
fn non_empty_secret_activates() {
    assert!(core_auth_should_activate(Some("my-secret"), false));
    assert!(core_auth_should_activate(Some("  padded  "), false));
}

#[test]
fn config_secret_wins() {
    let path = "/tmp/does-not-matter/auth.key";
    let (s, src) = resolve_auth_secret(Some("from-config"), path, None).ok().unwrap();
    assert_eq!(s, "from-config");
    assert!(matches!(src, AuthSecretSource::Config));
}

#[test]
fn generates_then_reloads_same_key() {
    let path = "/tmp/keys/auth.key";
    let (s1, src1) = resolve_auth_secret(None, path, None).ok().unwrap();
    assert!(matches!(src1, AuthSecretSource::Generated { .. }));
    assert_eq!(s1.len(), 64);
    // The caller writes `s1` and a newline to the key file; the next start reads it.
    let on_disk = super_core::auth::key_file_text(&s1);
    assert_eq!(on_disk, format!("{s1}\n"));
    let (s2, src2) = resolve_auth_secret(None, path, Some(&on_disk)).ok().unwrap();
    assert!(matches!(src2, AuthSecretSource::File { .. }));
    assert_eq!(s1, s2);
}

#[test]
fn empty_config_falls_through_to_file() {
    let (s, _) = resolve_auth_secret(Some("  "), "/tmp/auth.key", None).ok().unwrap();
    assert_eq!(s.len(), 64);
}

#[test]
fn generated_secret_is_lower_hex() {
    let (s, _) = resolve_auth_secret(None, "/tmp/auth.key", None).ok().unwrap();
    assert!(s.chars().all(|c| c.is_ascii_digit() || ('a'..='f').contains(&c)));
    let (t, _) = resolve_auth_secret(None, "/tmp/auth.key", None).ok().unwrap();
    assert_ne!(s, t);
}

#[test]
fn blank_key_file_is_an_error() {
    match resolve_auth_secret(None, "/data/auth.key", Some(" \n")) {
        Err(e) => {
            assert!(matches!(e, AuthSecretError::EmptyKeyFile { .. }));
            assert_eq!(
                e.message(),
                "auth key file /data/auth.key is empty — delete it to regenerate, or set auth_secret in conf/super.toml"
            );
        }
        Ok(_) => panic!("blank key file must be refused"),
    }
}

#[test]
fn file_secret_is_trimmed() {
    let (s, src) = resolve_auth_secret(Some(""), "/k", Some("\t abc \r\n")).ok().unwrap();
    assert_eq!(s, "abc");
    match src {
        AuthSecretSource::File { path } => assert_eq!(path, "/k"),
        _ => panic!("expected the key file"),
    }
}

#[test]
fn non_empty_secret_is_trimmed_unicode() {
    assert_eq!(non_empty_auth_secret(Some("\u{3000} s \u{a0}")).as_deref(), Some("s"));
    assert_eq!(non_empty_auth_secret(Some("\u{2003}")), None);
    assert_eq!(non_empty_auth_secret(None), None);
}

#[test]
fn bearer_edge_cases() {
    assert_eq!(extract_token(Some("Bearer "), None), None);
    assert_eq!(extract_token(Some("bearer abc"), None), None);
    assert_eq!(extract_token(Some("Basic abc"), Some("id=1&token=q")).as_deref(), Some("q"));
    assert_eq!(extract_token(None, Some("token=&token=second")).as_deref(), Some("second"));
    assert_eq!(extract_token(None, Some("a=b")), None);
    assert_eq!(extract_token(None, None), None);
    assert_eq!(extract_token(None, Some("token=a%20b")).as_deref(), Some("a%20b"));
}

#[test]
fn gate_admits_exempt_and_matching_tokens() {
    let st = AuthState::new("s3cret".to_string());
    assert!(st.admits("/health", None, None));
    assert!(st.admits("/assets/app.js", None, None));
    assert!(st.admits("/api/docs/index.html", None, None));
    assert!(!st.admits("/api/v1/programs", None, None));
    assert!(!st.admits("/api/v1/programs", Some("Bearer wrong"), None));
    assert!(st.admits("/api/v1/programs", Some("Bearer s3cret"), None));
    assert!(st.admits("/ws", None, Some("token=s3cret")));
    assert!(st.secret_matches("s3cret"));
    assert!(!st.secret_matches("s3cret "));
}
