use super_core::licensing::{
    plan_plugins, plugin_ids, plugins_to_load, validate_licensed_auth_secret,
    validate_licensed_security, LicenseError, LicenseOutcome, RunMode,
};

fn strings(v: &[&str]) -> Vec<String> {
    v.iter().map(|s| s.to_string()).collect()
}

#[test]
fn licensed_requires_security_in_claims() {
    let grants = strings(&["ui"]);
    let err = validate_licensed_security(
        RunMode::Licensed,
        Some(&grants),
        &vec![],
        &vec![],
        "/tmp/plugins",
    )
    .unwrap_err();
    assert!(err.message().contains("security plugin"));
}

#[test]
fn licensed_requires_security_on_disk() {
    let grants = strings(&["security", "ui"]);
    let err = validate_licensed_security(
        RunMode::Licensed,
        Some(&grants),
        &vec![],
        &vec![],
        "/tmp/plugins",
    )
    .unwrap_err();
    assert!(err.message().contains("security.so"));
}

#[test]
fn licensed_requires_auth_secret() {
    let err = validate_licensed_auth_secret(RunMode::Licensed, &strings(&["security"]), None)
        .unwrap_err();
    assert!(err.message().contains("auth_secret"));
}

#[test]
fn licensed_reports_security_dlopen_failure() {
    let grants = strings(&["security"]);
    let err = validate_licensed_security(
        RunMode::Licensed,
        Some(&grants),
        &vec![],
        &strings(&["security"]),
        "/tmp/plugins",
    )
    .unwrap_err();
    assert!(err.message().contains("failed to load"));
}

#[test]
fn oss_skips_licensed_security_checks() {
    validate_licensed_security(RunMode::Oss, None, &vec![], &vec![], ".").unwrap();
    validate_licensed_auth_secret(RunMode::Oss, &vec![], None).unwrap();
}

#[test]
fn scan_finds_so_files() {
    let ids = plugin_ids(&strings(&["security.so", "readme.txt"]));
    assert_eq!(ids, vec!["security"]);
}

#[test]
fn scan_finds_dylib_files() {
    let ids = plugin_ids(&strings(&["isolation.dylib"]));
    assert_eq!(ids, vec!["isolation"]);
}

#[test]
fn plugin_ids_sorted_unique() {
    let ids = plugin_ids(&strings(&[
        "zeta.so", "alpha.dylib", "alpha.so", ".so", "noext", "a.b.so", "x.SO", "b.so.bak",
    ]));
    assert_eq!(ids, vec!["a.b", "alpha", "zeta"]);
}

#[test]
fn licensed_missing_claims_and_ok_paths() {
    let e = validate_licensed_security(RunMode::Licensed, None, &vec![], &vec![], "/p").unwrap_err();
    assert!(matches!(e, LicenseError::NoClaims));
    assert_eq!(e.message(), "licensed mode requires license claims");
    let g = strings(&["security"]);
    validate_licensed_security(RunMode::Licensed, Some(&g), &g, &g, "/p").unwrap();
    let e = validate_licensed_security(RunMode::Licensed, Some(&g), &vec![], &vec![], "/p").unwrap_err();
    assert_eq!(
        e.message(),
        "Licensed deployment requires security.so (or security.dylib) under /p. The security plugin is included with every subscription."
    );
}

#[test]
fn auth_secret_checks() {
    let sec = strings(&["security"]);
    assert!(validate_licensed_auth_secret(RunMode::Licensed, &sec, Some("  ")).is_err());
    assert!(validate_licensed_auth_secret(RunMode::Licensed, &sec, Some("k")).is_ok());
    assert!(validate_licensed_auth_secret(RunMode::Licensed, &vec![], None).is_ok());
    assert_eq!(
        validate_licensed_auth_secret(RunMode::Licensed, &sec, None).unwrap_err().message(),
        "Licensed deployment requires auth_secret in conf/super.toml for the security plugin."
    );
}

#[test]
fn only_granted_installed_plugins_load() {
    let installed = strings(&["notify", "security", "ui"]);
    let grants = strings(&["security", "ui", "isolation"]);
    assert_eq!(plugins_to_load(&installed, &grants), vec!["security", "ui"]);
    let plan = plan_plugins(&LicenseOutcome::Valid { grants: grants.clone() }, true, &installed);
    assert_eq!(plan.mode, RunMode::Licensed);
    assert_eq!(plan.licensed_plugins, grants);
    assert_eq!(plan.to_load, vec!["security", "ui"]);
    let plan = plan_plugins(&LicenseOutcome::Valid { grants }, false, &installed);
    assert_eq!(plan.mode, RunMode::Oss);
    assert!(plan.to_load.is_empty());
    let plan = plan_plugins(&LicenseOutcome::Missing, true, &installed);
    assert_eq!(plan.mode, RunMode::Oss);
    let plan = plan_plugins(&LicenseOutcome::Invalid { reason: "bad".into() }, true, &installed);
    assert!(plan.licensed_plugins.is_empty());
}
