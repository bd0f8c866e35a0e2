use std::collections::HashMap;
use super_core::auth::generate_secret;
use super_core::cron_policy::{catchup_runs, effective_catchup, effective_overlap};
use super_core::deps::{find_cycle, first_unknown, names_and_deps};
use super_core::model::{AutoRestart, CronCatchup, CronOverlap, Hooks, ProgramConfig};
use super_core::registry::{ProcessRegistry, RuntimeState};
use super_core::text::{fmt_debug_opt_i64, fmt_i64, has_prefix, is_blank, trim};

fn config(name: &str, deps: &[&str]) -> ProgramConfig {
    ProgramConfig {
        name: name.to_string(),
        command: "/bin/true".to_string(),
        args: vec![],
        env: vec![],
        env_file: None,
        cwd: None,
        user: None,
        autostart: false,
        retry_limit: 0,
        autorestart: AutoRestart::Never,
        exitcodes: vec![],
        startsecs: 0,
        stopsecs: None,
        priority: 999,
        stdout_logfile: None,
        stderr_logfile: None,
        group: None,
        depends_on: deps.iter().map(|d| d.to_string()).collect(),
        health_check: None,
        hooks: Hooks::default(),
        artifact: None,
        cron: None,
        on_overlap: None,
        catchup: None,
        jitter_sec: None,
        max_concurrent: None,
        max_queued: None,
        created_at: 1,
        updated_at: 1,
        restore_path: Some("/srv/app.bak".to_string()),
        cron_last_run: None,
        resource_limits: None,
    }
}

fn strings(v: &[&str]) -> Vec<String> {
    v.iter().map(|s| s.to_string()).collect()
}

#[test]
fn cycle_detection_over_names() {
    let names = strings(&["a", "b", "c"]);
    let acyclic = vec![strings(&["b"]), strings(&["c"]), vec![]];
    assert_eq!(find_cycle(&names, &acyclic), None);
    let cyclic = vec![strings(&["b"]), strings(&["c"]), strings(&["a"])];
    assert!(find_cycle(&names, &cyclic).is_some());
    let self_loop = vec![vec![], strings(&["b"]), vec![]];
    assert_eq!(find_cycle(&names, &self_loop), Some(1));
    let unknown_dep = vec![strings(&["zzz"]), vec![], vec![]];
    assert_eq!(find_cycle(&names, &unknown_dep), None);
}

#[test]
fn dependency_listing_and_unknown_names() {
    let cs = vec![config("web", &["db"]), config("db", &[])];
    let (names, deps) = names_and_deps(&cs);
    assert_eq!(names, strings(&["web", "db"]));
    assert_eq!(deps, vec![strings(&["db"]), vec![]]);
    let mut m = HashMap::new();
    m.insert(1u128, config("web", &[]));
    m.insert(2u128, config("db", &[]));
    let r = ProcessRegistry::new(m, HashMap::new());
    assert_eq!(first_unknown(&r, &strings(&["db", "web"])), None);
    assert_eq!(first_unknown(&r, &strings(&["db", "cache", "queue"])), Some(1));
}

#[test]
fn rollback_outcomes_and_status_codes() {
    let mut m = HashMap::new();
    m.insert(1u128, config("app", &[]));
    let mut r = ProcessRegistry::new(m, HashMap::new());
    assert_eq!(r.status_code(&1), 0);
    assert_eq!(r.finish_rollback(1, false, Some(1), None, 50), None);
    assert!(r.crashed.contains(&1));
    assert_eq!(r.status_code(&1), 2);
    let msg = r.finish_rollback(1, true, Some(1), None, 50).unwrap();
    assert_eq!(msg, "OTA upgrade failed. Automatically rolled back to previous version.");
    assert_eq!(r.programs.get(&1).unwrap().restore_path, None);
    assert!(r.dirty);
    r.insert_running(
        1,
        RuntimeState {
            pid: 5,
            start_time: 1,
            retry_count: 0,
            stopping: false,
            restart_requested: false,
            is_healthy: false,
            health_error: None,
            alert_pending_recovery: false,
            cpu_usage_centi: 0,
            mem_usage: 0,
        },
    );
    assert_eq!(r.status_code(&1), 5);
}

#[test]
fn group_membership() {
    let mut a = config("a", &[]);
    a.group = Some("web".to_string());
    let mut b = config("b", &[]);
    b.group = Some("web".to_string());
    let mut c = config("c", &[]);
    c.group = Some("db".to_string());
    let mut m = HashMap::new();
    m.insert(1u128, a);
    m.insert(2u128, b);
    m.insert(3u128, c);
    let r = ProcessRegistry::new(m, HashMap::new());
    let mut web = r.group_members("web");
    web.sort();
    assert_eq!(web, vec![1, 2]);
    assert_eq!(r.group_members("db"), vec![3]);
    assert!(r.group_members("none").is_empty());
}

#[test]
fn cron_policy_defaults_and_catchup() {
    assert_eq!(effective_overlap(None), CronOverlap::Skip);
    assert_eq!(effective_overlap(Some(CronOverlap::Kill)), CronOverlap::Kill);
    assert_eq!(effective_catchup(None), CronCatchup::Latest);
    assert_eq!(catchup_runs(1, CronCatchup::Skip), 1);
    assert_eq!(catchup_runs(5, CronCatchup::Skip), 0);
    assert_eq!(catchup_runs(5, CronCatchup::Latest), 1);
    assert_eq!(catchup_runs(5, CronCatchup::All), 5);
    assert_eq!(catchup_runs(500, CronCatchup::All), 10);
}

#[test]
fn generated_secrets_are_hex_keys() {
    let a = generate_secret();
    let b = generate_secret();
    assert_eq!(a.len(), 64);
    assert!(a.chars().all(|c| c.is_ascii_hexdigit() && !c.is_ascii_uppercase()));
    assert_ne!(a, b);
}

#[test]
fn text_helpers_match_std() {
    for s in ["", "  a b \t", "\u{3000}x\u{2028}", "abc"] {
        assert_eq!(trim(s), s.trim());
        assert_eq!(is_blank(s), s.trim().is_empty());
    }
    assert_eq!(fmt_i64(-42), "-42");
    assert_eq!(fmt_i64(i64::MIN), i64::MIN.to_string());
    assert_eq!(fmt_debug_opt_i64(Some(3)), "Some(3)");
    assert_eq!(fmt_debug_opt_i64(None), "None");
    assert!(has_prefix("abc", "ab"));
    assert!(!has_prefix("ab", "abc"));
}
