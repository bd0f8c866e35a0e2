use std::collections::HashMap;
use super_core::batch::export_request;
use super_core::context::build_context;
use super_core::logs::{last_lines, lines_of};
use super_core::manager::event_prune_day;
use super_core::model::{ArtifactConfig, AutoRestart, Hooks, ProgramConfig};
use super_core::ota::OtaRestart;
use super_core::registry::{ProcessRegistry, RuntimeState};
use super_core::store::{recovery, Recovery};

fn config(name: &str, group: Option<&str>) -> ProgramConfig {
    ProgramConfig {
        name: name.to_string(),
        command: "/bin/sleep".to_string(),
        args: vec![],
        env: vec![("A".to_string(), "env".to_string())],
        env_file: None,
        cwd: None,
        user: None,
        autostart: false,
        retry_limit: 3,
        autorestart: AutoRestart::Unexpected,
        exitcodes: vec![0],
        startsecs: 1,
        stopsecs: None,
        priority: 999,
        stdout_logfile: None,
        stderr_logfile: None,
        group: group.map(|g| g.to_string()),
        depends_on: vec![],
        health_check: None,
        hooks: Hooks::default(),
        artifact: None,
        cron: Some("0 * * * * *".to_string()),
        on_overlap: None,
        catchup: None,
        jitter_sec: Some(5),
        max_concurrent: None,
        max_queued: None,
        created_at: 3,
        updated_at: 4,
        restore_path: None,
        cron_last_run: None,
        resource_limits: None,
    }
}

fn running(pid: u32) -> RuntimeState {
    RuntimeState {
        pid,
        start_time: 100,
        retry_count: 0,
        stopping: false,
        restart_requested: false,
        is_healthy: false,
        health_error: None,
        alert_pending_recovery: false,
        cpu_usage_centi: 0,
        mem_usage: 0,
    }
}

fn registry(programs: Vec<(u128, ProgramConfig)>) -> ProcessRegistry {
    let mut m = HashMap::new();
    for (id, c) in programs {
        m.insert(id, c);
    }
    ProcessRegistry::new(m, HashMap::new())
}

fn get<'a>(env: &'a [(String, String)], k: &str) -> Option<&'a str> {
    env.iter().find(|(a, _)| a == k).map(|(_, v)| v.as_str())
}

#[test]
fn ota_transaction_steps() {
    let mut c = config("app", None);
    c.artifact = Some(ArtifactConfig {
        source: "http://x/app".to_string(),
        destination: "/opt/app/bin".to_string(),
        checksum: "abc".to_string(),
        extract: false,
    });
    let mut r = registry(vec![(1, c), (2, config("b", None))]);
    assert_eq!(r.artifact_destination(&1).as_deref(), Some("/opt/app/bin"));
    assert_eq!(r.artifact_destination(&2), None);
    r.record_ota_backup(1, "/opt/app/bin.bak".to_string(), 50);
    assert_eq!(r.programs[&1].restore_path.as_deref(), Some("/opt/app/bin.bak"));
    assert!(r.programs[&1].autostart);
    assert_eq!(r.programs[&1].updated_at, 50);
    assert!(r.dirty);
    assert_eq!(r.ota_verify_timeout(&1), None);
    assert_eq!(r.ota_restart(1), OtaRestart::Spawn);
    r.insert_running(1, running(77));
    assert_eq!(r.ota_verify_timeout(&1), Some(77));
    assert_eq!(r.ota_restart(1), OtaRestart::Signal { pid: 77 });
    assert!(r.get_running(&1).unwrap().restart_requested);
    assert_eq!(r.ota_verify_timeout(&1), None);
    r.abort_ota_swap(1);
    assert_eq!(r.programs[&1].restore_path, None);
}

#[test]
fn spawn_context_layers_variables() {
    let c = config("web", Some("front"));
    let file_env = vec![
        ("A".to_string(), "file".to_string()),
        ("B".to_string(), "1".to_string()),
        ("B".to_string(), "2".to_string()),
    ];
    let env = build_context(&file_env, &c, 1, "host1", Some(42), Some(-3), Some(9));
    assert_eq!(get(&env, "A"), Some("env"));
    assert_eq!(get(&env, "B"), Some("2"));
    assert_eq!(get(&env, "SUPER_HOSTNAME"), Some("host1"));
    assert_eq!(get(&env, "SUPER_ID"), Some("00000000-0000-0000-0000-000000000001"));
    assert_eq!(get(&env, "SUPER_NAME"), Some("web"));
    assert_eq!(get(&env, "SUPER_GROUP"), Some("front"));
    assert_eq!(get(&env, "SUPER_PID"), Some("42"));
    assert_eq!(get(&env, "SUPER_EXIT_CODE"), Some("-3"));
    assert_eq!(get(&env, "SUPER_UPTIME_SECS"), Some("9"));
    assert_eq!(env.len(), 9);
    let bare = build_context(&vec![], &config("x", None), 1, "h", None, None, None);
    assert_eq!(get(&bare, "SUPER_PID"), None);
    assert_eq!(get(&bare, "SUPER_GROUP"), None);
    assert_eq!(bare.len(), 4);
}

#[test]
fn batch_targets_by_selector() {
    let r = registry(vec![(1, config("a", Some("g"))), (2, config("b", None)), (3, config("c", Some("g")))]);
    let mut all = r.batch_targets(true, None, None);
    all.sort();
    assert_eq!(all, vec![1, 2, 3]);
    let mut g = r.batch_targets(false, Some("g"), None);
    g.sort();
    assert_eq!(g, vec![1, 3]);
    assert_eq!(r.batch_targets(false, None, Some(&vec![3, 9, 1, 3])), vec![3, 1, 3]);
    assert!(r.batch_targets(false, None, None).is_empty());
}

#[test]
fn export_drops_cron_policy_but_keeps_expression() {
    let c = config("job", None);
    let req = export_request(&c);
    assert_eq!(req.name.as_deref(), Some("job"));
    assert_eq!(req.cron.as_deref(), Some("0 * * * * *"));
    assert_eq!(req.jitter_sec, None);
    assert_eq!(req.numprocs, 1);
    assert_eq!(req.env, c.env);
    let r = registry(vec![(1, c)]);
    assert_eq!(r.export_stack().len(), 1);
}

#[test]
fn snapshot_recovery_choice() {
    assert_eq!(recovery(true, true, false, false), Recovery::Primary);
    assert_eq!(recovery(false, false, true, true), Recovery::Empty);
    assert_eq!(recovery(false, true, true, true), Recovery::Backup);
    assert_eq!(recovery(false, true, true, false), Recovery::Corrupted);
    assert_eq!(recovery(false, true, false, false), Recovery::Corrupted);
}

#[test]
fn last_lines_of_log_content() {
    assert_eq!(lines_of("a\r\nb\n\nc"), vec!["a", "b", "", "c"]);
    assert_eq!(lines_of("a\n"), vec!["a"]);
    assert_eq!(lines_of("a\r"), vec!["a\r"]);
    assert_eq!(last_lines("", 5), None);
    assert_eq!(last_lines("1\n2\n3\n", 2).as_deref(), Some("2\n3"));
    assert_eq!(last_lines("1\n2\n3", 10).as_deref(), Some("1\n2\n3"));
    assert_eq!(last_lines("1\n2", 0).as_deref(), Some(""));
}

#[test]
fn event_prune_once_per_day() {
    assert_eq!(event_prune_day(0, 200_000, 0), None);
    assert_eq!(event_prune_day(7, 200_000, 2), None);
    assert_eq!(event_prune_day(7, 200_000, 1), Some(2));
}
