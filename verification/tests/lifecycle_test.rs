use std::collections::HashMap;
use super_core::lifecycle::{HealthRestartPlan, RestartPlan};
use super_core::manager::{parse_signal, SignalKind};
use super_core::model::{AutoRestart, HealthTuning, Hooks, ProcessStatus, ProgramConfig};
use super_core::registry::{ProcessRegistry, RuntimeState};

fn config(name: &str) -> ProgramConfig {
    ProgramConfig {
        name: name.to_string(),
        command: "/bin/sleep".to_string(),
        args: vec![],
        env: vec![],
        env_file: None,
        cwd: None,
        user: None,
        autostart: false,
        retry_limit: 2,
        autorestart: AutoRestart::Unexpected,
        exitcodes: vec![0],
        startsecs: 1,
        stopsecs: Some(7),
        priority: 999,
        stdout_logfile: None,
        stderr_logfile: None,
        group: None,
        depends_on: vec![],
        health_check: Some(Some(HealthTuning { interval_secs: 5, start_period_secs: 0, max_failures: 3 })),
        hooks: Hooks::default(),
        artifact: None,
        cron: None,
        on_overlap: None,
        catchup: None,
        jitter_sec: None,
        max_concurrent: None,
        max_queued: None,
        created_at: 1,
        updated_at: 1,
        restore_path: None,
        cron_last_run: None,
        resource_limits: None,
    }
}

fn running(pid: u32, healthy: bool) -> RuntimeState {
    RuntimeState {
        pid,
        start_time: 100,
        retry_count: 0,
        stopping: false,
        restart_requested: false,
        is_healthy: healthy,
        health_error: None,
        alert_pending_recovery: false,
        cpu_usage_centi: 0,
        mem_usage: 0,
    }
}

fn registry(programs: Vec<(u128, ProgramConfig)>) -> ProcessRegistry {
    let mut m = HashMap::new();
    for (id, c) in programs {
        m.insert(id, c);
    }
    ProcessRegistry::new(m, HashMap::new())
}

#[test]
fn signal_names_are_case_insensitive() {
    assert_eq!(parse_signal("HUP"), Some(SignalKind::Hup));
    assert_eq!(parse_signal("term"), Some(SignalKind::Term));
    assert_eq!(parse_signal("Usr2"), Some(SignalKind::Usr2));
    assert_eq!(parse_signal("stop"), None);
}

#[test]
fn signal_targets_every_instance() {
    let mut r = registry(vec![(1, config("a"))]);
    assert_eq!(r.signal_targets(&1), None);
    r.insert_running(1, running(10, false));
    r.insert_running(1, running(11, false));
    assert_eq!(r.signal_targets(&1), Some(vec![10, 11]));
}

#[test]
fn restart_terminates_or_starts() {
    let mut r = registry(vec![(1, config("a"))]);
    assert_eq!(r.begin_restart(1, 30, 50), RestartPlan::StartNow);
    assert!(r.programs[&1].autostart);
    assert_eq!(r.programs[&1].updated_at, 50);
    r.insert_running(1, running(10, false));
    assert_eq!(
        r.begin_restart(1, 30, 60),
        RestartPlan::Terminate { pids: vec![10], primary_pid: 10, timeout_secs: 7 }
    );
    assert!(r.get_running(&1).unwrap().restart_requested);
}

#[test]
fn flapping_makes_the_program_fatal() {
    let mut r = registry(vec![(1, config("a"))]);
    r.programs.get_mut(&1).unwrap().autostart = true;
    let msg = r.mark_flapping(1, 60, 99);
    assert_eq!(msg, "FLAPPING DETECTED: Restarted too frequently in 60s.");
    assert!(r.crashed.contains(&1));
    assert!(!r.programs[&1].autostart);
    assert_eq!(r.startup_errors[&1], msg);
    assert_eq!(r.status_of(&1), ProcessStatus::Fatal);
}

#[test]
fn health_reports_flip_status() {
    let mut r = registry(vec![(1, config("a"))]);
    assert!(r.apply_health_update(1, true, None, 120).ignored);
    r.insert_running(1, running(10, false));
    let rep = r.apply_health_update(1, false, Some("timeout".to_string()), 120);
    assert!(!rep.ignored);
    assert_eq!(rep.new_failure_detail.as_deref(), Some("timeout"));
    assert_eq!(rep.status_change, None);
    let again = r.apply_health_update(1, false, Some("timeout".to_string()), 121);
    assert_eq!(again.new_failure_detail, None);
    let ok = r.apply_health_update(1, true, None, 130);
    assert_eq!(ok.status_change, Some(ProcessStatus::Healthy));
    assert!(ok.check_waiting);
    assert_eq!(r.get_running(&1).unwrap().health_error, None);
    assert_eq!(r.status_of(&1), ProcessStatus::Healthy);
}

#[test]
fn health_restarts_until_the_retry_limit() {
    let mut r = registry(vec![(1, config("a"))]);
    assert_eq!(r.apply_health_restart(1, &"down".to_string(), 1, 30), HealthRestartPlan::Skip);
    r.insert_running(1, running(10, false));
    match r.apply_health_restart(1, &"down".to_string(), 1, 30) {
        HealthRestartPlan::Restart { attempt, pids, primary_pid, timeout_secs } => {
            assert_eq!(attempt, 1);
            assert_eq!(pids, vec![10]);
            assert_eq!(primary_pid, 10);
            assert_eq!(timeout_secs, 7);
        }
        other => panic!("unexpected {:?}", other),
    }
    // a restart in progress is not restarted again
    assert_eq!(r.apply_health_restart(1, &"down".to_string(), 2, 30), HealthRestartPlan::Skip);
}

#[test]
fn usage_and_autostart_updates() {
    let mut r = registry(vec![(1, config("a"))]);
    r.set_usage(&1, 250, 4096);
    assert!(r.get_running(&1).is_none());
    r.insert_running(1, running(10, false));
    r.set_usage(&1, 250, 4096);
    assert_eq!(r.get_running(&1).unwrap().cpu_usage_centi, 250);
    assert_eq!(r.get_running(&1).unwrap().mem_usage, 4096);
    r.enable_autostart(&1, 77);
    assert!(r.programs[&1].autostart);
    assert_eq!(r.programs[&1].updated_at, 77);
    assert!(r.dirty);
}

#[test]
fn name_uniqueness_check() {
    let r = registry(vec![(1, config("a")), (2, config("b"))]);
    assert!(r.unique_names());
    let d = registry(vec![(1, config("a")), (2, config("a"))]);
    assert!(!d.unique_names());
}
