use std::collections::HashMap;
use super_core::model::{AutoRestart, Hooks, ProcessStatus, ProgramConfig};
use super_core::registry::{ProcessRegistry, RuntimeState};
use super_core::report::centi_text;

fn config(name: &str, group: Option<&str>) -> ProgramConfig {
    ProgramConfig {
        name: name.to_string(),
        command: "/bin/sleep".to_string(),
        args: vec![],
        env: vec![],
        env_file: None,
        cwd: None,
        user: None,
        autostart: true,
        retry_limit: 3,
        autorestart: AutoRestart::Unexpected,
        exitcodes: vec![0],
        startsecs: 1,
        stopsecs: None,
        priority: 999,
        stdout_logfile: None,
        stderr_logfile: None,
        group: group.map(|g| g.to_string()),
        depends_on: vec!["db".to_string()],
        health_check: None,
        hooks: Hooks::default(),
        artifact: None,
        cron: None,
        on_overlap: None,
        catchup: None,
        jitter_sec: None,
        max_concurrent: None,
        max_queued: None,
        created_at: 3,
        updated_at: 4,
        restore_path: None,
        cron_last_run: None,
        resource_limits: None,
    }
}

fn running(pid: u32) -> RuntimeState {
    RuntimeState {
        pid,
        start_time: 100,
        retry_count: 2,
        stopping: false,
        restart_requested: false,
        is_healthy: true,
        health_error: None,
        alert_pending_recovery: false,
        cpu_usage_centi: 1234,
        mem_usage: 2048,
    }
}

fn registry(programs: Vec<(u128, ProgramConfig)>) -> ProcessRegistry {
    let mut m = HashMap::new();
    for (id, c) in programs {
        m.insert(id, c);
    }
    ProcessRegistry::new(m, HashMap::new())
}

const ID1: &str = "00000000-0000-0000-0000-000000000001";

#[test]
fn centi_percent_text() {
    assert_eq!(centi_text(0), "0.00");
    assert_eq!(centi_text(5), "0.05");
    assert_eq!(centi_text(1234), "12.34");
    assert_eq!(centi_text(100000), "1000.00");
}

#[test]
fn metrics_of_a_running_program() {
    let mut r = registry(vec![(1, config("we\"b", Some("g")))]);
    r.insert_running(1, running(9));
    let text = r.program_metrics(&1, 130);
    let labels = format!("id=\"{}\",name=\"we\\\"b\",group=\"g\"", ID1);
    let expected = format!(
        "super_process_up{{{l}}} 1\nsuper_process_cpu_percent{{{l}}} 12.34\nsuper_process_memory_bytes{{{l}}} 2048\nsuper_process_uptime_seconds{{{l}}} 30\nsuper_process_restart_count{{{l}}} 2\nsuper_process_status_code{{{l}}} 1\n",
        l = labels
    );
    assert_eq!(text, expected);
}

#[test]
fn metrics_of_a_stopped_and_a_fatal_program() {
    let mut r = registry(vec![(1, config("a", None))]);
    let text = r.program_metrics(&1, 130);
    assert!(text.contains("group=\"\""));
    assert!(text.contains("super_process_cpu_percent{") && text.contains("} 0.00\n"));
    assert!(text.ends_with("super_process_status_code{id=\"00000000-0000-0000-0000-000000000001\",name=\"a\",group=\"\"} 0\n"));
    r.crashed.insert(1);
    assert!(r.program_metrics(&1, 130).ends_with("} 2\n"));
}

#[test]
fn full_metrics_text_frames_the_programs() {
    let r = registry(vec![(1, config("a", None)), (2, config("b", None))]);
    let text = r.generate_metrics(0, "ext 1\n");
    assert!(text.starts_with("# HELP super_process_up Process status\n# TYPE super_process_up gauge\n"));
    assert!(text.ends_with("\n# --- Extension Metrics ---\next 1\n"));
    assert_eq!(text.matches("super_process_up{").count(), 2);
}

#[test]
fn summary_of_running_and_stopped_programs() {
    let mut r = registry(vec![(1, config("a", Some("g"))), (2, config("b", None))]);
    r.insert_running(1, running(9));
    r.startup_errors.insert(2, "boom".to_string());
    let s = r.build_summary(&1, 150);
    assert_eq!(s.status, ProcessStatus::Healthy);
    assert_eq!(s.pid, Some(9));
    assert_eq!(s.uptime_sec, Some(50));
    assert_eq!(s.cpu_usage_centi, Some(1234));
    assert_eq!(s.group.as_deref(), Some("g"));
    assert_eq!(s.depends_on, vec!["db".to_string()]);
    let t = r.build_summary(&2, 150);
    assert_eq!(t.status, ProcessStatus::Stopped);
    assert_eq!(t.pid, None);
    assert_eq!(t.last_error.as_deref(), Some("boom"));
    assert_eq!(r.list_at(150).len(), 2);
    assert_eq!(r.handle_list().len(), 2);
}

#[test]
fn program_info_or_nothing() {
    let r = registry(vec![(1, config("a", None))]);
    let info = r.handle_get(&1).unwrap();
    assert_eq!(info.config.name, "a");
    assert_eq!(info.state, ProcessStatus::Stopped);
    assert!(r.handle_get(&7).is_none());
}
