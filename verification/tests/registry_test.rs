use std::collections::HashMap;
use super_core::model::{AutoRestart, Hooks, ProgramConfig, ProgramEventRecord};
use super_core::registry::{ProcessRegistry, RuntimeState, MAX_EVENTS_PER_PROGRAM};
use uuid::Uuid;

fn mock_config(name: &str) -> ProgramConfig {
    ProgramConfig {
        name: name.to_string(),
        command: "echo".to_string(),
        args: vec![],
        env: vec![],
        env_file: None,
        cwd: None,
        user: None,
        autostart: true,
        retry_limit: 1,
        autorestart: AutoRestart::Unexpected,
        exitcodes: vec![0],
        startsecs: 1,
        stopsecs: None,
        priority: 999,
        stdout_logfile: None,
        stderr_logfile: None,
        group: None,
        depends_on: vec![],
        health_check: None,
        hooks: Hooks::default(),
        artifact: None,
        cron: None,
        on_overlap: None,
        catchup: None,
        jitter_sec: None,
        max_concurrent: None,
        max_queued: None,
        created_at: 0,
        updated_at: 0,
        restore_path: None,
        cron_last_run: None,
        resource_limits: None,
    }
}

fn running_state(pid: u32) -> RuntimeState {
    RuntimeState {
        pid,
        start_time: 100,
        retry_count: 0,
        stopping: false,
        restart_requested: false,
        is_healthy: true,
        health_error: None,
        alert_pending_recovery: false,
        cpu_usage_centi: 0,
        mem_usage: 0,
    }
}

fn new_id() -> u128 {
    Uuid::new_v4().as_u128()
}

fn record(ts: u64, event: &str, exit_code: Option<i32>, signal: Option<i32>, retry_count: Option<u32>, msg: String) -> ProgramEventRecord {
    ProgramEventRecord {
        ts,
        ts_ms: ts * 1000,
        program_id: None,
        program_name: None,
        event: event.to_string(),
        exit_code,
        signal,
        retry_count,
        duration_secs: None,
        msg,
    }
}

#[test]
fn test_registry_crud() {
    let mut registry = ProcessRegistry::new(HashMap::new(), HashMap::new());
    let id = new_id();
    let config = mock_config("test-app");

    registry.programs.insert(id, config.clone());
    assert!(registry.get_config(&id).is_some());

    assert!(!registry.dirty);
    registry.mark_dirty();
    assert!(registry.dirty);

    registry.insert_running(
        id,
        RuntimeState {
            pid: 1234,
            start_time: 100,
            retry_count: 0,
            stopping: false,
            restart_requested: false,
            is_healthy: true,
            health_error: None,
            alert_pending_recovery: false,
            cpu_usage_centi: 0,
            mem_usage: 0,
        },
    );

    let state = registry.get_running(&id).unwrap();
    assert_eq!(state.pid, 1234);
    assert!(state.is_healthy);
    assert!(registry.is_running(&id));
    assert_eq!(registry.running_count(&id), 1);

    registry.remove_running_by_pid(&id, 1234);
    assert!(!registry.is_running(&id));
    registry.programs.remove(&id);
    assert!(registry.get_config(&id).is_none());
}

#[test]
fn test_registry_concurrent_instances() {
    let mut registry = ProcessRegistry::new(HashMap::new(), HashMap::new());
    let id = new_id();

    for (pid, healthy) in [(1001, true), (1002, false), (1003, true)] {
        let mut st = running_state(pid);
        st.is_healthy = healthy;
        registry.insert_running(id, st);
    }

    assert!(registry.is_running(&id));
    assert_eq!(registry.running_count(&id), 3);
    assert_eq!(registry.total_running(), 3);
    assert!(!registry.running_empty());
    assert_eq!(registry.get_running(&id).unwrap().pid, 1001);

    let removed = registry.remove_running_by_pid(&id, 1002).unwrap();
    assert_eq!(removed.pid, 1002);
    assert_eq!(registry.running_count(&id), 2);
    assert_eq!(registry.get_running(&id).unwrap().pid, 1001);

    registry.remove_running_by_pid(&id, 1001).unwrap();
    registry.remove_running_by_pid(&id, 1003).unwrap();
    assert!(!registry.is_running(&id));
    assert_eq!(registry.running_count(&id), 0);
    assert!(registry.running_empty());
    assert!(registry.all_running_pids().is_empty());
}

#[test]
fn remove_running_by_pid_unknown_pid_falls_back_to_primary() {
    let mut registry = ProcessRegistry::new(HashMap::new(), HashMap::new());
    let id = new_id();
    for pid in [2001u32, 2002, 2003] {
        registry.insert_running(id, running_state(pid));
    }

    let removed = registry.remove_running_by_pid(&id, 9999).unwrap();
    assert_eq!(
        removed.pid, 2001,
        "unknown pid must fall back to the primary"
    );
    assert_eq!(registry.running_count(&id), 2);
    assert_eq!(registry.get_running(&id).unwrap().pid, 2002);

    registry.remove_running_by_pid(&id, 2002).unwrap();
    registry.remove_running_by_pid(&id, 2003).unwrap();
    assert!(!registry.is_running(&id));
    assert!(registry.running_empty());
}

#[test]
fn remove_running_primary_keeps_siblings_then_drops_key() {
    let mut registry = ProcessRegistry::new(HashMap::new(), HashMap::new());
    let id = new_id();
    for pid in [3001u32, 3002, 3003] {
        registry.insert_running(id, running_state(pid));
    }

    let removed = registry.remove_running(&id).unwrap();
    assert_eq!(removed.pid, 3001);
    assert!(
        registry.is_running(&id),
        "siblings must keep the program running"
    );
    assert_eq!(registry.running_count(&id), 2);

    registry.remove_running(&id).unwrap();
    registry.remove_running(&id).unwrap();
    assert!(!registry.is_running(&id));
    assert_eq!(registry.running_count(&id), 0);
    assert!(registry.running_empty());
}

#[test]
fn all_running_pids_spans_programs_and_siblings() {
    let mut registry = ProcessRegistry::new(HashMap::new(), HashMap::new());
    let a = new_id();
    let b = new_id();
    registry.insert_running(a, running_state(4001));
    registry.insert_running(a, running_state(4002));
    registry.insert_running(b, running_state(4003));

    let mut pids = registry.all_running_pids();
    pids.sort();
    let mut expected = vec![(a, 4001), (a, 4002), (b, 4003)];
    expected.sort();
    assert_eq!(pids, expected);
    assert_eq!(registry.total_running(), 3);
    assert!(!registry.running_empty());

    registry.remove_running_by_pid(&a, 4001).unwrap();
    registry.remove_running_by_pid(&a, 4002).unwrap();
    registry.remove_running_by_pid(&b, 4003).unwrap();
    assert_eq!(registry.all_running_pids(), Vec::new());
    assert!(registry.running_empty());
}

#[test]
fn test_events_push_caps_at_max() {
    let mut registry = ProcessRegistry::new(HashMap::new(), HashMap::new());
    let id = new_id();

    for i in 0..(MAX_EVENTS_PER_PROGRAM + 25) {
        registry.push_event(
            id,
            record(i as u64, "process_backoff", Some(1), None, Some(1), format!("crash {i}")),
        );
    }

    let events = registry.get_events(&id);
    assert_eq!(events.len(), MAX_EVENTS_PER_PROGRAM);
    assert_eq!(events[0].ts, 25);
    assert_eq!(
        events.last().unwrap().ts,
        MAX_EVENTS_PER_PROGRAM as u64 + 24
    );
    assert!(registry.events_dirty);
}

#[test]
fn test_events_remove_drops_bucket() {
    let mut registry = ProcessRegistry::new(HashMap::new(), HashMap::new());
    let id = new_id();
    registry.push_event(id, record(1, "process_fatal", None, Some(9), None, "oom".into()));

    assert_eq!(registry.get_events(&id).len(), 1);
    registry.remove_events(&id);
    assert!(registry.get_events(&id).is_empty());
}

#[test]
fn test_events_restore_from_initial_state() {
    let id = new_id();
    let mut initial = HashMap::new();
    initial.insert(
        id,
        vec![record(
            1700000000,
            "process_exit",
            None,
            Some(9),
            None,
            "Process killed by signal 9".into(),
        )],
    );

    let registry = ProcessRegistry::new(HashMap::new(), initial);
    let events = registry.get_events(&id);
    assert_eq!(events.len(), 1);
    assert_eq!(events[0].signal, Some(9));
    assert!(!registry.events_dirty);
}

#[test]
fn primary_is_first_started_and_others_untouched() {
    let mut registry = ProcessRegistry::new(HashMap::new(), HashMap::new());
    let a = new_id();
    let b = new_id();
    registry.insert_running(a, running_state(10));
    registry.insert_running(b, running_state(20));
    registry.insert_running(a, running_state(11));
    assert_eq!(registry.get_running(&a).unwrap().pid, 10);
    registry.remove_running_by_pid(&a, 10);
    assert_eq!(registry.get_running(&a).unwrap().pid, 11);
    assert_eq!(registry.get_running(&b).unwrap().pid, 20);
    assert_eq!(registry.running_count(&b), 1);
    assert!(registry.remove_running(&new_id()).is_none());
}
