use std::collections::HashMap;
use super_core::cron_policy::CronQueue;
use super_core::manager::{ManagerState, NameError, RemoveError, UpdateError, UpdateRequest};
use super_core::model::{ArtifactConfig, AutoRestart, CronOverlap, Hooks, ProgramConfig};
use super_core::registry::{ProcessRegistry, RuntimeState};
use super_core::scheduler::CronScheduler;

fn config(name: &str) -> ProgramConfig {
    ProgramConfig {
        name: name.to_string(),
        command: "/bin/sleep".to_string(),
        args: vec!["100".to_string()],
        env: vec![],
        env_file: None,
        cwd: Some("/srv".to_string()),
        user: None,
        autostart: true,
        retry_limit: 3,
        autorestart: AutoRestart::Unexpected,
        exitcodes: vec![0],
        startsecs: 1,
        stopsecs: None,
        priority: 999,
        stdout_logfile: None,
        stderr_logfile: None,
        group: None,
        depends_on: vec![],
        health_check: None,
        hooks: Hooks::default(),
        artifact: None,
        cron: None,
        on_overlap: None,
        catchup: None,
        jitter_sec: None,
        max_concurrent: None,
        max_queued: None,
        created_at: 1,
        updated_at: 1,
        restore_path: None,
        cron_last_run: None,
        resource_limits: None,
    }
}

fn state(programs: Vec<(u128, ProgramConfig)>) -> ManagerState {
    let mut m = HashMap::new();
    for (id, c) in programs {
        m.insert(id, c);
    }
    ManagerState {
        registry: ProcessRegistry::new(m, HashMap::new()),
        scheduler: CronScheduler::new(),
        pending_cron: CronQueue::new(),
    }
}

fn running(pid: u32) -> RuntimeState {
    RuntimeState {
        pid,
        start_time: 0,
        retry_count: 0,
        stopping: false,
        restart_requested: false,
        is_healthy: false,
        health_error: None,
        alert_pending_recovery: false,
        cpu_usage_centi: 0,
        mem_usage: 0,
    }
}

#[test]
fn update_patches_fields_and_clears_blank_ones() {
    let mut st = state(vec![(1, config("web"))]);
    st.registry.insert_running(1, running(77));
    let req = UpdateRequest {
        command: Some("/bin/true".into()),
        cwd: Some("  ".into()),
        user: Some("app".into()),
        priority: Some(5),
        stopsecs: Some(9),
        ..Default::default()
    };
    let out = st.handle_update(1, req, 500).unwrap();
    assert_eq!(out.name, "web");
    assert_eq!(out.pid, Some(77));
    assert!(out.ota.is_none());
    let c = st.registry.get_config(&1).unwrap();
    assert_eq!(c.command, "/bin/true");
    assert_eq!(c.cwd, None);
    assert_eq!(c.user.as_deref(), Some("app"));
    assert_eq!(c.priority, 5);
    assert_eq!(c.stopsecs, Some(9));
    assert_eq!(c.updated_at, 500);
    assert_eq!(c.args, vec!["100".to_string()]);
    assert!(st.registry.dirty);
}

#[test]
fn update_schedules_and_unschedules() {
    let mut st = state(vec![(1, config("job"))]);
    let req = UpdateRequest { cron: Some("0 * * * * * *".into()), jitter_sec: Some(0), ..Default::default() };
    st.handle_update(1, req, 10).unwrap();
    assert!(st.scheduler.get_next_run(&1).is_some());
    assert_eq!(st.registry.get_config(&1).unwrap().cron.as_deref(), Some("0 * * * * * *"));

    let req = UpdateRequest {
        cron: Some("".into()),
        on_overlap: Some(CronOverlap::Queue),
        ..Default::default()
    };
    st.handle_update(1, req, 11).unwrap();
    let c = st.registry.get_config(&1).unwrap();
    assert!(c.cron.is_none());
    assert_eq!(c.jitter_sec, None);
    assert_eq!(c.on_overlap, Some(CronOverlap::Queue));
    assert!(st.scheduler.get_next_run(&1).is_none());
}

#[test]
fn update_refusals_change_nothing() {
    let mut st = state(vec![(1, config("a")), (2, config("b"))]);
    let e = st
        .handle_update(1, UpdateRequest { cron: Some("nope".into()), ..Default::default() }, 5)
        .unwrap_err();
    assert!(matches!(e, UpdateError::InvalidCron { .. }));
    assert_eq!(e.message(), "program 'a': cron: invalid expression \"nope\"");
    let e = st.handle_update(9, UpdateRequest::default(), 5).unwrap_err();
    assert_eq!(e.message(), "Program not found");
    let e = st
        .handle_update(1, UpdateRequest { name: Some(" ".into()), ..Default::default() }, 5)
        .unwrap_err();
    assert_eq!(e.message(), "Program name cannot be empty");
    let e = st
        .handle_update(1, UpdateRequest { name: Some("b".into()), ..Default::default() }, 5)
        .unwrap_err();
    assert_eq!(
        e.message(),
        "Program name 'b' already exists (id: 00000000-0000-0000-0000-000000000002)"
    );
    assert_eq!(st.registry.get_config(&1).unwrap().updated_at, 1);
    assert!(!st.registry.dirty);
    // Keeping its own name is fine.
    assert!(st
        .handle_update(1, UpdateRequest { name: Some("a".into()), ..Default::default() }, 5)
        .is_ok());
}

#[test]
fn checksum_change_triggers_ota() {
    let mut st = state(vec![(1, config("app"))]);
    let art = ArtifactConfig {
        source: "http://h/v2".into(),
        destination: "/opt/app".into(),
        checksum: "abc".into(),
        extract: false,
    };
    let out = st
        .handle_update(1, UpdateRequest { artifact: Some(art.clone()), ..Default::default() }, 2)
        .unwrap();
    assert_eq!(out.ota.map(|a| a.checksum), Some("abc".to_string()));
    let out = st
        .handle_update(1, UpdateRequest { artifact: Some(art), ..Default::default() }, 3)
        .unwrap();
    assert!(out.ota.is_none(), "same checksum: nothing to download");
    let blank = ArtifactConfig { source: " ".into(), destination: String::new(), checksum: "x".into(), extract: false };
    st.handle_update(1, UpdateRequest { artifact: Some(blank), ..Default::default() }, 4).unwrap();
    assert!(st.registry.get_config(&1).unwrap().artifact.is_none());
}

#[test]
fn remove_requires_stopped_program() {
    let mut st = state(vec![(1, config("a"))]);
    st.registry.insert_running(1, running(5));
    assert!(matches!(st.handle_remove(1), Err(RemoveError::Running)));
    st.registry.remove_running(&1);
    st.registry.crashed.insert(1);
    let c = st.handle_remove(1).unwrap();
    assert_eq!(c.name, "a");
    assert!(st.registry.get_config(&1).is_none());
    assert!(!st.registry.crashed.contains(&1));
    assert!(st.registry.dirty);
    let e = st.handle_remove(1).unwrap_err();
    assert_eq!(e.message(), "Program not found");
    assert_eq!(RemoveError::Running.message(), "Cannot remove running program");
}

#[test]
fn name_availability() {
    let st = state(vec![(1, config("a"))]);
    assert!(st.registry.ensure_name_available(&"b".to_string(), None).is_ok());
    assert!(st.registry.ensure_name_available(&"a".to_string(), Some(1)).is_ok());
    assert!(matches!(
        st.registry.ensure_name_available(&"a".to_string(), None),
        Err(NameError::Taken { id: 1, .. })
    ));
    assert!(matches!(
        st.registry.ensure_name_available(&"".to_string(), None),
        Err(NameError::Empty)
    ));
}

#[test]
fn startup_and_waiting_follow_priority() {
    let mut c1 = config("late");
    c1.priority = 10;
    let mut c2 = config("early");
    c2.priority = -5;
    let mut c3 = config("manual");
    c3.autostart = false;
    let mut c4 = config("cron");
    c4.cron = Some("0 * * * * * *".into());
    let mut c5 = config("mid");
    c5.priority = 3;
    let mut st = state(vec![(1, c1), (2, c2), (3, c3), (4, c4), (5, c5)]);
    assert_eq!(st.registry.startup_order(), vec![2, 5, 1]);
    st.registry.waiting.insert(1);
    st.registry.waiting.insert(3);
    st.registry.waiting.insert(42);
    let w = st.registry.waiting_order();
    assert_eq!(w, vec![1, 3]);
}

#[test]
fn shutdown_stops_dependents_first() {
    let db = config("db");
    let mut app = config("app");
    app.depends_on = vec!["db".into()];
    let mut web = config("web");
    web.depends_on = vec!["app".into(), "db".into(), "missing".into()];
    let lone = config("lone");
    let st = state(vec![(10, db), (20, app), (30, web), (40, lone)]);
    let order = st.registry.shutdown_order();
    assert_eq!(order.len(), 4);
    let pos = |id: u128| order.iter().position(|x| *x == id).unwrap();
    assert!(pos(30) < pos(20));
    assert!(pos(20) < pos(10));
    assert!(pos(30) < pos(10));
    assert!(order.contains(&40));
}

#[test]
fn shutdown_order_keeps_programs_on_cycles() {
    let mut a = config("a");
    a.depends_on = vec!["b".into()];
    let mut b = config("b");
    b.depends_on = vec!["a".into()];
    let mut c = config("c");
    c.depends_on = vec!["c".into()];
    let d = config("d");
    let st = state(vec![(1, a), (2, b), (3, c), (4, d)]);
    let mut order = st.registry.shutdown_order();
    order.sort();
    assert_eq!(order, vec![1, 2, 3, 4]);
}

#[test]
fn update_creating_cycle_is_rejected() {
    let mut a = config("cyc-a");
    a.depends_on = vec![];
    let mut b = config("cyc-b");
    b.depends_on = vec!["cyc-a".to_string()];
    let mut st = state(vec![(1, a), (2, b)]);
    let err = st
        .handle_update(1, UpdateRequest { depends_on: Some(vec!["cyc-b".to_string()]), ..Default::default() }, 5)
        .expect_err("cycle-forming update must be rejected");
    assert!(err.message().contains("cycle"), "{}", err.message());
    assert!(matches!(err, UpdateError::DependencyCycle { .. }));
    assert!(st.registry.programs[&1].depends_on.is_empty());
}

#[test]
fn update_rejects_unknown_dependency() {
    let mut st = state(vec![(1, config("a"))]);
    let err = st
        .handle_update(1, UpdateRequest { depends_on: Some(vec!["nope".to_string()]), ..Default::default() }, 5)
        .unwrap_err();
    assert_eq!(err.message(), "depends_on: program 'a' depends on unknown program 'nope'");
    st.handle_update(1, UpdateRequest { depends_on: Some(vec![]), ..Default::default() }, 5).unwrap();
}
