use std::collections::HashMap;
use super_core::create::CreateRequest;
use super_core::cron_policy::CronQueue;
use super_core::manager::ManagerState;
use super_core::model::{AutoRestart, Hooks};
use super_core::registry::{ProcessRegistry, RuntimeState};
use super_core::scheduler::CronScheduler;
use super_core::stack::{include_pattern, validate_stack_service_names, StackError};

fn request(name: &str, arg: &str) -> CreateRequest {
    CreateRequest {
        name: Some(name.to_string()),
        command: "/bin/sleep".to_string(),
        args: vec![arg.to_string()],
        env: vec![],
        env_file: Some("/etc/app.env".to_string()),
        cwd: None,
        user: None,
        autostart: true,
        retry_limit: 3,
        autorestart: AutoRestart::Unexpected,
        exitcodes: vec![],
        startsecs: 0,
        stopsecs: None,
        priority: 999,
        stdout_logfile: None,
        stderr_logfile: None,
        group: None,
        depends_on: vec![],
        health_check: None,
        hooks: Hooks::default(),
        artifact: None,
        cron: None,
        on_overlap: None,
        catchup: None,
        jitter_sec: None,
        max_concurrent: None,
        max_queued: None,
        numprocs: 0,
        process_name: None,
        resource_limits: None,
    }
}

fn empty_state() -> ManagerState {
    ManagerState {
        registry: ProcessRegistry::new(HashMap::new(), HashMap::new()),
        scheduler: CronScheduler::new(),
        pending_cron: CronQueue::new(),
    }
}

fn running(pid: u32) -> RuntimeState {
    RuntimeState {
        pid,
        start_time: 0,
        retry_count: 0,
        stopping: false,
        restart_requested: false,
        is_healthy: false,
        health_error: None,
        alert_pending_recovery: false,
        cpu_usage_centi: 0,
        mem_usage: 0,
    }
}

fn id_of(st: &ManagerState, name: &str) -> u128 {
    *st.registry.programs.iter().find(|(_, c)| c.name == name).unwrap().0
}

#[test]
fn test_duplicate_names_in_stack_rejected() {
    let mut st = empty_state();
    let services = vec![request("dup", "1"), request("dup", "2")];
    let err = st.apply_stack(services, false, 1).unwrap_err();
    assert!(err.message().contains("Duplicate program name"), "{}", err.message());
    assert_eq!(err.message(), "Duplicate program name 'dup' in stack (appears 2 times)");
    assert!(st.registry.programs.is_empty());
}

#[test]
fn duplicate_copy_names_are_counted() {
    let mut a = request("w", "1");
    a.numprocs = 2;
    a.process_name = Some("same".to_string());
    match validate_stack_service_names(&vec![a, request("x", "1")]) {
        Err(StackError::DuplicateName { name, count }) => {
            assert_eq!(name, "same");
            assert_eq!(count, 2);
        }
        other => panic!("unexpected {:?}", other),
    }
    assert!(validate_stack_service_names(&vec![request("a", "1"), request("b", "1")]).is_ok());
}

#[test]
fn stack_rejects_invalid_cron_with_its_index() {
    let mut st = empty_state();
    let mut b = request("b", "1");
    b.cron = Some("nope".to_string());
    match st.apply_stack(vec![request("a", "1"), b], false, 1) {
        Err(e @ StackError::InvalidCron { .. }) => {
            assert_eq!(e.message(), "services[1] (name=b): cron: invalid expression \"nope\"");
            if let StackError::InvalidCron { index, name, expr } = e {
                assert_eq!(index, 1);
                assert_eq!(name.as_deref(), Some("b"));
                assert_eq!(expr, "nope");
            }
        }
        other => panic!("unexpected {:?}", other.err()),
    }
    assert!(st.registry.programs.is_empty());
}

#[test]
fn stack_creates_then_updates_by_name() {
    let mut st = empty_state();
    let out = st.apply_stack(vec![request("web", "1"), request("db", "1")], false, 10).unwrap();
    assert_eq!(out.logs, vec!["Creating service: web", "Creating service: db"]);
    assert_eq!(out.entries.len(), 2);
    assert!(out.entries.iter().all(|e| e.created && e.start));
    let web = id_of(&st, "web");
    assert_eq!(out.entries[0].id, web);

    let mut again = request("web", "2");
    again.autostart = false;
    let out = st.apply_stack(vec![again], false, 20).unwrap();
    assert_eq!(out.logs, vec!["Updating service: web"]);
    assert!(!out.entries[0].created);
    assert!(out.entries[0].update.is_some());
    let c = &st.registry.programs[&web];
    assert_eq!(c.args, vec!["2".to_string()]);
    assert!(!c.autostart);
    assert_eq!(c.updated_at, 20);
    assert_eq!(c.created_at, 10);
    // the update sent by a stack leaves the environment file as it was
    assert_eq!(c.env_file.as_deref(), Some("/etc/app.env"));
    assert_eq!(st.registry.programs.len(), 2);
}

#[test]
fn stack_prune_removes_unnamed_stopped_programs() {
    let mut st = empty_state();
    st.apply_stack(vec![request("a", "1"), request("b", "1"), request("c", "1")], false, 1).unwrap();
    let b = id_of(&st, "b");
    let c = id_of(&st, "c");
    st.registry.insert_running(c, running(42));
    let out = st.apply_stack(vec![request("a", "1")], true, 2).unwrap();
    assert_eq!(out.pruned.len(), 2);
    assert!(st.registry.programs.contains_key(&c));
    assert!(!st.registry.programs.contains_key(&b));
    let pb = out.pruned.iter().find(|p| p.id == b).unwrap();
    assert!(pb.removed.is_some());
    assert_eq!(pb.name, "b");
    let pc = out.pruned.iter().find(|p| p.id == c).unwrap();
    assert!(pc.removed.is_none());
    assert_eq!(out.logs[0], "Updating service: a");
    assert!(out.logs.contains(&"Failed to prune c: Cannot remove running program".to_string()));
    assert_eq!(out.logs.len(), 4);
}

#[test]
fn stack_without_prune_keeps_other_programs() {
    let mut st = empty_state();
    st.apply_stack(vec![request("a", "1"), request("b", "1")], false, 1).unwrap();
    let out = st.apply_stack(vec![request("a", "1")], false, 2).unwrap();
    assert!(out.pruned.is_empty());
    assert_eq!(st.registry.programs.len(), 2);
}

#[test]
fn include_patterns_stay_under_root() {
    assert_eq!(include_pattern("/srv/super", "conf.d/*.json").as_deref(), Some("/srv/super/conf.d/*.json"));
    assert_eq!(include_pattern("/srv/super", "/srv/super/x/*.toml").as_deref(), Some("/srv/super/x/*.toml"));
    assert_eq!(include_pattern("/srv/super", "/etc/*.toml"), None);
    assert_eq!(include_pattern("/srv/super", "/srv/superx/a.toml"), None);
}

#[test]
fn stack_apply_rejects_unknown_dependency() {
    let mut st = empty_state();
    let mut nginx = request("nginx", "30");
    nginx.depends_on = vec!["webs".to_string()];
    let err = st.apply_stack(vec![request("web", "30"), nginx], false, 1).unwrap_err();
    assert!(err.message().contains("webs"), "{}", err.message());
    assert!(matches!(err, StackError::UnknownDependency { .. }));
    assert!(st.registry.programs.is_empty());
}

#[test]
fn stack_apply_allows_forward_reference() {
    let mut st = empty_state();
    let mut nginx = request("nginx", "30");
    nginx.depends_on = vec!["web".to_string()];
    st.apply_stack(vec![nginx, request("web", "30")], false, 1).expect("forward reference within the batch must be accepted");
    assert_eq!(st.registry.programs.len(), 2);
}

#[test]
fn stack_apply_rejects_cycle() {
    let mut st = empty_state();
    let mut sa = request("sa", "30");
    sa.depends_on = vec!["sb".to_string()];
    let mut sb = request("sb", "30");
    sb.depends_on = vec!["sa".to_string()];
    let err = st.apply_stack(vec![sa, sb], false, 1).unwrap_err();
    assert!(err.message().contains("cycle"), "{}", err.message());
    assert!(st.registry.programs.is_empty());
}

#[test]
fn stack_may_depend_on_existing_programs() {
    let mut st = empty_state();
    st.apply_stack(vec![request("db", "1")], false, 1).unwrap();
    let mut app = request("app", "1");
    app.depends_on = vec!["db".to_string()];
    st.apply_stack(vec![app], false, 2).unwrap();
    assert_eq!(st.registry.programs.len(), 2);
}

#[test]
fn stack_refusals_follow_the_order_of_the_checks() {
    let mut st = empty_state();
    let mut blank = request("dup", "1");
    blank.command = "  ".to_string();
    let err = st.apply_stack(vec![blank, request("dup", "2")], false, 1).unwrap_err();
    assert!(matches!(err, StackError::DuplicateName { .. }));
    let mut web = request("web", "1");
    web.command = " ".to_string();
    let mut bad_cron = request("cron", "1");
    bad_cron.cron = Some("nope".to_string());
    let err = st.apply_stack(vec![bad_cron, web], false, 1).unwrap_err();
    assert!(matches!(err, StackError::InvalidCron { index: 0, .. }));
    let out = st.apply_stack(vec![], false, 1).unwrap();
    assert!(out.entries.is_empty());
    assert!(st.registry.programs.is_empty());
}

#[test]
fn apply_entries_creates_and_updates_at_given_ids() {
    let mut st = empty_state();
    st.apply_stack(vec![request("a", "1")], false, 1).unwrap();
    let a_id = *st.registry.programs.keys().next().unwrap();
    let configs = super_core::stack::expand_stack(&vec![request("a", "2"), request("b", "1")], 5);
    let (logs, entries) = st.apply_entries(configs, &vec![a_id, 77], &vec![false, true], 5);
    assert_eq!(logs, vec!["Updating service: a".to_string(), "Creating service: b".to_string()]);
    assert!(!entries[0].created && entries[0].update.is_some());
    assert!(entries[1].created && entries[1].start);
    assert_eq!(st.registry.programs.get(&77).unwrap().name, "b");
    assert_eq!(st.registry.programs.get(&a_id).unwrap().args, vec!["2".to_string()]);
}
