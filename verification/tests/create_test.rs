use std::collections::HashMap;
use super_core::create::{expand_request, replace, CreateError, CreateRequest};
use super_core::cron_policy::CronQueue;
use super_core::manager::{ManagerState, NameError};
use super_core::model::{AutoRestart, Hooks, ProgramConfig};
use super_core::registry::ProcessRegistry;
use super_core::scheduler::CronScheduler;

fn request(name: &str) -> CreateRequest {
    CreateRequest {
        name: Some(name.to_string()),
        command: "/bin/sleep".to_string(),
        args: vec!["10".to_string()],
        env: vec![("A".to_string(), "1".to_string())],
        env_file: None,
        cwd: None,
        user: None,
        autostart: false,
        retry_limit: 3,
        autorestart: AutoRestart::Unexpected,
        exitcodes: vec![],
        startsecs: 0,
        stopsecs: None,
        priority: 999,
        stdout_logfile: None,
        stderr_logfile: None,
        group: None,
        depends_on: vec![],
        health_check: None,
        hooks: Hooks::default(),
        artifact: None,
        cron: None,
        on_overlap: None,
        catchup: None,
        jitter_sec: None,
        max_concurrent: None,
        max_queued: None,
        numprocs: 0,
        process_name: None,
        resource_limits: None,
    }
}

fn empty_state() -> ManagerState {
    ManagerState {
        registry: ProcessRegistry::new(HashMap::new(), HashMap::new()),
        scheduler: CronScheduler::new(),
        pending_cron: CronQueue::new(),
    }
}

fn env_get<'a>(c: &'a ProgramConfig, k: &str) -> Option<&'a str> {
    c.env.iter().find(|(a, _)| a == k).map(|(_, v)| v.as_str())
}

#[test]
fn replace_matches_std() {
    assert_eq!(replace("{name}-{num}", "{name}", "web"), "web-{num}");
    assert_eq!(replace("aaa", "aa", "b"), "ba");
    assert_eq!(replace("x\"y\"", "\"", "\\\""), "x\\\"y\\\"");
    assert_eq!(replace("", "a", "b"), "");
}

#[test]
fn single_copy_keeps_name_and_defaults() {
    let cfgs = expand_request(&request("web"), 1234);
    assert_eq!(cfgs.len(), 1);
    let c = &cfgs[0];
    assert_eq!(c.name, "web");
    assert_eq!(c.exitcodes, vec![0]);
    assert_eq!(c.startsecs, 10);
    assert_eq!(c.created_at, 1234);
    assert_eq!(c.updated_at, 1234);
    assert_eq!(env_get(c, "SUPER_PROCESS_NUM"), None);
    assert_eq!(env_get(c, "A"), Some("1"));
}

#[test]
fn copies_get_numbered_names_and_env() {
    let mut req = request("worker");
    req.numprocs = 3;
    let cfgs = expand_request(&req, 5);
    let names: Vec<&str> = cfgs.iter().map(|c| c.name.as_str()).collect();
    assert_eq!(names, vec!["worker-0", "worker-1", "worker-2"]);
    assert_eq!(env_get(&cfgs[2], "SUPER_PROCESS_NUM"), Some("2"));
    assert_eq!(env_get(&cfgs[2], "SUPER_PROCESS_TOTAL"), Some("3"));
    assert_eq!(env_get(&cfgs[2], "A"), Some("1"));
}

#[test]
fn copies_use_the_name_template_and_command_as_base() {
    let mut req = request("x");
    req.name = None;
    req.command = "app".to_string();
    req.numprocs = 2;
    req.process_name = Some("{num}_{name}".to_string());
    req.env = vec![("SUPER_PROCESS_NUM".to_string(), "old".to_string())];
    let cfgs = expand_request(&req, 0);
    assert_eq!(cfgs[0].name, "0_app");
    assert_eq!(cfgs[1].name, "1_app");
    assert_eq!(cfgs[1].env.len(), 2);
    assert_eq!(env_get(&cfgs[1], "SUPER_PROCESS_NUM"), Some("1"));
}

#[test]
fn create_registers_programs_in_copy_order() {
    let mut st = empty_state();
    let mut req = request("svc");
    req.numprocs = 2;
    req.autostart = true;
    let created = st.handle_create(&req, 7).unwrap();
    assert_eq!(created.len(), 2);
    assert_ne!(created[0].id, created[1].id);
    assert!(created.iter().all(|c| c.start));
    assert_eq!(st.registry.programs[&created[0].id].name, "svc-0");
    assert_eq!(st.registry.programs[&created[1].id].name, "svc-1");
    assert!(st.registry.dirty);
}

#[test]
fn scheduled_program_is_not_started_now() {
    let mut st = empty_state();
    let mut req = request("job");
    req.autostart = true;
    req.cron = Some("0 * * * * *".to_string());
    let created = st.handle_create(&req, 7).unwrap();
    assert_eq!(created.len(), 1);
    assert!(!created[0].start);
    assert!(st.scheduler.get_next_run(&created[0].id).is_some());
}

#[test]
fn test_duplicate_program_name_rejected() {
    let mut st = empty_state();
    let req = request("worker-a");
    st.handle_create(&req, 1).unwrap();
    let err = st.handle_create(&req, 2).unwrap_err();
    assert!(matches!(err, CreateError::Name(NameError::Taken { .. })));
    assert!(err.message().contains("already exists"), "{}", err.message());
    assert_eq!(st.registry.programs.len(), 1);
}

#[test]
fn create_rejects_blank_name_and_bad_cron() {
    let mut st = empty_state();
    let err = st.handle_create(&request("  "), 1).unwrap_err();
    assert!(matches!(err, CreateError::Name(NameError::Empty)));
    assert_eq!(err.message(), "Program name cannot be empty");
    let mut req = request("c");
    req.cron = Some("not a cron".to_string());
    let err = st.handle_create(&req, 1).unwrap_err();
    assert!(matches!(err, CreateError::InvalidCron { .. }));
    assert_eq!(err.message(), "program 'c': cron: invalid expression \"not a cron\"");
    assert!(st.registry.programs.is_empty());
}

#[test]
fn create_rejects_unknown_dependency() {
    let mut st = empty_state();
    let mut req = request("nginx");
    req.depends_on = vec!["webs".to_string()];
    let err = st.handle_create(&req, 1).expect_err("create with unknown dependency must fail");
    assert!(err.message().contains("webs") && err.message().contains("depends_on"), "{}", err.message());
    assert!(st.registry.programs.is_empty());
}

#[test]
fn create_rejects_a_closing_cycle() {
    let mut st = empty_state();
    st.handle_create(&request("a"), 1).unwrap();
    let mut b = request("b");
    b.depends_on = vec!["a".to_string()];
    st.handle_create(&b, 1).unwrap();
    // `a` now depends on a program that does not exist yet; creating it
    // depending on `b` would close a cycle.
    let a_id = *st.registry.programs.iter().find(|(_, c)| c.name == "a").unwrap().0;
    st.registry.programs.get_mut(&a_id).unwrap().depends_on = vec!["c".to_string()];
    let mut c = request("c");
    c.depends_on = vec!["b".to_string()];
    let err = st.handle_create(&c, 1).unwrap_err();
    assert!(matches!(err, CreateError::DependencyCycle { .. }));
    assert!(err.message().contains("cycle"));
    assert_eq!(st.registry.programs.len(), 2);
}
