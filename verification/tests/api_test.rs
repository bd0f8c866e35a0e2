use std::collections::HashMap;
use super_core::api::{contains_str, mutation_status, ReloadQuery};
use super_core::create::CreateRequest;
use super_core::cron_policy::CronQueue;
use super_core::manager::ManagerState;
use super_core::model::{AutoRestart, Hooks};
use super_core::registry::ProcessRegistry;
use super_core::scheduler::CronScheduler;

fn request(name: &str) -> CreateRequest {
    CreateRequest {
        name: Some(name.to_string()),
        command: "/bin/true".to_string(),
        args: vec![],
        env: vec![],
        env_file: None,
        cwd: None,
        user: None,
        autostart: false,
        retry_limit: 0,
        autorestart: AutoRestart::Never,
        exitcodes: vec![],
        startsecs: 0,
        stopsecs: None,
        priority: 999,
        stdout_logfile: None,
        stderr_logfile: None,
        group: None,
        depends_on: vec![],
        health_check: None,
        hooks: Hooks::default(),
        artifact: None,
        cron: None,
        on_overlap: None,
        catchup: None,
        jitter_sec: None,
        max_concurrent: None,
        max_queued: None,
        numprocs: 0,
        process_name: None,
        resource_limits: None,
    }
}

#[test]
fn contains_str_matches_std() {
    for (s, sub) in [("abc", "bc"), ("abc", ""), ("", ""), ("", "a"), ("ab", "abc"), ("aab", "ab"), ("xyz", "xz")] {
        assert_eq!(contains_str(s, sub), s.contains(sub), "{:?} {:?}", s, sub);
    }
}

#[test]
fn name_clash_maps_to_conflict() {
    assert_eq!(mutation_status(400, "Program name 'a' already exists (id: 1)"), 409);
    assert_eq!(mutation_status(422, "Duplicate program name 'a' in stack (appears 2 times)"), 409);
    assert_eq!(mutation_status(400, "cron: invalid expression \"x\""), 400);
    assert_eq!(mutation_status(500, ""), 500);
}

#[test]
fn duplicate_create_is_a_conflict() {
    let mut st = ManagerState {
        registry: ProcessRegistry::new(HashMap::new(), HashMap::new()),
        scheduler: CronScheduler::new(),
        pending_cron: CronQueue::new(),
    };
    st.handle_create(&request("web"), 1).unwrap();
    let err = st.handle_create(&request("web"), 2).unwrap_err();
    assert_eq!(mutation_status(400, &err.message()), 409);
    let err = st.handle_create(&request(" "), 3).unwrap_err();
    assert_eq!(mutation_status(400, &err.message()), 400);
}

#[test]
fn reload_query_defaults() {
    let q = ReloadQuery::from_params(None, None);
    assert!(!q.wait);
    assert_eq!(q.timeout, 30);
    let q = ReloadQuery::from_params(Some(true), Some(5));
    assert!(q.wait);
    assert_eq!(q.timeout, 5);
}
