use std::collections::HashMap;
use super_core::artifact::{download_retry, verify_artifact_checksum, ArtifactError};
use super_core::create::{validate_create_request, CreateError, CreateRequest, RequestError};
use super_core::cron_policy::CronQueue;
use super_core::event_hooks::{build_payload, host_or_unknown, SystemEvent};
use super_core::exit::ExitOutcome;
use super_core::flapping::FlappingTracker;
use super_core::lifecycle::{DepState, SpawnGate, StartQueue, StopPlan};
use super_core::manager::{last_run_anchor, ManagerState};
use super_core::model::{AutoRestart, Hooks, ProgramConfig};
use super_core::registry::ProcessRegistry;
use super_core::scheduler::{CronScheduler, CHRONO_MAX_MS, CRON_AFTER_MAX_MS};
use super_core::stack::StackError;

fn config(name: &str, deps: &[&str]) -> ProgramConfig {
    ProgramConfig {
        name: name.to_string(),
        command: "/bin/sleep".to_string(),
        args: vec![],
        env: vec![],
        env_file: None,
        cwd: None,
        user: None,
        autostart: false,
        retry_limit: 2,
        autorestart: AutoRestart::Unexpected,
        exitcodes: vec![0],
        startsecs: 5,
        stopsecs: None,
        priority: 999,
        stdout_logfile: None,
        stderr_logfile: None,
        group: None,
        depends_on: deps.iter().map(|d| d.to_string()).collect(),
        health_check: None,
        hooks: Hooks::default(),
        artifact: None,
        cron: None,
        on_overlap: None,
        catchup: None,
        jitter_sec: None,
        max_concurrent: None,
        max_queued: None,
        created_at: 1,
        updated_at: 1,
        restore_path: None,
        cron_last_run: None,
        resource_limits: None,
    }
}

fn request(name: &str, command: &str) -> CreateRequest {
    CreateRequest {
        name: Some(name.to_string()),
        command: command.to_string(),
        args: vec![],
        env: vec![],
        env_file: None,
        cwd: None,
        user: None,
        autostart: false,
        retry_limit: 3,
        autorestart: AutoRestart::Unexpected,
        exitcodes: vec![],
        startsecs: 0,
        stopsecs: None,
        priority: 999,
        stdout_logfile: None,
        stderr_logfile: None,
        group: None,
        depends_on: vec![],
        health_check: None,
        hooks: Hooks::default(),
        artifact: None,
        cron: None,
        on_overlap: None,
        catchup: None,
        jitter_sec: None,
        max_concurrent: None,
        max_queued: None,
        numprocs: 0,
        process_name: None,
        resource_limits: None,
    }
}

fn registry(programs: Vec<(u128, ProgramConfig)>) -> ProcessRegistry {
    ProcessRegistry::new(programs.into_iter().collect(), HashMap::new())
}

fn empty_state() -> ManagerState {
    ManagerState {
        registry: registry(vec![]),
        scheduler: CronScheduler::new(),
        pending_cron: CronQueue::new(),
    }
}

fn launch(r: &mut ProcessRegistry, id: u128, pid: u32, now: u64) {
    match r.begin_spawn(id) {
        Ok(SpawnGate::Proceed { .. }) => {}
        other => panic!("unexpected gate {:?}", other),
    }
    r.complete_spawn(id, pid, 0, now);
}

#[test]
fn missing_dependency_waits_visibly_then_recovers() {
    let mut r = registry(vec![(1, config("app", &["dep"]))]);
    match r.begin_spawn(1).unwrap() {
        SpawnGate::Waiting { unready, auto_start } => {
            assert_eq!(unready.len(), 1);
            assert_eq!(unready[0].state, DepState::Missing);
            assert!(auto_start.is_empty());
        }
        other => panic!("unexpected gate {:?}", other),
    }
    assert!(r.waiting.contains(&1));
    let last_error = r.startup_errors.get(&1).unwrap().clone();
    assert!(last_error.contains("dep") && last_error.contains("not found"), "{last_error}");
    assert_eq!(last_error, "Dependency 'dep' not found");
    r.programs.insert(2, config("dep", &[]));
    launch(&mut r, 2, 20, 10);
    r.running.values_mut().for_each(|v| v.iter_mut().for_each(|s| s.is_healthy = true));
    launch(&mut r, 1, 10, 11);
    assert!(r.startup_errors.get(&1).is_none());
}

#[test]
fn held_stopped_dependency_is_not_revived() {
    let mut r = registry(vec![(1, config("hs-app", &["hs-dep"])), (2, config("hs-dep", &[]))]);
    match r.begin_spawn(1).unwrap() {
        SpawnGate::Waiting { auto_start, .. } => assert_eq!(auto_start, vec![2]),
        other => panic!("unexpected gate {:?}", other),
    }
    launch(&mut r, 2, 20, 10);
    assert!(matches!(r.begin_stop(2, false, 10), StopPlan::Signal { .. }));
    r.handle_exited(2, 20, None, Some(15), 11);
    r.begin_stop(1, false, 10);
    match r.begin_spawn(1).unwrap() {
        SpawnGate::Waiting { unready, auto_start } => {
            assert_eq!(unready[0].state, DepState::NotRunning { auto_start: false });
            assert!(auto_start.is_empty(), "held dependency must not be revived");
        }
        other => panic!("unexpected gate {:?}", other),
    }
    r.release_hold(2);
    match r.begin_spawn(1).unwrap() {
        SpawnGate::Waiting { auto_start, .. } => assert_eq!(auto_start, vec![2]),
        other => panic!("unexpected gate {:?}", other),
    }
}

#[test]
fn dependency_auto_start_does_not_flip_autostart() {
    let mut r = registry(vec![(1, config("app", &["dep"])), (2, config("dep", &[]))]);
    r.begin_spawn(1).unwrap();
    launch(&mut r, 2, 20, 10);
    assert!(!r.programs.get(&2).unwrap().autostart);
}

#[test]
fn test_create_rejects_empty_command() {
    let mut st = empty_state();
    let err = st.handle_create(&request("empty-cmd", "   "), 1).unwrap_err();
    assert!(matches!(err, CreateError::InvalidRequest { .. }));
    let msg = err.message();
    assert!(msg.contains("command:"), "{msg}");
    assert!(msg.contains("empty-cmd"), "{msg}");
    assert_eq!(msg, "program 'empty-cmd': command: must not be empty");
    assert!(st.registry.programs.is_empty());
    assert_eq!(validate_create_request(&request("x", "/bin/true")), Ok(()));
    assert_eq!(validate_create_request(&request("x", "")), Err(RequestError::EmptyCommand));
}

#[test]
fn test_stack_validation_names_service_index() {
    let mut st = empty_state();
    let err = st.apply_stack(vec![request("web", "  ")], false, 1).unwrap_err();
    assert!(matches!(err, StackError::InvalidService { index: 0, .. }));
    let msg = err.message();
    assert!(msg.contains("services[0] (name=web)"), "got: {msg}");
    assert!(msg.contains("command:"), "got: {msg}");
    let err = st.apply_stack(vec![request("a", "/bin/true"), request("b", "")], false, 1).unwrap_err();
    assert_eq!(err.message(), "services[1] (name=b): command: must not be empty");
    assert!(st.registry.programs.is_empty());
}

#[test]
fn fatal_exit_appends_an_event() {
    let mut r = registry(vec![(1, config("app", &[]))]);
    for (i, pid) in [10u32, 11, 12].iter().enumerate() {
        r.begin_spawn(1).unwrap();
        r.complete_spawn(1, *pid, i as u32, 100);
        let rep = r.handle_exited(1, *pid, Some(1), None, 101);
        let e = rep.event.clone().unwrap();
        match rep.outcome {
            ExitOutcome::Backoff { retries, .. } => {
                assert_eq!(e.event, "process_backoff");
                assert_eq!(e.retry_count, Some(retries));
            }
            ExitOutcome::Fatal { attempts } => {
                assert_eq!(e.event, "process_fatal");
                assert_eq!(e.retry_count, Some(attempts as u32));
                assert_eq!(e.msg, "Stopped after 3 retries. Last exit code: Some(1)");
            }
            other => panic!("unexpected {:?}", other),
        }
        assert_eq!(e.ts, 101);
        assert_eq!(e.ts_ms, 101_000);
        assert_eq!(e.program_id, Some(1));
        assert_eq!(e.program_name.as_deref(), Some("app"));
    }
    let events = r.get_events(&1);
    assert_eq!(events.len(), 3);
    assert_eq!(events[2].event, "process_fatal");
}

#[test]
fn rollback_records_process_fatal() {
    let mut c = config("app", &[]);
    c.restore_path = Some("/srv/app.bak".to_string());
    let mut r = registry(vec![(1, c)]);
    r.finish_rollback(1, true, Some(2), None, 77).unwrap();
    let events = r.get_events(&1);
    assert_eq!(events.len(), 1);
    assert_eq!(events[0].event, "process_fatal");
    assert_eq!(events[0].msg, "OTA upgrade failed. Automatically rolled back to previous version.");
    assert_eq!(events[0].exit_code, Some(2));
    assert_eq!(events[0].ts, 77);
}

#[test]
fn waiting_retries_do_not_count_as_starts() {
    let mut r = registry(vec![(1, config("app", &["slow-db"])), (2, config("slow-db", &[]))]);
    let mut t = FlappingTracker::new();
    for _ in 0..5 {
        assert!(matches!(r.begin_spawn(1).unwrap(), SpawnGate::Waiting { .. }));
    }
    launch(&mut r, 2, 20, 10);
    r.running.values_mut().for_each(|v| v.iter_mut().for_each(|s| s.is_healthy = true));
    match r.begin_spawn(1).unwrap() {
        SpawnGate::Proceed { track_flapping } => {
            assert!(t.admit_launch(&mut r, 1, track_flapping, 12, 60, 2));
        }
        other => panic!("unexpected gate {:?}", other),
    }
    assert!(!r.crashed.contains(&1));
}

#[test]
fn crash_loop_still_fatales() {
    let mut r = registry(vec![(1, config("bad", &[]))]);
    let mut t = FlappingTracker::new();
    assert!(t.admit_launch(&mut r, 1, true, 100, 60, 2));
    assert!(!t.admit_launch(&mut r, 1, true, 101, 60, 2));
    assert!(r.crashed.contains(&1));
    assert_eq!(
        r.startup_errors.get(&1).map(|s| s.as_str()),
        Some("FLAPPING DETECTED: Restarted too frequently in 60s.")
    );
    assert!(!r.programs.get(&1).unwrap().autostart);
    let mut t = FlappingTracker::new();
    let mut r2 = registry(vec![(1, config("slow", &[]))]);
    assert!(t.admit_launch(&mut r2, 1, true, 100, 60, 2));
    assert!(t.admit_launch(&mut r2, 1, true, 200, 60, 2));
    assert!(t.admit_launch(&mut r2, 1, false, 201, 60, 2));
    assert!(t.is_flapping(1, 100, 2));
    assert!(!t.is_flapping(1, 99, 2));
    assert!(!t.is_flapping(1, 60, 0));
}

#[test]
fn test_stopsecs_fallback_to_server_default() {
    let mut r = registry(vec![(1, config("svc", &[]))]);
    assert_eq!(r.stop_timeout(&1, 42), 42);
    r.programs.get_mut(&1).unwrap().stopsecs = Some(120);
    assert_eq!(r.stop_timeout(&1, 42), 120);
}

#[test]
fn test_memory_events_json_roundtrip_and_payload() {
    let pressure = SystemEvent::MemoryPressure {
        program_id: 7,
        program_name: "api".to_string(),
        pid: Some(77),
        usage_bytes: 600 * 1024 * 1024,
        limit_bytes: 512 * 1024 * 1024,
        warn_bytes: 400 * 1024 * 1024,
    };
    assert_eq!(pressure.event_type(), "memory_pressure");
    assert_eq!(pressure.program_name().map(|s| s.as_str()), Some("api"));
    let oom = SystemEvent::MemoryOomKill {
        program_id: 7,
        program_name: "api".to_string(),
        pid: None,
        anon_bytes: 700 * 1024 * 1024,
        limit_bytes: 512 * 1024 * 1024,
        usage_bytes: 900 * 1024 * 1024,
    };
    assert_eq!(oom.event_type(), "memory_oom_kill");
    assert_eq!(oom.program_name().map(|s| s.as_str()), Some("api"));
}

#[test]
fn test_memory_event_hook_payload_uses_bytes() {
    let payload = build_payload(
        &SystemEvent::MemoryPressure {
            program_id: 3,
            program_name: "db".to_string(),
            pid: Some(3),
            usage_bytes: 100 * 1024 * 1024,
            limit_bytes: 128 * 1024 * 1024,
            warn_bytes: 102 * 1024 * 1024,
        },
        "host",
        "2024-01-01T00:00:00Z",
        "1.0",
    );
    let body: serde_json::Value = serde_json::from_str(&payload).unwrap();
    assert_eq!(body["event"], "memory_pressure");
    assert_eq!(body["program"]["name"], "db");
    assert_eq!(body["payload"]["usage_bytes"], 100 * 1024 * 1024);
    assert_eq!(body["payload"]["limit_bytes"], 128 * 1024 * 1024);
    assert_eq!(body["payload"]["warn_bytes"], 102 * 1024 * 1024);
}

#[test]
fn checksum_verification_and_download_retry() {
    let abc = "ba7816bf8f01cfea414140de5dae2223b00361a396177a9cb410ff61f20015ad";
    assert!(verify_artifact_checksum(b"abc", abc).is_ok());
    match verify_artifact_checksum(b"abd", abc) {
        Err(ArtifactError::ChecksumMismatch { expected, got }) => {
            assert_eq!(expected, abc);
            assert_eq!(got.len(), 64);
            assert_ne!(got, abc);
        }
        other => panic!("unexpected {:?}", other),
    }
    assert!(verify_artifact_checksum(b"abc", &abc.to_uppercase()).is_err());
    assert_eq!(download_retry(1, false), Some(1));
    assert_eq!(download_retry(2, false), Some(2));
    assert_eq!(download_retry(3, false), Some(4));
    assert_eq!(download_retry(4, false), None);
    assert_eq!(download_retry(1, true), None);
}

#[test]
fn clock_bounds_match_chrono() {
    assert_eq!(chrono::DateTime::<chrono::Utc>::MAX_UTC.timestamp_millis(), CHRONO_MAX_MS);
    assert_eq!(CRON_AFTER_MAX_MS, CHRONO_MAX_MS - 1000);
    let mut s = CronScheduler::new();
    assert!(!s.upsert(1, "0/1 * * * * * *", 0, Some(CRON_AFTER_MAX_MS + 1)));
    assert!(s.get_next_run(&1).is_none());
    assert!(s.upsert_at(1, "0/1 * * * * * *", 0, CRON_AFTER_MAX_MS) == false);
    assert_eq!(host_or_unknown(None), "unknown");
    assert_eq!(host_or_unknown(Some("box".to_string())), "box");
}

#[test]
fn start_queue_is_bounded_and_lifo() {
    let mut q = StartQueue::new(1, 3, 1);
    assert_eq!(q.next(), Some((1, 3)));
    q.push_deps(&vec![2, 3]);
    assert_eq!(q.next(), Some((3, 0)));
    assert_eq!(q.next(), Some((2, 0)));
    q.push_deps(&vec![4]);
    assert_eq!(q.next(), None, "budget of 3 starts is spent");
    let mut q = StartQueue::new(9, 0, 5);
    assert_eq!(q.next(), Some((9, 0)));
    assert_eq!(q.next(), None);
}

#[test]
fn group_targets_refuse_empty_groups() {
    let mut a = config("a", &[]);
    a.group = Some("web".to_string());
    let r = registry(vec![(1, a), (2, config("b", &[]))]);
    assert_eq!(r.group_targets("web").unwrap(), vec![1]);
    let e = r.group_targets("db").unwrap_err();
    assert_eq!(e.message(), "Group not found");
}

#[test]
fn last_run_anchor_matches_chrono() {
    for t in [0u64, 1_700_000_000, 8_210_266_876_799, 8_210_266_876_800, u64::MAX, u64::MAX - 8_334_601_228_799, u64::MAX - 8_334_601_228_800, 1 << 63] {
        let mut c = config("job", &[]);
        c.cron_last_run = Some(t);
        let expected = chrono::DateTime::<chrono::Utc>::from_timestamp(t as i64, 0).map(|d| d.timestamp_millis());
        assert_eq!(last_run_anchor(&c), expected, "t = {t}");
    }
    assert_eq!(last_run_anchor(&config("job", &[])), None);
}
