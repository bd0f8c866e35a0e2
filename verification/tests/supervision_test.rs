use std::collections::HashMap;
use super_core::cron_policy::{Admission, CronQueue, DrainStep};
use super_core::exit::ExitOutcome;
use super_core::lifecycle::{DepState, SpawnError, SpawnGate, StopPlan};
use super_core::manager::ManagerState;
use super_core::model::{AutoRestart, CronCatchup, CronOverlap, HealthTuning, Hooks, ProgramConfig};
use super_core::registry::{ProcessRegistry, RuntimeState};
use super_core::scheduler::{CronScheduler, CronTrigger};

fn config(name: &str) -> ProgramConfig {
    ProgramConfig {
        name: name.to_string(),
        command: "/bin/sleep".to_string(),
        args: vec![],
        env: vec![],
        env_file: None,
        cwd: None,
        user: None,
        autostart: true,
        retry_limit: 2,
        autorestart: AutoRestart::Unexpected,
        exitcodes: vec![0],
        startsecs: 5,
        stopsecs: Some(7),
        priority: 999,
        stdout_logfile: None,
        stderr_logfile: None,
        group: None,
        depends_on: vec![],
        health_check: None,
        hooks: Hooks::default(),
        artifact: None,
        cron: None,
        on_overlap: None,
        catchup: None,
        jitter_sec: None,
        max_concurrent: None,
        max_queued: None,
        created_at: 1,
        updated_at: 1,
        restore_path: None,
        cron_last_run: None,
        resource_limits: None,
    }
}

fn registry(programs: Vec<(u128, ProgramConfig)>) -> ProcessRegistry {
    let mut m = HashMap::new();
    for (id, c) in programs {
        m.insert(id, c);
    }
    ProcessRegistry::new(m, HashMap::new())
}

fn launch(r: &mut ProcessRegistry, id: u128, pid: u32, retries: u32, now: u64) {
    match r.begin_spawn(id) {
        Ok(SpawnGate::Proceed { .. }) => {}
        other => panic!("unexpected gate {:?}", other),
    }
    r.complete_spawn(id, pid, retries, now);
}

#[test]
fn exit_of_unknown_instance_is_ignored() {
    let mut r = registry(vec![(1, config("a"))]);
    let rep = r.handle_exited(1, 42, Some(1), None, 100);
    assert_eq!(rep.outcome, ExitOutcome::Ignored);
    assert_eq!(rep.exited_pid, 0);
    assert!(rep.message.is_empty());
}

#[test]
fn early_crashes_back_off_then_go_fatal() {
    let mut r = registry(vec![(1, config("a"))]);
    launch(&mut r, 1, 10, 0, 100);
    let rep = r.handle_exited(1, 10, Some(1), None, 101);
    assert_eq!(rep.outcome, ExitOutcome::Backoff { retries: 1, delay_secs: 1 });
    assert_eq!(rep.exited_pid, 10);
    assert_eq!(rep.uptime_secs, 1);
    assert_eq!(rep.message, "Crash detected, retrying in 1s");
    assert!(r.restarting.contains(&1));

    launch(&mut r, 1, 11, 1, 102);
    assert!(!r.restarting.contains(&1));
    let rep = r.handle_exited(1, 11, Some(1), None, 103);
    assert_eq!(rep.outcome, ExitOutcome::Backoff { retries: 2, delay_secs: 2 });

    launch(&mut r, 1, 12, 2, 104);
    let rep = r.handle_exited(1, 12, Some(1), None, 105);
    assert_eq!(rep.outcome, ExitOutcome::Fatal { attempts: 3 });
    assert_eq!(rep.message, "Stopped after 3 retries. Last exit code: Some(1)");
    assert!(r.crashed.contains(&1));
    assert_eq!(r.startup_errors.get(&1).map(|s| s.as_str()), Some(rep.message.as_str()));
    let c = r.programs.get(&1).unwrap();
    assert!(!c.autostart);
    assert_eq!(c.updated_at, 105);
}

#[test]
fn long_run_resets_the_retry_count() {
    let mut r = registry(vec![(1, config("a"))]);
    launch(&mut r, 1, 10, 2, 100);
    let rep = r.handle_exited(1, 10, Some(1), None, 200);
    assert_eq!(rep.outcome, ExitOutcome::Backoff { retries: 0, delay_secs: 1 });
    assert_eq!(rep.uptime_secs, 100);
}

#[test]
fn expected_exit_and_signal_do_not_restart() {
    let mut r = registry(vec![(1, config("a"))]);
    launch(&mut r, 1, 10, 0, 100);
    let rep = r.handle_exited(1, 10, Some(0), None, 150);
    assert_eq!(rep.outcome, ExitOutcome::NoRestart);
    assert_eq!(rep.message, "Process exited with code Some(0)");
    let mut c = config("b");
    c.autorestart = AutoRestart::Never;
    let mut r = registry(vec![(2, c)]);
    launch(&mut r, 2, 20, 0, 100);
    let rep = r.handle_exited(2, 20, None, Some(9), 150);
    assert_eq!(rep.outcome, ExitOutcome::NoRestart);
    assert_eq!(rep.message, "Process killed by signal 9 (exit code None)");
}

#[test]
fn intentional_stop_and_restart() {
    let mut r = registry(vec![(1, config("a"))]);
    launch(&mut r, 1, 10, 0, 100);
    let plan = r.begin_stop(1, false, 10);
    assert_eq!(plan, StopPlan::Signal { pids: vec![10], kill: false, timeout_secs: 7, primary_pid: 10 });
    assert!(!r.programs.get(&1).unwrap().autostart);
    assert!(r.timeout_kill_due(&1, 10));
    assert!(!r.timeout_kill_due(&1, 11));
    let rep = r.handle_exited(1, 10, None, Some(15), 101);
    assert_eq!(rep.outcome, ExitOutcome::Stopped);
    assert!(!r.timeout_kill_due(&1, 10));
    assert_eq!(r.begin_stop(1, true, 10), StopPlan::NotRunning);

    launch(&mut r, 1, 11, 0, 200);
    r.begin_restart(1, 10, 201);
    let rep = r.handle_exited(1, 11, None, Some(15), 202);
    assert_eq!(rep.outcome, ExitOutcome::Respawn);
}

#[test]
fn stop_cancels_a_pending_backoff() {
    let mut r = registry(vec![(1, config("a"))]);
    launch(&mut r, 1, 10, 0, 100);
    r.handle_exited(1, 10, Some(3), None, 101);
    assert!(r.restarting.contains(&1));
    assert_eq!(r.begin_stop(1, false, 10), StopPlan::CancelledBackoff);
    assert!(!r.restarting.contains(&1));
}

#[test]
fn cron_run_completion() {
    let mut c = config("job");
    c.cron = Some("0 * * * * *".to_string());
    let mut r = registry(vec![(1, c)]);
    launch(&mut r, 1, 10, 0, 100);
    let rep = r.handle_exited(1, 10, Some(0), None, 103);
    assert_eq!(rep.outcome, ExitOutcome::CronDone { success: true, last_instance: true });
    assert_eq!(rep.message, "Cron job finished successfully (ran 3s)");
    launch(&mut r, 1, 11, 0, 200);
    let rep = r.handle_exited(1, 11, Some(2), None, 201);
    assert_eq!(rep.outcome, ExitOutcome::CronDone { success: false, last_instance: true });
    assert_eq!(rep.message, "Cron job failed with code Some(2) after 1s");
}

#[test]
fn removed_program_exit() {
    let mut r = registry(vec![(1, config("a"))]);
    launch(&mut r, 1, 10, 0, 100);
    r.programs.remove(&1);
    let rep = r.handle_exited(1, 10, Some(1), None, 101);
    assert_eq!(rep.outcome, ExitOutcome::ConfigGone);
    assert_eq!(rep.exited_pid, 10);
}

#[test]
fn spawn_gate_outcomes() {
    let mut web = config("web");
    web.depends_on = vec!["db".to_string(), "cache".to_string()];
    let db = config("db");
    let mut r = registry(vec![(1, web), (2, db)]);
    assert_eq!(r.begin_spawn(9).unwrap_err(), SpawnError::NotFound);
    match r.begin_spawn(1).unwrap() {
        SpawnGate::Waiting { unready, auto_start } => {
            let got: Vec<(String, DepState)> = unready.into_iter().map(|d| (d.name, d.state)).collect();
            assert_eq!(
                got,
                vec![
                    ("db".to_string(), DepState::NotRunning { auto_start: true }),
                    ("cache".to_string(), DepState::Missing),
                ]
            );
            assert_eq!(auto_start, vec![2]);
        }
        other => panic!("unexpected gate {:?}", other),
    }
    assert!(r.waiting.contains(&1));
    launch(&mut r, 2, 20, 0, 100);
    assert_eq!(r.begin_spawn(2).unwrap_err(), SpawnError::AlreadyRunning { scheduled: false, max_concurrent: 1 });
    assert_eq!(
        SpawnError::AlreadyRunning { scheduled: true, max_concurrent: 3 }.message(),
        "Program is already running at max_concurrent=3"
    );
}

#[test]
fn new_instance_health_and_failure() {
    let mut c = config("a");
    c.health_check = Some(Some(HealthTuning { interval_secs: 0, start_period_secs: 2, max_failures: 3 }));
    let mut r = registry(vec![(1, c)]);
    r.begin_spawn(1).unwrap();
    let info = r.complete_spawn(1, 10, 1, 100);
    assert!(!info.healthy);
    assert_eq!(info.probe, Some(HealthTuning { interval_secs: 1, start_period_secs: 2, max_failures: 3 }));
    let st: &RuntimeState = r.get_running(&1).unwrap();
    assert!(!st.is_healthy);
    assert!(st.alert_pending_recovery);
    let mut r = registry(vec![(2, config("b"))]);
    r.record_start_failure(2, Some("exec failed".to_string()));
    assert!(r.crashed.contains(&2));
    assert_eq!(r.startup_errors.get(&2).map(|s| s.as_str()), Some("exec failed"));
}

#[test]
fn cron_admission_drain_and_start() {
    let mut c = config("job");
    c.cron = Some("0 * * * * *".to_string());
    c.on_overlap = Some(CronOverlap::Queue);
    c.catchup = Some(CronCatchup::All);
    c.max_queued = Some(2);
    let mut st = ManagerState {
        registry: registry(vec![(1, c)]),
        scheduler: CronScheduler::new(),
        pending_cron: CronQueue::new(),
    };
    assert_eq!(st.admit_cron_trigger(CronTrigger { id: 9, missed_slots: 1 }), None);
    let a = st.admit_cron_trigger(CronTrigger { id: 1, missed_slots: 3 }).unwrap();
    assert_eq!(a, Admission::Queued { runs: 3, kill_oldest: false });
    assert_eq!(st.pending_cron.pending.get(&1), Some(&3));
    let a = st.admit_cron_trigger(CronTrigger { id: 1, missed_slots: 1 }).unwrap();
    assert_eq!(a, Admission::QueueFull { kill_oldest: false });
    assert_eq!(st.pending_cron.pending.get(&1), Some(&3));
    assert_eq!(st.cron_drain_step(&1), DrainStep::SpawnOne);
    st.record_cron_start(1, 500);
    assert_eq!(st.registry.programs.get(&1).unwrap().cron_last_run, Some(500));
    assert_eq!(st.pending_cron.pending.get(&1), Some(&2));
    launch(&mut st.registry, 1, 10, 0, 500);
    assert_eq!(st.cron_drain_step(&1), DrainStep::Wait);
    st.registry.handle_exited(1, 10, Some(0), None, 510);
    assert_eq!(st.cron_drain_step(&1), DrainStep::SpawnOne);
    st.record_cron_start(1, 511);
    st.record_cron_start(1, 512);
    assert_eq!(st.pending_cron.pending.get(&1), None);
    assert_eq!(st.cron_drain_step(&1), DrainStep::Forget);
}
