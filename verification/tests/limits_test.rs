use std::collections::HashMap;
use super_core::create::CreateRequest;
use super_core::cron_policy::CronQueue;
use super_core::limits::{apply_resource_limits_patch, validate_resource_limits_patch, LimitsError};
use super_core::manager::{ManagerState, UpdateError, UpdateRequest};
use super_core::model::{AutoRestart, CpuQuota, CpuSign, Hooks, ResourceLimits};
use super_core::registry::ProcessRegistry;
use super_core::scheduler::CronScheduler;

fn cpu(c: f64) -> CpuQuota {
    let sign = if c > 0.0 {
        CpuSign::Positive
    } else if c == -1.0 {
        CpuSign::RemovalSentinel
    } else if c <= 0.0 {
        CpuSign::NonPositive
    } else {
        CpuSign::Unordered
    };
    CpuQuota { bits: c.to_bits(), sign }
}

fn limits(
    cpu_quota: Option<f64>,
    memory_limit: Option<u64>,
    memory_warn_percent: Option<u32>,
    memory_warn_headroom: Option<u64>,
    memory_high: Option<u64>,
) -> ResourceLimits {
    ResourceLimits {
        cpu_quota: cpu_quota.map(cpu),
        memory_limit,
        memory_warn_percent,
        memory_warn_headroom,
        memory_high,
    }
}

fn request(name: &str) -> CreateRequest {
    CreateRequest {
        name: Some(name.to_string()),
        command: "/bin/sleep".to_string(),
        args: vec!["3600".to_string()],
        env: vec![],
        env_file: None,
        cwd: None,
        user: None,
        autostart: false,
        retry_limit: 3,
        autorestart: AutoRestart::Unexpected,
        exitcodes: vec![],
        startsecs: 0,
        stopsecs: None,
        priority: 999,
        stdout_logfile: None,
        stderr_logfile: None,
        group: None,
        depends_on: vec![],
        health_check: None,
        hooks: Hooks::default(),
        artifact: None,
        cron: None,
        on_overlap: None,
        catchup: None,
        jitter_sec: None,
        max_concurrent: None,
        max_queued: None,
        numprocs: 0,
        process_name: None,
        resource_limits: None,
    }
}

fn empty_state() -> ManagerState {
    ManagerState {
        registry: ProcessRegistry::new(HashMap::new(), HashMap::new()),
        scheduler: CronScheduler::new(),
        pending_cron: CronQueue::new(),
    }
}

#[test]
fn patch_applies_new_limits() {
    let mut existing = None;
    apply_resource_limits_patch(&mut existing, limits(Some(0.5), Some(512), Some(80), None, Some(448)));
    let l = existing.unwrap();
    assert_eq!(l.cpu_quota.map(|c| f64::from_bits(c.bits)), Some(0.5));
    assert_eq!(l.memory_limit, Some(512));
    assert_eq!(l.memory_warn_percent, Some(80));
    assert_eq!(l.memory_high, Some(448));
}

#[test]
fn patch_sentinels_clear_fields() {
    let mut existing = Some(limits(Some(0.5), Some(512), Some(80), None, Some(448)));
    apply_resource_limits_patch(&mut existing, limits(Some(-1.0), Some(0), Some(0), None, Some(0)));
    assert!(existing.is_none());
}

#[test]
fn patch_allows_removal_sentinels_in_validation() {
    validate_resource_limits_patch(&limits(Some(-1.0), Some(0), Some(0), None, None)).unwrap();
}

#[test]
fn validation_refuses_bad_values() {
    assert_eq!(
        validate_resource_limits_patch(&limits(Some(0.0), None, None, None, None)),
        Err(LimitsError::CpuNotPositive)
    );
    assert_eq!(
        validate_resource_limits_patch(&limits(Some(-2.0), None, None, None, None)),
        Err(LimitsError::CpuNotPositive)
    );
    let e = validate_resource_limits_patch(&limits(None, None, Some(101), None, None)).unwrap_err();
    assert_eq!(e, LimitsError::WarnPercent { got: 101 });
    assert_eq!(e.message(), "memory_warn_percent must be 0–100 (got 101)");
    assert_eq!(LimitsError::CpuNotPositive.message(), "CPU quota must be positive");
    assert!(validate_resource_limits_patch(&limits(Some(f64::NAN), None, Some(100), None, None)).is_ok());
}

#[test]
fn patch_keeps_unmentioned_fields_and_drops_empty_limits() {
    let mut existing = Some(limits(Some(2.0), Some(1024), None, Some(64), None));
    apply_resource_limits_patch(&mut existing, limits(None, Some(2048), None, None, Some(1500)));
    assert_eq!(existing, Some(limits(Some(2.0), Some(2048), None, Some(64), Some(1500))));
    let mut only_warn = Some(limits(Some(1.0), None, Some(50), None, None));
    apply_resource_limits_patch(&mut only_warn, limits(Some(-1.0), None, None, None, None));
    assert!(only_warn.is_none(), "no cpu quota and no memory cap left");
    let mut none = None;
    apply_resource_limits_patch(&mut none, limits(Some(-1.0), Some(0), Some(200), None, None));
    assert!(none.is_none());
    apply_resource_limits_patch(&mut none, limits(None, None, Some(100), None, None));
    assert_eq!(none, Some(limits(None, None, Some(100), None, None)));
}

#[test]
fn update_applies_limits_and_reports_the_change() {
    let mut st = empty_state();
    let mut req = request("limited-worker");
    req.resource_limits = Some(limits(Some(25.0), None, None, None, None));
    let created = st.handle_create(&req, 1).unwrap();
    let id = created[0].id;
    assert_eq!(
        st.registry.programs.get(&id).unwrap().resource_limits,
        Some(limits(Some(25.0), None, None, None, None))
    );
    let upd = UpdateRequest {
        resource_limits: Some(limits(None, Some(64 * 1024 * 1024), None, None, None)),
        ..Default::default()
    };
    let o = st.handle_update(id, upd, 2).unwrap();
    assert!(o.limits_changed);
    assert_eq!(
        st.registry.programs.get(&id).unwrap().resource_limits.unwrap().memory_limit,
        Some(67108864)
    );
    let same = UpdateRequest { name: Some("limited-worker".to_string()), ..Default::default() };
    assert!(!st.handle_update(id, same, 3).unwrap().limits_changed);
    let bad = UpdateRequest { resource_limits: Some(limits(Some(0.0), None, None, None, None)), ..Default::default() };
    match st.handle_update(id, bad, 4) {
        Err(UpdateError::ResourceLimits(LimitsError::CpuNotPositive)) => {}
        other => panic!("unexpected {:?}", other.err()),
    }
    assert_eq!(
        UpdateError::ResourceLimits(LimitsError::CpuNotPositive).message(),
        "CPU quota must be positive"
    );
    assert_eq!(st.registry.programs.get(&id).unwrap().updated_at, 3);
}

#[test]
fn stack_logs_refused_limits_and_goes_on() {
    let mut st = empty_state();
    st.apply_stack(vec![request("a")], false, 1).unwrap();
    let before = st.registry.programs.values().next().unwrap().updated_at;
    let mut a = request("a");
    a.resource_limits = Some(limits(None, None, Some(150), None, None));
    let out = st.apply_stack(vec![a, request("b")], false, 2).unwrap();
    assert_eq!(
        out.logs,
        vec![
            "Updating service: a".to_string(),
            "Failed to update a: memory_warn_percent must be 0–100 (got 150)".to_string(),
            "Creating service: b".to_string(),
        ]
    );
    assert!(!out.entries[0].created);
    assert!(out.entries[0].update.is_none());
    assert_eq!(out.entries[0].refused, Some(LimitsError::WarnPercent { got: 150 }));
    assert!(out.entries[1].created);
    assert!(out.entries[1].refused.is_none());
    assert_eq!(st.registry.programs.len(), 2);
    let kept = st.registry.programs.get(&out.entries[0].id).unwrap();
    assert_eq!(kept.updated_at, before);
    assert!(kept.resource_limits.is_none());
    let mut c = request("c");
    c.resource_limits = Some(limits(None, None, Some(150), None, None));
    let out = st.apply_stack(vec![c], false, 3).unwrap();
    assert!(out.entries[0].created);
}
