//! State of the manager actor and the operations on it that span the
//! registry, the cron scheduler and the queue of pending cron runs.

use vstd::prelude::*;
use vstd::std_specs::iter::IteratorSpec;

use crate::cron_policy::{
    effective_catchup, effective_overlap, spec_add_runs, spec_admission, spec_catchup_runs, spec_queued,
    Admission, CronQueue, DrainStep,
};
use crate::model::{
    spec_max_concurrent_eff, spec_max_queued_eff, ArtifactConfig, AutoRestart, CronCatchup,
    clone_strings, CronOverlap, HealthTuning, Hooks, ProgramConfig, ResourceLimits,
};
use crate::limits::{
    apply_resource_limits_patch, spec_apply_limits_patch, spec_limits_error_message, spec_limits_refusal,
    validate_resource_limits_patch, LimitsError,
};
use crate::registry::{ProcessRegistry, RuntimeState};
use crate::lifecycle::spec_has_name;
use crate::deps::{
    contains_text, find_cycle, position, spec_deps_of, spec_lists, spec_names_of, spec_values, texts, texts2,
};
use crate::scheduler::{
    parse_schedule, spec_cron_next, spec_cron_parses, CronScheduler, CronTrigger, TaskView,
    MAX_JITTER_SECS,
};
use crate::text::{concat3, is_blank, spec_trim, spec_uuid_text, uuid_text};
use crate::create::{located_cron_message, spec_cron_error_message, spec_location};

verus! {

broadcast use vstd::std_specs::hash::group_hash_axioms;

/// The manager's state: programs and instances, cron tasks, pending runs.
pub struct ManagerState {
    pub registry: ProcessRegistry,
    pub scheduler: CronScheduler,
    pub pending_cron: CronQueue,
}

impl ManagerState {
    pub open spec fn wf(&self) -> bool {
        self.registry.wf() && self.scheduler.wf()
    }
}

/// A text that is empty once trimmed (the "clear this field" sentinel).
pub open spec fn spec_blank(s: String) -> bool {
    spec_trim(s@).len() == 0
}

/// Partial update of a program: each `Some` field replaces the stored one.
/// For the optional texts (`env_file`, `cwd`, `user`, `group`, the log
/// files, the cron expression, the artifact's source) a blank value clears
/// the field. `health_check`: `Some(None)` disables the probe.
#[derive(Default)]
pub struct UpdateRequest {
    pub name: Option<String>,
    pub command: Option<String>,
    pub args: Option<Vec<String>>,
    pub env: Option<Vec<(String, String)>>,
    pub env_file: Option<String>,
    pub cwd: Option<String>,
    pub user: Option<String>,
    pub group: Option<String>,
    pub cron: Option<String>,
    pub on_overlap: Option<CronOverlap>,
    pub catchup: Option<CronCatchup>,
    pub jitter_sec: Option<u64>,
    pub max_concurrent: Option<u32>,
    pub max_queued: Option<u32>,
    pub autostart: Option<bool>,
    pub retry_limit: Option<u32>,
    pub autorestart: Option<AutoRestart>,
    pub exitcodes: Option<Vec<i32>>,
    pub startsecs: Option<u32>,
    pub stopsecs: Option<u32>,
    pub priority: Option<i32>,
    pub stdout_logfile: Option<String>,
    pub stderr_logfile: Option<String>,
    pub depends_on: Option<Vec<String>>,
    pub health_check: Option<Option<HealthTuning>>,
    pub hooks: Option<Hooks>,
    pub artifact: Option<ArtifactConfig>,
    /// Patch of the resource limits (see [`spec_apply_limits_patch`]).
    pub resource_limits: Option<ResourceLimits>,
}

/// Why an update was refused.
#[derive(Debug)]
pub enum UpdateError {
    /// The new cron expression does not parse; `name` is the requested name,
    /// else the program's current one.
    InvalidCron { name: Option<String>, expr: String },
    /// The resource-limit patch is refused.
    ResourceLimits(LimitsError),
    /// No program has the id.
    NotFound,
    /// The new name is blank.
    EmptyName,
    /// Another program already has the new name.
    NameTaken { name: String, id: u128 },
    /// A new dependency names no program.
    UnknownDependency { program: String, dependency: String },
    /// The update would close a cycle of dependencies.
    DependencyCycle { program: String },
}

/// What the caller does after an accepted update.
#[derive(Debug)]
pub struct UpdateOutcome {
    /// Artifact to download: the update changed the artifact's checksum.
    pub ota: Option<ArtifactConfig>,
    /// Name of the program after the update.
    pub name: String,
    /// Pid of the primary instance when the update was received.
    pub pid: Option<u32>,
    /// The update changed the resource limits (the isolation plugin
    /// applies them to the running instance).
    pub limits_changed: bool,
}

/// Text of an update error.
pub open spec fn spec_update_error_message(e: UpdateError) -> Seq<char> {
    match e {
        UpdateError::InvalidCron { name, expr } => spec_location(None, name) + ": "@
            + spec_cron_error_message(expr@),
        UpdateError::ResourceLimits(l) => spec_limits_error_message(l),
        UpdateError::NotFound => "Program not found"@,
        UpdateError::EmptyName => "Program name cannot be empty"@,
        UpdateError::NameTaken { name, id } => "Program name '"@ + name@ + "' already exists (id: "@
            + spec_uuid_text(id) + ")"@,
        UpdateError::UnknownDependency { program, dependency } => "depends_on: program '"@ + program@
            + "' depends on unknown program '"@ + dependency@ + "'"@,
        UpdateError::DependencyCycle { program } => "depends_on: dependency cycle involving program '"@
            + program@ + "'"@,
    }
}

impl UpdateError {
    pub fn message(&self) -> (r: String)
        ensures
            r@ == spec_update_error_message(*self),
    {
        match self {
            UpdateError::InvalidCron { name, expr } => located_cron_message(None, name, expr.as_str()),
            UpdateError::ResourceLimits(l) => l.message(),
            UpdateError::NotFound => "Program not found".to_owned(),
            UpdateError::EmptyName => "Program name cannot be empty".to_owned(),
            UpdateError::NameTaken { name, id } => {
                let a = concat3("Program name '", name.as_str(), "' already exists (id: ");
                let u = uuid_text(*id);
                concat3(a.as_str(), u.as_str(), ")")
            },
            UpdateError::UnknownDependency { program, dependency } => {
                let a = concat3("depends_on: program '", program.as_str(), "' depends on unknown program '");
                concat3(a.as_str(), dependency.as_str(), "'")
            },
            UpdateError::DependencyCycle { program } => {
                concat3("depends_on: dependency cycle involving program '", program.as_str(), "'")
            },
        }
    }
}

/// A clearable optional text after an update.
pub open spec fn spec_clearable(v: Option<String>, cur: Option<String>) -> Option<String> {
    match v {
        Some(s) => if spec_blank(s) {
            None
        } else {
            Some(s)
        },
        None => cur,
    }
}

/// A plain field after an update.
pub open spec fn spec_or<T>(v: Option<T>, cur: T) -> T {
    match v {
        Some(x) => x,
        None => cur,
    }
}

/// An optional field after an update (a given value is stored as `Some`).
pub open spec fn spec_or_some<T>(v: Option<T>, cur: Option<T>) -> Option<T> {
    match v {
        Some(x) => Some(x),
        None => cur,
    }
}

/// The update clears the schedule (blank cron expression).
pub open spec fn spec_clears_cron(req: UpdateRequest) -> bool {
    req.cron matches Some(v) && spec_blank(v)
}

/// A cron-policy field after an update: cleared with the schedule unless
/// the update gives it.
pub open spec fn spec_cron_field<T>(v: Option<T>, cur: Option<T>, cleared: bool) -> Option<T> {
    match v {
        Some(x) => Some(x),
        None => if cleared {
            None
        } else {
            cur
        },
    }
}

/// Configuration of a program after an accepted update at `now`.
pub open spec fn spec_patched(c: ProgramConfig, req: UpdateRequest, now: u64) -> ProgramConfig {
    let cleared = spec_clears_cron(req);
    ProgramConfig {
        name: spec_or(req.name, c.name),
        command: spec_or(req.command, c.command),
        args: spec_or(req.args, c.args),
        env: spec_or(req.env, c.env),
        env_file: spec_clearable(req.env_file, c.env_file),
        cwd: spec_clearable(req.cwd, c.cwd),
        user: spec_clearable(req.user, c.user),
        group: spec_clearable(req.group, c.group),
        cron: match req.cron {
            Some(v) => if spec_blank(v) {
                None
            } else {
                Some(v)
            },
            None => c.cron,
        },
        on_overlap: spec_cron_field(req.on_overlap, c.on_overlap, cleared),
        catchup: spec_cron_field(req.catchup, c.catchup, cleared),
        jitter_sec: spec_cron_field(req.jitter_sec, c.jitter_sec, cleared),
        max_concurrent: spec_cron_field(req.max_concurrent, c.max_concurrent, cleared),
        max_queued: spec_cron_field(req.max_queued, c.max_queued, cleared),
        cron_last_run: if cleared {
            None
        } else {
            c.cron_last_run
        },
        autostart: spec_or(req.autostart, c.autostart),
        retry_limit: spec_or(req.retry_limit, c.retry_limit),
        autorestart: spec_or(req.autorestart, c.autorestart),
        exitcodes: spec_or(req.exitcodes, c.exitcodes),
        startsecs: spec_or(req.startsecs, c.startsecs),
        stopsecs: spec_or_some(req.stopsecs, c.stopsecs),
        priority: spec_or(req.priority, c.priority),
        stdout_logfile: spec_clearable(req.stdout_logfile, c.stdout_logfile),
        stderr_logfile: spec_clearable(req.stderr_logfile, c.stderr_logfile),
        depends_on: spec_or(req.depends_on, c.depends_on),
        health_check: match req.health_check {
            Some(h) => match h {
                Some(t) => Some(Some(t)),
                None => None,
            },
            None => c.health_check,
        },
        hooks: spec_or(req.hooks, c.hooks),
        artifact: match req.artifact {
            Some(a) => if spec_blank(a.source) {
                None
            } else {
                Some(a)
            },
            None => c.artifact,
        },
        updated_at: now,
        created_at: c.created_at,
        restore_path: c.restore_path,
        resource_limits: match req.resource_limits {
            Some(p) => spec_apply_limits_patch(c.resource_limits, p),
            None => c.resource_limits,
        },
    }
}

/// Checksum of the stored artifact (empty when there is none).
pub open spec fn spec_stored_checksum(c: ProgramConfig) -> Seq<char> {
    match c.artifact {
        Some(a) => a.checksum@,
        None => Seq::empty(),
    }
}

/// The artifact an accepted update asks to download: a new artifact whose
/// checksum differs from the stored one.
pub open spec fn spec_ota(c: ProgramConfig, req: UpdateRequest) -> Option<ArtifactConfig> {
    match req.artifact {
        Some(a) => if !spec_blank(a.source) && a.checksum@ != spec_stored_checksum(c) {
            Some(a)
        } else {
            None
        },
        None => None,
    }
}

/// First and last whole second that chrono represents
/// (`DateTime::<Utc>::MIN_UTC` and `MAX_UTC`), in Unix seconds.
pub const CHRONO_MIN_SECS: i64 = -8_334_601_228_800;
pub const CHRONO_MAX_SECS: i64 = 8_210_266_876_799;

/// A persisted last-run instant (Unix seconds) in milliseconds:
/// `DateTime::from_timestamp(t as i64, 0)` then `timestamp_millis`, where
/// `t as i64` wraps above `i64::MAX`; none when chrono cannot represent
/// that second.
pub open spec fn spec_chrono_secs_ms(t: u64) -> Option<i64> {
    let s: int = if t <= i64::MAX { t as int } else { t - 0x1_0000_0000_0000_0000 };
    if CHRONO_MIN_SECS <= s <= CHRONO_MAX_SECS {
        Some((s * 1000) as i64)
    } else {
        None
    }
}

/// Anchor of the cron task of a program: its last run, in milliseconds.
pub open spec fn spec_last_run_ms(c: ProgramConfig) -> Option<i64> {
    match c.cron_last_run {
        Some(t) => spec_chrono_secs_ms(t),
        None => None,
    }
}

/// The task of `id` is the same before and after.
pub open spec fn spec_task_same(before: Map<u128, TaskView>, after: Map<u128, TaskView>, id: u128) -> bool {
    &&& after.contains_key(id) == before.contains_key(id)
    &&& before.contains_key(id) ==> after[id] == before[id]
}

/// The task of `id`, if any, got the jitter `j` (same schedule and slot).
pub open spec fn spec_task_jittered(
    before: Map<u128, TaskView>,
    after: Map<u128, TaskView>,
    id: u128,
    j: u64,
) -> bool {
    &&& after.contains_key(id) == before.contains_key(id)
    &&& before.contains_key(id) ==> {
        &&& after[id].expr == before[id].expr
        &&& after[id].next_slot == before[id].next_slot
        &&& after[id].jitter_sec == j
    }
}

/// The task of `id` after a jitter update `jitter` of a program whose
/// (updated) configuration has a schedule exactly when `scheduled`.
pub open spec fn spec_task_after_jitter(
    before: Map<u128, TaskView>,
    after: Map<u128, TaskView>,
    id: u128,
    jitter: Option<u64>,
    scheduled: bool,
) -> bool {
    match jitter {
        Some(j) => if scheduled {
            spec_task_jittered(before, after, id, j)
        } else {
            spec_task_same(before, after, id)
        },
        None => spec_task_same(before, after, id),
    }
}

/// The cron task of the updated program: dropped with a cleared schedule;
/// for a new expression either registered anew (schedule, jitter, first
/// slot after the last run) or, when the schedule has no slot left, left
/// as it was; the jitter of the update applies last.
pub open spec fn spec_task_after_update(
    before: Map<u128, TaskView>,
    after: Map<u128, TaskView>,
    id: u128,
    c: ProgramConfig,
    req: UpdateRequest,
) -> bool {
    match req.cron {
        Some(v) => if spec_blank(v) {
            !after.contains_key(id)
        } else {
            ||| {
                &&& after.contains_key(id)
                &&& after[id].expr == v@
                &&& after[id].jitter_sec == spec_or(req.jitter_sec, spec_or(c.jitter_sec, 0))
                &&& spec_last_run_ms(c) matches Some(t) ==> Some(after[id].next_slot)
                    == spec_cron_next(v@, t as int)
            }
            ||| spec_task_after_jitter(before, after, id, req.jitter_sec, true)
        },
        None => spec_task_after_jitter(before, after, id, req.jitter_sec, c.cron is Some),
    }
}

/// Whether the update is refused, and why (checked in this order: the cron
/// expression, the program, the new name).
pub open spec fn spec_update_refusal(
    programs: Map<u128, ProgramConfig>,
    id: u128,
    req: UpdateRequest,
) -> Option<u8> {
    if req.cron matches Some(v) && !spec_blank(v) && !spec_cron_parses(v@) {
        Some(0)
    } else if req.resource_limits matches Some(l) && spec_limits_refusal(l) is Some {
        Some(4)
    } else if !programs.contains_key(id) {
        Some(1)
    } else if req.name matches Some(v) && v@ != programs[id].name@ && spec_blank(v) {
        Some(2)
    } else if req.name matches Some(v) && v@ != programs[id].name@ && exists|k: u128|
        #[trigger] programs.contains_key(k) && programs[k].name@ == v@ {
        Some(3)
    } else {
        None
    }
}

/// A persisted last-run instant in milliseconds (see
/// [`spec_chrono_secs_ms`]).
fn last_run_millis(t: u64) -> (r: Option<i64>)
    ensures
        r == spec_chrono_secs_ms(t),
{
    if t <= CHRONO_MAX_SECS as u64 {
        Some(t as i64 * 1000)
    } else if t >= u64::MAX - 8_334_601_228_799 {
        let neg: u64 = (u64::MAX - t) + 1;
        Some(-(neg as i64) * 1000)
    } else {
        None
    }
}

/// Anchor of the cron task of a program when it is registered again: its
/// last run in milliseconds (see [`spec_last_run_ms`]).
pub fn last_run_anchor(c: &ProgramConfig) -> (r: Option<i64>)
    ensures
        r == spec_last_run_ms(*c),
{
    match c.cron_last_run {
        Some(t) => last_run_millis(t),
        None => None,
    }
}

fn or_val<T>(v: Option<T>, cur: T) -> (r: T)
    ensures
        r == spec_or(v, cur),
{
    match v {
        Some(x) => x,
        None => cur,
    }
}

fn or_some<T>(v: Option<T>, cur: Option<T>) -> (r: Option<T>)
    ensures
        r == spec_or_some(v, cur),
{
    match v {
        Some(x) => Some(x),
        None => cur,
    }
}

fn clearable(v: Option<String>, cur: Option<String>) -> (r: Option<String>)
    ensures
        r == spec_clearable(v, cur),
{
    match v {
        Some(s) => if is_blank(s.as_str()) {
            None
        } else {
            Some(s)
        },
        None => cur,
    }
}

fn cron_field<T>(v: Option<T>, cur: Option<T>, cleared: bool) -> (r: Option<T>)
    ensures
        r == spec_cron_field(v, cur, cleared),
{
    match v {
        Some(x) => Some(x),
        None => if cleared {
            None
        } else {
            cur
        },
    }
}

/// The artifact after an update, and the one to download.
fn patch_artifact(a: Option<ArtifactConfig>, cur: Option<ArtifactConfig>) -> (r: (
    Option<ArtifactConfig>,
    Option<ArtifactConfig>,
))
    ensures
        r.0 == (match a {
            Some(x) => if spec_blank(x.source) {
                None
            } else {
                Some(x)
            },
            None => cur,
        }),
        r.1 == (match a {
            Some(x) => if !spec_blank(x.source) && x.checksum@ != (match cur {
                Some(y) => y.checksum@,
                None => Seq::<char>::empty(),
            }) {
                Some(x)
            } else {
                None
            },
            None => None,
        }),
{
    match a {
        Some(x) => {
            if is_blank(x.source.as_str()) {
                (None, None)
            } else {
                let differs = match &cur {
                    Some(y) => !(x.checksum == y.checksum),
                    None => {
                        let e = x.checksum.as_str().is_empty();
                        proof {
                            if e {
                                assert(x.checksum@ =~= Seq::<char>::empty());
                            }
                        }
                        !e
                    },
                };
                if differs {
                    let d = x.clone();
                    (Some(x), Some(d))
                } else {
                    (Some(x), None)
                }
            }
        },
        None => (cur, None),
    }
}

/// The configuration after an update, and the artifact to download.
fn patch_config(cfg: ProgramConfig, req: UpdateRequest, now: u64) -> (r: (
    ProgramConfig,
    Option<ArtifactConfig>,
))
    ensures
        r.0 == spec_patched(cfg, req, now),
        r.1 == spec_ota(cfg, req),
{
    let cleared = match &req.cron {
        Some(v) => is_blank(v.as_str()),
        None => false,
    };
    let cron = match req.cron {
        Some(v) => if is_blank(v.as_str()) {
            None
        } else {
            Some(v)
        },
        None => cfg.cron,
    };
    let health_check = match req.health_check {
        Some(h) => match h {
            Some(t) => Some(Some(t)),
            None => None,
        },
        None => cfg.health_check,
    };
    let (artifact, ota) = patch_artifact(req.artifact, cfg.artifact);
    let mut resource_limits = cfg.resource_limits;
    match req.resource_limits {
        Some(p) => apply_resource_limits_patch(&mut resource_limits, p),
        None => {},
    }
    let n = ProgramConfig {
        name: or_val(req.name, cfg.name),
        command: or_val(req.command, cfg.command),
        args: or_val(req.args, cfg.args),
        env: or_val(req.env, cfg.env),
        env_file: clearable(req.env_file, cfg.env_file),
        cwd: clearable(req.cwd, cfg.cwd),
        user: clearable(req.user, cfg.user),
        group: clearable(req.group, cfg.group),
        cron,
        on_overlap: cron_field(req.on_overlap, cfg.on_overlap, cleared),
        catchup: cron_field(req.catchup, cfg.catchup, cleared),
        jitter_sec: cron_field(req.jitter_sec, cfg.jitter_sec, cleared),
        max_concurrent: cron_field(req.max_concurrent, cfg.max_concurrent, cleared),
        max_queued: cron_field(req.max_queued, cfg.max_queued, cleared),
        cron_last_run: if cleared {
            None
        } else {
            cfg.cron_last_run
        },
        autostart: or_val(req.autostart, cfg.autostart),
        retry_limit: or_val(req.retry_limit, cfg.retry_limit),
        autorestart: or_val(req.autorestart, cfg.autorestart),
        exitcodes: or_val(req.exitcodes, cfg.exitcodes),
        startsecs: or_val(req.startsecs, cfg.startsecs),
        stopsecs: or_some(req.stopsecs, cfg.stopsecs),
        priority: or_val(req.priority, cfg.priority),
        stdout_logfile: clearable(req.stdout_logfile, cfg.stdout_logfile),
        stderr_logfile: clearable(req.stderr_logfile, cfg.stderr_logfile),
        depends_on: or_val(req.depends_on, cfg.depends_on),
        health_check,
        hooks: or_val(req.hooks, cfg.hooks),
        artifact,
        updated_at: now,
        created_at: cfg.created_at,
        restore_path: cfg.restore_path,
        resource_limits,
    };
    (n, ota)
}

impl ManagerState {
    /// Cron task and pending runs of `id` after an update of its
    /// configuration `c` (see [`spec_task_after_update`]).
    fn schedule_update(&mut self, id: u128, c: &ProgramConfig, req: &UpdateRequest)
        requires
            old(self).wf(),
            spec_or(req.jitter_sec, 0) <= MAX_JITTER_SECS,
            spec_or(c.jitter_sec, 0) <= MAX_JITTER_SECS,
        ensures
            final(self).wf(),
            final(self).registry == old(self).registry,
            final(self).scheduler@.remove(id) == old(self).scheduler@.remove(id),
            spec_task_after_update(old(self).scheduler@, final(self).scheduler@, id, *c, *req),
            final(self).pending_cron.pending@ == (if spec_clears_cron(*req) {
                old(self).pending_cron.pending@.remove(id)
            } else {
                old(self).pending_cron.pending@
            }),
    {
        let ghost s0 = self.scheduler@;
        let mut scheduled = c.cron.is_some();
        if let Some(v) = &req.cron {
            if is_blank(v.as_str()) {
                self.scheduler.remove(&id);
                self.pending_cron.forget(&id);
                scheduled = false;
            } else {
                let last_run = match c.cron_last_run {
                    Some(t) => last_run_millis(t),
                    None => None,
                };
                let jitter = match c.jitter_sec {
                    Some(j) => j,
                    None => 0,
                };
                self.scheduler.upsert(id, v.as_str(), jitter, last_run);
                scheduled = true;
            }
        }
        let ghost s1 = self.scheduler@;
        if let Some(j) = req.jitter_sec {
            if scheduled {
                self.scheduler.set_jitter(&id, j);
            }
        }
        assert(self.scheduler@.remove(id) =~= s0.remove(id));
    }
}

/// Name under which a refused update is reported: the requested name, else
/// the program's current one.
pub open spec fn spec_update_location_name(
    programs: Map<u128, ProgramConfig>,
    id: u128,
    req: UpdateRequest,
) -> Option<String> {
    match req.name {
        Some(n) => Some(n),
        None => if programs.contains_key(id) {
            Some(programs[id].name)
        } else {
            None
        },
    }
}

/// `e` is why the update of `id` is refused (see [`spec_update_refusal`]).
pub open spec fn spec_update_refused(
    programs: Map<u128, ProgramConfig>,
    id: u128,
    req: UpdateRequest,
    e: UpdateError,
) -> bool {
    match e {
        UpdateError::InvalidCron { name, expr } => {
            &&& spec_update_refusal(programs, id, req) == Some(0u8)
            &&& req.cron == Some(expr)
            &&& name == spec_update_location_name(programs, id, req)
        },
        UpdateError::ResourceLimits(le) => {
            &&& spec_update_refusal(programs, id, req) == Some(4u8)
            &&& req.resource_limits matches Some(l) && spec_limits_refusal(l) == Some(le)
        },
        UpdateError::NotFound => spec_update_refusal(programs, id, req) == Some(1u8),
        UpdateError::EmptyName => spec_update_refusal(programs, id, req) == Some(2u8),
        UpdateError::NameTaken { name, id: other } => {
            &&& spec_update_refusal(programs, id, req) == Some(3u8)
            &&& req.name == Some(name)
            &&& programs.contains_key(other)
            &&& programs[other].name@ == name@
            &&& other != id
        },
        UpdateError::UnknownDependency { .. } => false,
        UpdateError::DependencyCycle { .. } => false,
    }
}

/// `after` is `before` with the update of `id` applied at `now`, and `o`
/// what the caller does next.
pub open spec fn spec_update_applied(
    before: ManagerState,
    after: ManagerState,
    id: u128,
    req: UpdateRequest,
    now: u64,
    o: UpdateOutcome,
) -> bool {
    let c = before.registry.programs@[id];
    let n = spec_patched(c, req, now);
    &&& spec_update_refusal(before.registry.programs@, id, req) is None
    &&& after.registry.programs@ == before.registry.programs@.insert(id, n)
    &&& after.registry.running@ == before.registry.running@
    &&& after.registry.dirty
    &&& o.ota == spec_ota(c, req)
    &&& o.name == n.name
    &&& o.limits_changed == (n.resource_limits != c.resource_limits)
    &&& o.pid == (if before.registry.instances(id).len() > 0 {
        Some(before.registry.instances(id)[0].pid)
    } else {
        None
    })
    &&& after.scheduler@.remove(id) == before.scheduler@.remove(id)
    &&& spec_task_after_update(before.scheduler@, after.scheduler@, id, c, req)
    &&& after.pending_cron.pending@ == (if spec_clears_cron(req) {
        before.pending_cron.pending@.remove(id)
    } else {
        before.pending_cron.pending@
    })
}

impl ManagerState {
    /// Apply a partial update to program `id` at `now` (Unix seconds),
    /// without checking its dependencies (a stack checks them for all its
    /// entries at once; see [`ManagerState::handle_update`]).
    ///
    /// A refused update changes nothing. An accepted one replaces the
    /// program's configuration, re-registers or drops its cron task,
    /// drops its pending cron runs when the schedule is cleared, and marks
    /// the registry dirty.
    pub fn apply_update(&mut self, id: u128, req: UpdateRequest, now: u64) -> (r: Result<
        UpdateOutcome,
        UpdateError,
    >)
        requires
            old(self).wf(),
            spec_or(req.jitter_sec, 0) <= MAX_JITTER_SECS,
            old(self).registry.programs@.contains_key(id) ==> spec_or(
                old(self).registry.programs@[id].jitter_sec,
                0,
            ) <= MAX_JITTER_SECS,
        ensures
            final(self).wf(),
            match r {
                Err(e) => {
                    &&& *final(self) == *old(self)
                    &&& spec_update_refused(old(self).registry.programs@, id, req, e)
                },
                Ok(o) => spec_update_applied(*old(self), *final(self), id, req, now, o),
            },
    {
        match self.validate_update(id, &req) {
            Ok(()) => {},
            Err(e) => {
                return Err(e);
            },
        }
        let pid = match self.registry.get_running(&id) {
            Some(s) => Some(s.pid),
            None => None,
        };
        let ghost s0 = *self;
        let ghost c = self.registry.programs@[id];
        let ghost req0 = req;
        let mut cfg = match self.registry.programs.remove(&id) {
            Some(x) => x,
            None => {
                return Err(UpdateError::NotFound);
            },
        };
        self.schedule_update(id, &cfg, &req);
        let old_limits = cfg.resource_limits;
        let (cfg, ota) = patch_config(cfg, req, now);
        let name = cfg.name.clone();
        let limits_changed = !(old_limits == cfg.resource_limits);
        self.registry.programs.insert(id, cfg);
        self.registry.dirty = true;
        assert(self.registry.programs@ == s0.registry.programs@.insert(id, spec_patched(c, req0, now)));
        Ok(UpdateOutcome { ota, name, pid, limits_changed })
    }
}

/// Why a program could not be removed.
#[derive(Debug)]
pub enum RemoveError {
    /// It still has running instances.
    Running,
    /// No program has the id.
    NotFound,
}

impl RemoveError {
    pub fn message(&self) -> (r: &'static str)
        ensures
            r@ == (match self {
                RemoveError::Running => "Cannot remove running program"@,
                RemoveError::NotFound => "Program not found"@,
            }),
    {
        match self {
            RemoveError::Running => "Cannot remove running program",
            RemoveError::NotFound => "Program not found",
        }
    }
}

/// Why a name cannot be given to a program.
#[derive(Debug)]
pub enum NameError {
    Empty,
    Taken { name: String, id: u128 },
}

/// Text of a name error.
pub open spec fn spec_name_error_message(e: NameError) -> Seq<char> {
    match e {
        NameError::Empty => "Program name cannot be empty"@,
        NameError::Taken { name, id } => "Program name '"@ + name@ + "' already exists (id: "@
            + spec_uuid_text(id) + ")"@,
    }
}

impl NameError {
    pub fn message(&self) -> (r: String)
        ensures
            r@ == spec_name_error_message(*self),
    {
        match self {
            NameError::Empty => "Program name cannot be empty".to_owned(),
            NameError::Taken { name, id } => {
                let a = concat3("Program name '", name.as_str(), "' already exists (id: ");
                let u = uuid_text(*id);
                concat3(a.as_str(), u.as_str(), ")")
            },
        }
    }
}

impl ManagerState {
    /// Remove a stopped program with all its bookkeeping: configuration,
    /// backoff/waiting/fatal flags, startup error, health restart count,
    /// cron task and pending runs. Returns the removed configuration (the
    /// caller drops the persisted history and runs the cleanup hook).
    pub fn handle_remove(&mut self, id: u128) -> (r: Result<ProgramConfig, RemoveError>)
        requires
            old(self).wf(),
        ensures
            final(self).wf(),
            match r {
                Err(RemoveError::Running) => old(self).registry.instances(id).len() > 0
                    && *final(self) == *old(self),
                Err(RemoveError::NotFound) => old(self).registry.instances(id).len() == 0
                    && !old(self).registry.programs@.contains_key(id) && *final(self) == *old(self),
                Ok(c) => {
                    &&& old(self).registry.instances(id).len() == 0
                    &&& old(self).registry.programs@.contains_key(id)
                    &&& c == old(self).registry.programs@[id]
                    &&& final(self).registry.programs@ == old(self).registry.programs@.remove(id)
                    &&& final(self).registry.running@ == old(self).registry.running@
                    &&& final(self).registry.restarting@ == old(self).registry.restarting@.remove(id)
                    &&& final(self).registry.waiting@ == old(self).registry.waiting@.remove(id)
                    &&& final(self).registry.crashed@ == old(self).registry.crashed@.remove(id)
                    &&& final(self).registry.startup_errors@ == old(
                        self,
                    ).registry.startup_errors@.remove(id)
                    &&& final(self).registry.health_restart_count@ == old(
                        self,
                    ).registry.health_restart_count@.remove(id)
                    &&& final(self).registry.events@ == old(self).registry.events@
                    &&& final(self).registry.dirty
                    &&& final(self).scheduler@ == old(self).scheduler@.remove(id)
                    &&& final(self).pending_cron.pending@ == old(self).pending_cron.pending@.remove(
                        id,
                    )
                },
            },
    {
        if self.registry.is_running(&id) {
            return Err(RemoveError::Running);
        }
        if self.registry.get_config(&id).is_none() {
            return Err(RemoveError::NotFound);
        }
        let cfg = match self.registry.programs.remove(&id) {
            Some(c) => c,
            None => {
                return Err(RemoveError::NotFound);
            },
        };
        self.registry.restarting.remove(&id);
        self.registry.waiting.remove(&id);
        self.registry.crashed.remove(&id);
        self.registry.startup_errors.remove(&id);
        self.registry.health_restart_count.remove(&id);
        self.scheduler.remove(&id);
        self.pending_cron.forget(&id);
        self.registry.dirty = true;
        Ok(cfg)
    }
}

impl ProcessRegistry {
    /// Check that `name` can be given to a program: it is not blank, and no
    /// program but `except` has it. When several programs have it, the
    /// error names one of them.
    pub fn ensure_name_available(&self, name: &String, except: Option<u128>) -> (r: Result<
        (),
        NameError,
    >)
        ensures
            (!spec_blank(*name) && forall|k: u128|
                #[trigger] self.programs@.contains_key(k) && self.programs@[k].name@ == name@
                    ==> except == Some(k)) ==> r is Ok,
            match r {
                Ok(()) => !spec_blank(*name) && (!spec_has_name(self.programs@, name@) || (
                except matches Some(e) && self.programs@.contains_key(e) && self.programs@[e].name@
                    == name@)),
                Err(NameError::Empty) => spec_blank(*name),
                Err(NameError::Taken { name: n, id }) => {
                    &&& !spec_blank(*name)
                    &&& n@ == name@
                    &&& self.programs@.contains_key(id)
                    &&& self.programs@[id].name@ == name@
                    &&& except != Some(id)
                },
            },
    {
        if is_blank(name.as_str()) {
            return Err(NameError::Empty);
        }
        match self.find_program_id_by_name(name) {
            Some(k) => {
                if except == Some(k) {
                    Ok(())
                } else {
                    Err(NameError::Taken { name: name.clone(), id: k })
                }
            },
            None => Ok(()),
        }
    }
}

/// Insert `k` with priority `p` after every element of priority `<= p`.
fn insert_by_priority(ids: &mut Vec<u128>, prios: &mut Vec<i32>, k: u128, p: i32)
    requires
        old(ids)@.len() == old(prios)@.len(),
        forall|i: int, j: int| 0 <= i < j < old(prios)@.len() ==> old(prios)@[i] <= old(prios)@[j],
    ensures
        final(ids)@.len() == final(prios)@.len() == old(ids)@.len() + 1,
        forall|i: int, j: int|
            0 <= i < j < final(prios)@.len() ==> final(prios)@[i] <= final(prios)@[j],
        forall|x: u128| #[trigger] final(ids)@.contains(x) <==> (old(ids)@.contains(x) || x == k),
        forall|i: int|
            0 <= i < final(ids)@.len() ==> ((#[trigger] final(ids)@[i] == k && final(prios)@[i]
                == p) || exists|j: int|
                0 <= j < old(ids)@.len() && old(ids)@[j] == final(ids)@[i] && old(prios)@[j]
                    == final(prios)@[i]),
        !old(ids)@.contains(k) && old(ids)@.no_duplicates() ==> final(ids)@.no_duplicates(),
{
    let ghost ids0 = ids@;
    let ghost prios0 = prios@;
    let mut j: usize = 0;
    while j < prios.len() && prios[j] <= p
        invariant
            j <= prios@.len() == ids@.len(),
            ids@ == ids0,
            prios@ == prios0,
            forall|i: int| 0 <= i < j ==> prios@[i] <= p,
        decreases prios.len() - j,
    {
        j = j + 1;
    }
    ids.insert(j, k);
    prios.insert(j, p);
    assert forall|x: u128| #[trigger] ids@.contains(x) <==> (ids0.contains(x) || x == k) by {
        if ids0.contains(x) {
            let i = choose|i: int| 0 <= i < ids0.len() && ids0[i] == x;
            if i < j {
                assert(ids@[i] == x);
            } else {
                assert(ids@[i + 1] == x);
            }
        }
        if x == k {
            assert(ids@[j as int] == k);
        }
        if ids@.contains(x) {
            let i = choose|i: int| 0 <= i < ids@.len() && ids@[i] == x;
            if i < j {
                assert(ids0[i] == x);
            } else if i > j {
                assert(ids0[i - 1] == x);
            }
        }
    }
    assert forall|i: int|
        0 <= i < ids@.len() implies ((#[trigger] ids@[i] == k && prios@[i] == p) || exists|j2: int|
        0 <= j2 < ids0.len() && ids0[j2] == ids@[i] && prios0[j2] == prios@[i]) by {
        if i < j {
            assert(ids0[i] == ids@[i] && prios0[i] == prios@[i]);
        } else if i > j {
            assert(ids0[i - 1] == ids@[i] && prios0[i - 1] == prios@[i]);
        }
    }
    proof {
        if !ids0.contains(k) && ids0.no_duplicates() {
            assert forall|a: int, b: int| 0 <= a < b < ids@.len() implies ids@[a] != ids@[b] by {
                if a == j {
                    assert(ids0[b - 1] == ids@[b]);
                } else if b == j {
                    assert(ids0[a] == ids@[a]);
                } else {
                    let a0 = if a < j { a } else { a - 1 };
                    let b0 = if b < j { b } else { b - 1 };
                    assert(ids0[a0] == ids@[a] && ids0[b0] == ids@[b]);
                }
            }
        }
    }
}

/// Programs restored at startup: autostart without a schedule.
pub open spec fn spec_startup_eligible(c: ProgramConfig) -> bool {
    c.autostart && c.cron is None
}

impl ProcessRegistry {
    /// Programs to start at daemon startup (autostart, not scheduled), in
    /// start order: lower `priority` first.
    pub fn startup_order(&self) -> (r: Vec<u128>)
        ensures
            r@.no_duplicates(),
            forall|k: u128|
                #[trigger] r@.contains(k) <==> (self.programs@.contains_key(k)
                    && spec_startup_eligible(self.programs@[k])),
            forall|i: int, j: int|
                0 <= i < j < r@.len() ==> self.programs@[r@[i]].priority
                    <= self.programs@[r@[j]].priority,
    {
        let ghost m = self.programs@;
        let ghost items = vstd::std_specs::hash::spec_hash_map_iter(&self.programs).remaining();
        proof {
            vstd::std_specs::hash::axiom_spec_hash_map_iter(&self.programs);
        }
        let mut ids: Vec<u128> = Vec::new();
        let mut prios: Vec<i32> = Vec::new();
        for pair in it: self.programs.iter()
            invariant
                m == self.programs@,
                it.seq() == items,
                items.len() == m.dom().len(),
                forall|i: int|
                    0 <= i < items.len() ==> m.contains_key(*(#[trigger] items[i]).0)
                        && m[*items[i].0] == *items[i].1,
                forall|k: u128| #[trigger] m.contains_key(k) ==> items.contains((&k, &m[k])),
                items.no_duplicates(),
                ids@.len() == prios@.len(),
                ids@.no_duplicates(),
                forall|a: int, b: int| 0 <= a < b < prios@.len() ==> prios@[a] <= prios@[b],
                forall|i: int|
                    0 <= i < ids@.len() ==> m.contains_key(#[trigger] ids@[i]) && prios@[i]
                        == m[ids@[i]].priority,
                forall|x: u128|
                    #[trigger] ids@.contains(x) <==> exists|i: int|
                        0 <= i < it.index() && *items[i].0 == x && spec_startup_eligible(
                            *items[i].1,
                        ),
        {
            let (k, c) = pair;
            let ghost cur = it.index();
            let ghost ids_before = ids@;
            let ghost prios_before = prios@;
            if c.autostart && c.cron.is_none() {
                proof {
                    if ids@.contains(*k) {
                        let i = choose|i: int|
                            0 <= i < cur && *items[i].0 == *k && spec_startup_eligible(*items[i].1);
                        assert(items[i] == items[cur]);
                    }
                }
                insert_by_priority(&mut ids, &mut prios, *k, c.priority);
                proof {
                    assert forall|i: int|
                        0 <= i < ids@.len() implies m.contains_key(#[trigger] ids@[i]) && prios@[i]
                            == m[ids@[i]].priority by {
                        if !(ids@[i] == *k && prios@[i] == c.priority) {
                            let j = choose|j: int|
                                0 <= j < ids_before.len() && ids_before[j] == ids@[i]
                                    && prios_before[j] == prios@[i];
                            assert(m.contains_key(ids_before[j]));
                        }
                    }
                    assert forall|x: u128| #[trigger] ids@.contains(x) <==> exists|i: int|
                        0 <= i < cur + 1 && *items[i].0 == x && spec_startup_eligible(*items[i].1) by {
                        if x == *k {
                            assert(*items[cur].0 == x);
                        }
                    }
                }
            } else {
                proof {
                    assert forall|x: u128| #[trigger] ids@.contains(x) <==> exists|i: int|
                        0 <= i < cur + 1 && *items[i].0 == x && spec_startup_eligible(*items[i].1) by {
                        if exists|i: int|
                            0 <= i < cur + 1 && *items[i].0 == x && spec_startup_eligible(*items[i].1) {
                            let i = choose|i: int|
                                0 <= i < cur + 1 && *items[i].0 == x && spec_startup_eligible(
                                    *items[i].1,
                                );
                            assert(i != cur);
                        }
                    }
                }
            }
        }
        proof {
            assert forall|k: u128|
                #[trigger] ids@.contains(k) <==> (m.contains_key(k) && spec_startup_eligible(m[k])) by {
                if m.contains_key(k) && spec_startup_eligible(m[k]) {
                    let i = choose|i: int| 0 <= i < items.len() && items[i] == (&k, &m[k]);
                    assert(*items[i].0 == k);
                }
            }
        }
        ids
    }
}

impl ProcessRegistry {
    /// Programs waiting for their dependencies (and still configured), in
    /// retry order: lower `priority` first.
    pub fn waiting_order(&self) -> (r: Vec<u128>)
        ensures
            r@.no_duplicates(),
            forall|k: u128|
                #[trigger] r@.contains(k) <==> (self.waiting@.contains(k)
                    && self.programs@.contains_key(k)),
            forall|i: int, j: int|
                0 <= i < j < r@.len() ==> self.programs@[r@[i]].priority
                    <= self.programs@[r@[j]].priority,
    {
        let ghost m = self.programs@;
        let ghost w = self.waiting@;
        let ghost items = vstd::std_specs::hash::spec_hash_keys_iter(&self.waiting).remaining();
        proof {
            vstd::std_specs::hash::axiom_spec_hash_keys_iter(&self.waiting);
        }
        let mut ids: Vec<u128> = Vec::new();
        let mut prios: Vec<i32> = Vec::new();
        for k in it: self.waiting.iter()
            invariant
                m == self.programs@,
                w == self.waiting@,
                it.seq() == items,
                items.unref().to_set() == w,
                items.no_duplicates(),
                ids@.len() == prios@.len(),
                ids@.no_duplicates(),
                forall|a: int, b: int| 0 <= a < b < prios@.len() ==> prios@[a] <= prios@[b],
                forall|i: int|
                    0 <= i < ids@.len() ==> m.contains_key(#[trigger] ids@[i]) && prios@[i]
                        == m[ids@[i]].priority,
                forall|x: u128|
                    #[trigger] ids@.contains(x) <==> exists|i: int|
                        0 <= i < it.index() && *items[i] == x && m.contains_key(x),
        {
            let ghost cur = it.index();
            let ghost ids_before = ids@;
            let ghost prios_before = prios@;
            match self.programs.get(k) {
                Some(c) => {
                    proof {
                        if ids@.contains(*k) {
                            let i = choose|i: int|
                                0 <= i < cur && *items[i] == *k && m.contains_key(*k);
                            assert(items[i] == items[cur]);
                        }
                    }
                    insert_by_priority(&mut ids, &mut prios, *k, c.priority);
                    proof {
                        assert forall|i: int|
                            0 <= i < ids@.len() implies m.contains_key(#[trigger] ids@[i])
                                && prios@[i] == m[ids@[i]].priority by {
                            if !(ids@[i] == *k && prios@[i] == c.priority) {
                                let j = choose|j: int|
                                    0 <= j < ids_before.len() && ids_before[j] == ids@[i]
                                        && prios_before[j] == prios@[i];
                                assert(m.contains_key(ids_before[j]));
                            }
                        }
                        assert forall|x: u128| #[trigger] ids@.contains(x) <==> exists|i: int|
                            0 <= i < cur + 1 && *items[i] == x && m.contains_key(x) by {
                            if x == *k {
                                assert(*items[cur] == x);
                            }
                        }
                    }
                },
                None => {
                    proof {
                        assert forall|x: u128| #[trigger] ids@.contains(x) <==> exists|i: int|
                            0 <= i < cur + 1 && *items[i] == x && m.contains_key(x) by {
                            if exists|i: int| 0 <= i < cur + 1 && *items[i] == x && m.contains_key(x) {
                                let i = choose|i: int|
                                    0 <= i < cur + 1 && *items[i] == x && m.contains_key(x);
                                assert(i != cur);
                            }
                        }
                    }
                },
            }
        }
        proof {
            assert forall|k: u128|
                #[trigger] ids@.contains(k) <==> (w.contains(k) && m.contains_key(k)) by {
                if w.contains(k) && m.contains_key(k) {
                    assert(items.unref().to_set().contains(k));
                    let i = choose|i: int| 0 <= i < items.unref().len() && items.unref()[i] == k;
                    assert(*items[i] == k);
                }
                if ids@.contains(k) {
                    let i = choose|i: int| 0 <= i < items.len() && *items[i] == k && m.contains_key(k);
                    assert(items.unref()[i] == k);
                    assert(items.unref().to_set().contains(k));
                }
            }
        }
        ids
    }
}

impl ManagerState {
    /// Admit one cron trigger (see [`spec_admission`]): the runs it stands
    /// for under the program's catch-up policy, gated by `max_concurrent`
    /// and `on_overlap`, are added to the program's queue of pending runs
    /// (bounded by `max_queued`). `None` when the program no longer exists.
    pub fn admit_cron_trigger(&mut self, t: CronTrigger) -> (r: Option<Admission>)
        requires
            old(self).wf(),
        ensures
            final(self).wf(),
            final(self).registry == old(self).registry,
            final(self).scheduler == old(self).scheduler,
            match r {
                None => !old(self).registry.programs@.contains_key(t.id) && final(self).pending_cron
                    == old(self).pending_cron,
                Some(a) => {
                    let c = old(self).registry.programs@[t.id];
                    let queued = spec_queued(old(self).pending_cron.pending@, t.id);
                    &&& old(self).registry.programs@.contains_key(t.id)
                    &&& a == spec_admission(
                        spec_catchup_runs(
                            t.missed_slots,
                            spec_or(c.catchup, CronCatchup::Latest),
                        ),
                        spec_or(c.on_overlap, CronOverlap::Skip),
                        old(self).registry.instances(t.id).len(),
                        spec_max_concurrent_eff(c.max_concurrent),
                        queued,
                        spec_max_queued_eff(c.max_queued),
                    )
                    &&& final(self).pending_cron.pending@ == (match a {
                        Admission::Queued { runs, .. } => old(self).pending_cron.pending@.insert(
                            t.id,
                            spec_add_runs(queued, runs),
                        ),
                        Admission::QueueFull { .. } => old(self).pending_cron.pending@.insert(
                            t.id,
                            queued,
                        ),
                        _ => old(self).pending_cron.pending@,
                    })
                },
            },
    {
        let (overlap, catchup, max_concurrent, max_queued) = match self.registry.get_config(&t.id) {
            Some(c) => (
                effective_overlap(c.on_overlap),
                effective_catchup(c.catchup),
                c.max_concurrent_eff(),
                c.max_queued_eff(),
            ),
            None => {
                return None;
            },
        };
        let active = self.registry.running_count(&t.id);
        let a = self.pending_cron.on_firing(
            t.id,
            t.missed_slots,
            catchup,
            overlap,
            active,
            max_concurrent,
            max_queued,
        );
        Some(a)
    }

    /// Next step of the drain pass for a program with queued runs.
    pub fn cron_drain_step(&self, id: &u128) -> (r: DrainStep)
        requires
            self.wf(),
        ensures
            r == (if !self.registry.programs@.contains_key(*id) || spec_queued(
                self.pending_cron.pending@,
                *id,
            ) == 0 {
                DrainStep::Forget
            } else if self.registry.instances(*id).len() >= spec_max_concurrent_eff(
                self.registry.programs@[*id].max_concurrent,
            ) {
                DrainStep::Wait
            } else {
                DrainStep::SpawnOne
            }),
    {
        match self.registry.get_config(id) {
            Some(c) => {
                let active = self.registry.running_count(id);
                self.pending_cron.drain_step(id, true, active, c.max_concurrent_eff())
            },
            None => self.pending_cron.drain_step(id, false, 0, 1),
        }
    }

    /// A queued cron run was started at `now` (Unix seconds): one run
    /// leaves the queue and the program's last run is `now`.
    pub fn record_cron_start(&mut self, id: u128, now: u64)
        requires
            old(self).wf(),
        ensures
            final(self).wf(),
            final(self).scheduler == old(self).scheduler,
            final(self).registry.running@ == old(self).registry.running@,
            final(self).registry.programs@ == (if old(self).registry.programs@.contains_key(id) {
                old(self).registry.programs@.insert(
                    id,
                    ProgramConfig {
                        cron_last_run: Some(now),
                        ..old(self).registry.programs@[id]
                    },
                )
            } else {
                old(self).registry.programs@
            }),
            spec_queued(old(self).pending_cron.pending@, id) <= 1 ==> final(self).pending_cron.pending@
                == old(self).pending_cron.pending@.remove(id),
            spec_queued(old(self).pending_cron.pending@, id) > 1 ==> final(self).pending_cron.pending@
                == old(self).pending_cron.pending@.insert(
                id,
                (spec_queued(old(self).pending_cron.pending@, id) - 1) as u32,
            ),
    {
        self.pending_cron.consume(&id);
        match self.registry.programs.remove(&id) {
            Some(mut c) => {
                c.cron_last_run = Some(now);
                self.registry.programs.insert(id, c);
            },
            None => {},
        }
    }
}

/// Why a group command was refused.
#[derive(Clone, Copy, Debug, PartialEq, Eq, Structural)]
pub enum GroupError {
    /// No program is in the group.
    NotFound,
}

impl GroupError {
    pub fn message(&self) -> (r: &'static str)
        ensures
            r@ == "Group not found"@,
    {
        proof {
            reveal_strlit("Group not found");
        }
        "Group not found"
    }
}

/// Whether a program is in the group `group`.
pub open spec fn spec_in_group(c: ProgramConfig, group: Seq<char>) -> bool {
    c.group matches Some(g) && g@ == group
}

impl ProcessRegistry {
    /// Targets of a group start, stop or restart: the programs of the
    /// group, each once; refused when the group has none.
    pub fn group_targets(&self, group: &str) -> (r: Result<Vec<u128>, GroupError>)
        ensures
            r is Err <==> !exists|k: u128|
                #[trigger] self.programs@.contains_key(k) && spec_in_group(self.programs@[k], group@),
            r matches Ok(v) ==> {
                &&& v@.no_duplicates()
                &&& v@.len() > 0
                &&& forall|k: u128|
                    #[trigger] v@.contains(k) <==> (self.programs@.contains_key(k) && spec_in_group(
                        self.programs@[k],
                        group@,
                    ))
            },
    {
        let v = self.group_members(group);
        if v.len() == 0 {
            proof {
                if exists|k: u128|
                    #[trigger] self.programs@.contains_key(k) && spec_in_group(self.programs@[k], group@) {
                    let k = choose|k: u128|
                        #[trigger] self.programs@.contains_key(k) && spec_in_group(self.programs@[k], group@);
                    assert(v@.contains(k));
                }
            }
            Err(GroupError::NotFound)
        } else {
            proof {
                let k = v@[0];
                assert(v@.contains(k));
            }
            Ok(v)
        }
    }

    /// The programs of a group, each once (in no particular order).
    pub fn group_members(&self, group: &str) -> (r: Vec<u128>)
        ensures
            r@.no_duplicates(),
            forall|k: u128|
                #[trigger] r@.contains(k) <==> (self.programs@.contains_key(k) && spec_in_group(
                    self.programs@[k],
                    group@,
                )),
    {
        let ghost m = self.programs@;
        let ghost items = vstd::std_specs::hash::spec_hash_map_iter(&self.programs).remaining();
        proof {
            vstd::std_specs::hash::axiom_spec_hash_map_iter(&self.programs);
        }
        let mut out: Vec<u128> = Vec::new();
        for pair in it: self.programs.iter()
            invariant
                m == self.programs@,
                it.seq() == items,
                items.len() == m.dom().len(),
                forall|i: int|
                    0 <= i < items.len() ==> m.contains_key(*(#[trigger] items[i]).0)
                        && m[*items[i].0] == *items[i].1,
                forall|k: u128| #[trigger] m.contains_key(k) ==> items.contains((&k, &m[k])),
                items.no_duplicates(),
                out@.no_duplicates(),
                forall|x: u128|
                    #[trigger] out@.contains(x) <==> exists|i: int|
                        0 <= i < it.index() && *items[i].0 == x && spec_in_group(*items[i].1, group@),
        {
            let (k, c) = pair;
            let ghost cur = it.index();
            let member = match &c.group {
                Some(g) => crate::text::str_eq(g.as_str(), group),
                None => false,
            };
            let ghost before = out@;
            if member {
                proof {
                    if out@.contains(*k) {
                        let i = choose|i: int|
                            0 <= i < cur && *items[i].0 == *k && spec_in_group(*items[i].1, group@);
                        assert(items[i] == items[cur]);
                    }
                }
                out.push(*k);
            }
            proof {
                assert forall|x: u128| #[trigger] out@.contains(x) <==> exists|i: int|
                    0 <= i < cur + 1 && *items[i].0 == x && spec_in_group(*items[i].1, group@) by {
                    if out@.contains(x) && !before.contains(x) {
                        assert(x == *k);
                        assert(*items[cur].0 == x);
                    }
                    if before.contains(x) {
                        let j = choose|j: int| 0 <= j < before.len() && before[j] == x;
                        assert(out@[j] == x);
                    }
                    if exists|i: int| 0 <= i < cur + 1 && *items[i].0 == x && spec_in_group(*items[i].1, group@) {
                        let i = choose|i: int|
                            0 <= i < cur + 1 && *items[i].0 == x && spec_in_group(*items[i].1, group@);
                        if i == cur {
                            assert(out@[out@.len() - 1] == x);
                        }
                    }
                    if out@.contains(x) {
                        let j = choose|j: int| 0 <= j < out@.len() && out@[j] == x;
                        if j < before.len() {
                            assert(before[j] == x);
                        }
                    }
                }
            }
        }
        proof {
            assert forall|k: u128|
                #[trigger] out@.contains(k) <==> (m.contains_key(k) && spec_in_group(m[k], group@)) by {
                if m.contains_key(k) && spec_in_group(m[k], group@) {
                    let i = choose|i: int| 0 <= i < items.len() && items[i] == (&k, &m[k]);
                    assert(*items[i].0 == k);
                }
            }
        }
        out
    }

    /// Enable the automatic start of a program (start requests), at `now`.
    pub fn enable_autostart(&mut self, id: &u128, now: u64)
        ensures
            final(self).programs@ == crate::lifecycle::spec_set_autostart(
                old(self).programs@,
                *id,
                true,
                Some(now),
            ),
            final(self).running@ == old(self).running@,
            final(self).dirty,
    {
        match self.programs.remove(id) {
            Some(mut c) => {
                c.autostart = true;
                c.updated_at = now;
                self.programs.insert(*id, c);
            },
            None => {},
        }
        self.dirty = true;
    }

    /// Record the sampled CPU (hundredths of a percent) and memory of a
    /// program's primary instance; nothing when it is not running.
    pub fn set_usage(&mut self, id: &u128, cpu_usage_centi: u32, mem_usage: u64)
        requires
            old(self).wf(),
        ensures
            final(self).wf(),
            final(self).same_static(&*old(self)),
            final(self).others_unchanged(&*old(self), *id),
            old(self).instances(*id).len() == 0 ==> final(self).instances(*id) == old(self).instances(*id),
            old(self).instances(*id).len() > 0 ==> final(self).instances(*id) == old(self).instances(
                *id,
            ).update(
                0,
                RuntimeState { cpu_usage_centi, mem_usage, ..old(self).instances(*id)[0] },
            ),
    {
        let st = match self.get_running(id) {
            Some(s) => {
                let mut st = s.clone();
                st.cpu_usage_centi = cpu_usage_centi;
                st.mem_usage = mem_usage;
                st
            },
            None => {
                return;
            },
        };
        self.update_primary(id, st);
    }
}

/// Signals that can be sent to programs.
#[derive(Clone, Copy, Debug, PartialEq, Eq, Structural)]
pub enum SignalKind {
    Hup,
    Int,
    Term,
    Kill,
    Quit,
    Usr1,
    Usr2,
}

/// Lower-case form of a text (`str::to_lowercase`, full Unicode mapping).
pub uninterp spec fn spec_to_lowercase(s: Seq<char>) -> Seq<char>;

/// `str::to_lowercase`.
#[verifier::external_body]
fn to_lowercase(s: &str) -> (r: String)
    ensures
        r@ == spec_to_lowercase(s@),
{
    s.to_lowercase()
}

/// Signal named by a request (`hup`, `int`, `term`, `kill`, `quit`,
/// `usr1`, `usr2`, in any case).
pub fn parse_signal(name: &str) -> (r: Option<SignalKind>)
    ensures
        ({
            let l = spec_to_lowercase(name@);
            r == (if l == "hup"@ {
                Some(SignalKind::Hup)
            } else if l == "int"@ {
                Some(SignalKind::Int)
            } else if l == "term"@ {
                Some(SignalKind::Term)
            } else if l == "kill"@ {
                Some(SignalKind::Kill)
            } else if l == "quit"@ {
                Some(SignalKind::Quit)
            } else if l == "usr1"@ {
                Some(SignalKind::Usr1)
            } else if l == "usr2"@ {
                Some(SignalKind::Usr2)
            } else {
                None
            })
        }),
{
    let l = to_lowercase(name);
    let x = l.as_str();
    if crate::text::str_eq(x, "hup") {
        Some(SignalKind::Hup)
    } else if crate::text::str_eq(x, "int") {
        Some(SignalKind::Int)
    } else if crate::text::str_eq(x, "term") {
        Some(SignalKind::Term)
    } else if crate::text::str_eq(x, "kill") {
        Some(SignalKind::Kill)
    } else if crate::text::str_eq(x, "quit") {
        Some(SignalKind::Quit)
    } else if crate::text::str_eq(x, "usr1") {
        Some(SignalKind::Usr1)
    } else if crate::text::str_eq(x, "usr2") {
        Some(SignalKind::Usr2)
    } else {
        None
    }
}

impl ProcessRegistry {
    /// Process groups to signal for a program: every running instance's
    /// pid; `None` when it is not running ("Program is not running").
    pub fn signal_targets(&self, id: &u128) -> (r: Option<Vec<u32>>)
        requires
            self.wf(),
        ensures
            match r {
                Some(p) => self.instances(*id).len() > 0 && p@ == crate::lifecycle::spec_pids(
                    self.instances(*id),
                ),
                None => self.instances(*id).len() == 0,
            },
    {
        if !self.is_running(id) {
            return None;
        }
        Some(self.pids_of(id))
    }
}

/// Whether the event history is pruned at `now_secs` (Unix seconds): only
/// when a retention (`keep_days`) is configured, at most once per UTC day.
/// Returns the day (days since the epoch) to remember as pruned.
pub fn event_prune_day(keep_days: u64, now_secs: u64, last_prune_day: u64) -> (r: Option<u64>)
    ensures
        r == (if keep_days == 0 || now_secs / 86_400 == last_prune_day {
            None
        } else {
            Some(now_secs / 86_400)
        }),
{
    if keep_days == 0 {
        return None;
    }
    let today = now_secs / 86_400;
    if today == last_prune_day {
        None
    } else {
        Some(today)
    }
}

/// The programs once the update of `id` is applied at `now`.
pub open spec fn spec_prospective(m: Map<u128, ProgramConfig>, id: u128, req: UpdateRequest, now: u64) -> Map<
    u128,
    ProgramConfig,
> {
    m.insert(id, spec_patched(m[id], req, now))
}

/// Every new dependency of the update names a program (once updated).
pub open spec fn spec_update_deps_known(m: Map<u128, ProgramConfig>, id: u128, req: UpdateRequest, now: u64) -> bool {
    match req.depends_on {
        Some(ds) => forall|x: int|
            0 <= x < ds@.len() ==> spec_has_name(spec_prospective(m, id, req, now), #[trigger] ds@[x]@),
        None => true,
    }
}

impl ManagerState {
    /// The checks of an update that do not concern dependencies, in the
    /// order the update makes them (see [`spec_update_refusal`]).
    pub fn validate_update(&self, id: u128, req: &UpdateRequest) -> (r: Result<(), UpdateError>)
        ensures
            match r {
                Ok(()) => spec_update_refusal(self.registry.programs@, id, *req) is None,
                Err(e) => spec_update_refused(self.registry.programs@, id, *req, e),
            },
    {
        if let Some(c) = &req.cron {
            if !is_blank(c.as_str()) {
                if parse_schedule(c.as_str()).is_none() {
                    let name = match &req.name {
                        Some(n) => Some(n.clone()),
                        None => match self.registry.programs.get(&id) {
                            Some(cfg) => Some(cfg.name.clone()),
                            None => None,
                        },
                    };
                    return Err(UpdateError::InvalidCron { name, expr: c.clone() });
                }
            }
        }
        if let Some(l) = &req.resource_limits {
            match validate_resource_limits_patch(l) {
                Ok(()) => {},
                Err(e) => {
                    return Err(UpdateError::ResourceLimits(e));
                },
            }
        }
        match self.registry.get_config(&id) {
            Some(cur) => {
                if let Some(v) = &req.name {
                    if !(*v == cur.name) {
                        if is_blank(v.as_str()) {
                            return Err(UpdateError::EmptyName);
                        }
                        match self.registry.find_program_id_by_name(v) {
                            Some(k) => {
                                return Err(UpdateError::NameTaken { name: v.clone(), id: k });
                            },
                            None => {},
                        }
                    }
                }
            },
            None => {
                return Err(UpdateError::NotFound);
            },
        }
        Ok(())
    }

    /// Apply a partial update to program `id` at `now` (Unix seconds), as
    /// [`ManagerState::apply_update`] does, after checking the updated
    /// dependencies: each new dependency names a program, and the programs
    /// once updated have no dependency cycle. A refused update changes
    /// nothing.
    pub fn handle_update(&mut self, id: u128, req: UpdateRequest, now: u64) -> (r: Result<
        UpdateOutcome,
        UpdateError,
    >)
        requires
            old(self).wf(),
            spec_or(req.jitter_sec, 0) <= MAX_JITTER_SECS,
            old(self).registry.programs@.contains_key(id) ==> spec_or(
                old(self).registry.programs@[id].jitter_sec,
                0,
            ) <= MAX_JITTER_SECS,
        ensures
            final(self).wf(),
            r is Err ==> *final(self) == *old(self),
            match r {
                Err(UpdateError::UnknownDependency { program, dependency }) => {
                    let m = old(self).registry.programs@;
                    &&& spec_update_refusal(m, id, req) is None
                    &&& req.depends_on matches Some(ds) && ds@.contains(dependency)
                    &&& !spec_has_name(spec_prospective(m, id, req, now), dependency@)
                    &&& program@ == spec_patched(m[id], req, now).name@
                },
                Err(UpdateError::DependencyCycle { program }) => {
                    let m = old(self).registry.programs@;
                    &&& spec_update_refusal(m, id, req) is None
                    &&& spec_update_deps_known(m, id, req, now)
                    &&& !crate::shutdown::spec_acyclic(spec_prospective(m, id, req, now))
                    &&& program@ == spec_patched(m[id], req, now).name@
                },
                Err(e) => spec_update_refused(old(self).registry.programs@, id, req, e),
                Ok(o) => {
                    &&& spec_update_applied(*old(self), *final(self), id, req, now, o)
                    &&& spec_update_deps_known(old(self).registry.programs@, id, req, now)
                    &&& crate::shutdown::spec_acyclic(final(self).registry.programs@)
                },
            },
            (spec_update_refusal(old(self).registry.programs@, id, req) is None && spec_update_deps_known(
                old(self).registry.programs@,
                id,
                req,
                now,
            ) && crate::shutdown::spec_acyclic(
                spec_prospective(old(self).registry.programs@, id, req, now),
            )) ==> r is Ok,
    {
        let ghost m = self.registry.programs@;
        let ghost s0 = *self;
        match self.validate_update(id, &req) {
            Ok(()) => {},
            Err(e) => {
                return Err(e);
            },
        }
        let ghost pm = spec_prospective(m, id, req, now);
        let order = self.registry.program_ids();
        proof {
            assert(spec_lists(m, order@));
            assert forall|k: u128| #[trigger] order@.contains(k) <==> pm.contains_key(k) by {}
            assert(spec_lists(pm, order@));
        }
        let (mut names, mut deps) = self.registry.names_and_deps_of(&order);
        let p = match position(&order, id) {
            Some(p) => p,
            None => {
                assert(order@.contains(id));
                return Err(UpdateError::NotFound);
            },
        };
        let ghost n0 = names@;
        let ghost d0 = deps@;
        let new_name = match &req.name {
            Some(v) => v.clone(),
            None => names[p].clone(),
        };
        let new_deps = match &req.depends_on {
            Some(d) => clone_strings(d),
            None => clone_strings(&deps[p]),
        };
        let ghost nn = new_name@;
        let ghost nd = new_deps@;
        proof {
            assert(texts(n0)[p as int] == spec_names_of(spec_values(m, order@))[p as int]);
            assert(texts2(d0)[p as int] == spec_deps_of(spec_values(m, order@))[p as int]);
            assert(nn == spec_patched(m[id], req, now).name@);
            assert(texts(nd) == texts(spec_patched(m[id], req, now).depends_on@));
        }
        names.set(p, new_name);
        deps.set(p, new_deps);
        proof {
            let vs = spec_values(pm, order@);
            assert(vs[p as int] == spec_patched(m[id], req, now));
            assert forall|i: int| 0 <= i < order@.len() implies #[trigger] texts2(deps@)[i] == spec_deps_of(vs)[i] by {
                if i != p {
                    assert(order@[i] != id) by {
                        assert(order@[p as int] == id);
                    }
                    assert(texts2(d0)[i] == spec_deps_of(spec_values(m, order@))[i]);
                } else {
                    assert(deps@[i]@ == nd);
                    assert(texts2(deps@)[i] == texts(nd));
                }
            }
            assert forall|i: int| 0 <= i < order@.len() implies #[trigger] texts(names@)[i] == spec_names_of(vs)[i]
                && texts2(deps@)[i] == spec_deps_of(vs)[i] by {
                if i != p {
                    assert(order@[i] != id) by {
                        assert(order@[p as int] == id);
                    }
                    assert(texts(n0)[i] == spec_names_of(spec_values(m, order@))[i]);
                    assert(texts2(d0)[i] == spec_deps_of(spec_values(m, order@))[i]);
                } else {
                    assert(names@[i]@ == nn);
                    assert(deps@[i]@ == nd);
                    assert(texts2(deps@)[i] == texts(nd));
                }
            }
            assert(texts(names@) =~= spec_names_of(vs));
            assert(texts2(deps@) =~= spec_deps_of(vs));
            assert(texts(names@)[p as int] == spec_patched(m[id], req, now).name@);
        }
        if let Some(ds) = &req.depends_on {
            let mut x: usize = 0;
            while x < ds.len()
                invariant
                    *self == s0,
                    s0.wf(),
                    m == s0.registry.programs@,
                    pm == spec_prospective(m, id, req, now),
                    spec_update_refusal(m, id, req) is None,
                    x <= ds@.len(),
                    p < names@.len(),
                    texts(names@)[p as int] == spec_patched(m[id], req, now).name@,
                    req.depends_on == Some(*ds),
                    spec_lists(pm, order@),
                    texts(names@) == spec_names_of(spec_values(pm, order@)),
                    forall|y: int| 0 <= y < x ==> spec_has_name(pm, #[trigger] ds@[y]@),
                decreases ds.len() - x,
            {
                proof {
                    crate::deps::lemma_listing_names(pm, order@, ds@[x as int]@);
                }
                if !contains_text(&names, &ds[x]) {
                    let dependency = ds[x].clone();
                    proof {
                        assert(ds@[x as int] == dependency);
                        assert(ds@.contains(dependency));
                        assert(!spec_has_name(pm, ds@[x as int]@));
                    }
                    let program = names[p].clone();
                    assert(program@ == texts(names@)[p as int]);
                    return Err(UpdateError::UnknownDependency { program, dependency });
                }
                x = x + 1;
            }
        }
        assert(spec_update_deps_known(m, id, req, now));
        proof {
            crate::deps::lemma_lists_acyclic(pm, order@);
        }
        if find_cycle(&names, &deps).is_some() {
            let program = names[p].clone();
            assert(program@ == texts(names@)[p as int]);
            return Err(UpdateError::DependencyCycle { program });
        }
        match self.apply_update(id, req, now) {
            Ok(o) => Ok(o),
            Err(e) => Err(e),
        }
    }
}

} // verus!
