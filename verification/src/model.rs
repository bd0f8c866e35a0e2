//! Program configuration, status and event records shared by the modules.
//!
//! A program is identified by the 128-bit value of its UUID.

use vstd::prelude::*;

verus! {

/// Supervisor-compatible `autorestart` setting.
#[derive(Clone, Copy, Debug, PartialEq, Eq, Structural)]
pub enum AutoRestart {
    /// Never restart after an exit (`autorestart = false`).
    Never,
    /// Always restart after an exit (`autorestart = true`).
    Always,
    /// Restart only when the exit code is not listed in `exitcodes`.
    Unexpected,
}

/// What a cron firing does when every `max_concurrent` slot is taken.
#[derive(Clone, Copy, Debug, PartialEq, Eq, Structural)]
pub enum CronOverlap {
    Skip,
    Queue,
    Kill,
}

/// How many runs a cron firing that missed slots stands for.
#[derive(Clone, Copy, Debug, PartialEq, Eq, Structural)]
pub enum CronCatchup {
    Skip,
    Latest,
    All,
}

/// Displayed lifecycle state of a program.
#[derive(Clone, Copy, Debug, PartialEq, Eq, Structural)]
pub enum ProcessStatus {
    Stopped,
    Starting,
    Running,
    Healthy,
    Stopping,
    Backoff,
    Waiting,
    Fatal,
}

/// Tuning of an enabled health probe.
#[derive(Clone, Copy, Debug, PartialEq, Eq, Structural)]
pub struct HealthTuning {
    pub interval_secs: u64,
    pub start_period_secs: u64,
    /// Consecutive failures that trigger a restart (0 disables restarts).
    pub max_failures: u32,
}

/// Lifecycle shell hooks of a program.
#[derive(Debug, Default)]
pub struct Hooks {
    pub pre_start: Option<String>,
    pub post_start: Option<String>,
    pub pre_stop: Option<String>,
    pub post_stop: Option<String>,
}

impl Clone for Hooks {
    fn clone(&self) -> (r: Self)
        ensures
            r == *self,
    {
        Hooks {
            pre_start: clone_opt_string(&self.pre_start),
            post_start: clone_opt_string(&self.post_start),
            pre_stop: clone_opt_string(&self.pre_stop),
            post_stop: clone_opt_string(&self.post_stop),
        }
    }
}

/// A copy of an optional string.
pub fn clone_opt_string(v: &Option<String>) -> (r: Option<String>)
    ensures
        r == *v,
{
    match v {
        Some(s) => Some(s.clone()),
        None => None,
    }
}

/// A copy of a list of strings.
pub fn clone_strings(v: &Vec<String>) -> (r: Vec<String>)
    ensures
        r@ == v@,
{
    let mut r: Vec<String> = Vec::new();
    let mut i: usize = 0;
    while i < v.len()
        invariant
            i <= v@.len(),
            r@ == v@.subrange(0, i as int),
        decreases v.len() - i,
    {
        r.push(v[i].clone());
        assert(v@.subrange(0, i + 1) == v@.subrange(0, i as int).push(v@[i as int]));
        i = i + 1;
    }
    assert(v@.subrange(0, v@.len() as int) == v@);
    r
}

/// A copy of an environment.
pub fn clone_env(v: &Vec<(String, String)>) -> (r: Vec<(String, String)>)
    ensures
        r@ == v@,
{
    let mut r: Vec<(String, String)> = Vec::new();
    let mut i: usize = 0;
    while i < v.len()
        invariant
            i <= v@.len(),
            r@ == v@.subrange(0, i as int),
        decreases v.len() - i,
    {
        let (k, x) = &v[i];
        r.push((k.clone(), x.clone()));
        assert(v@.subrange(0, i + 1) == v@.subrange(0, i as int).push(v@[i as int]));
        i = i + 1;
    }
    assert(v@.subrange(0, v@.len() as int) == v@);
    r
}

/// A copy of a list of exit codes.
pub fn clone_i32s(v: &Vec<i32>) -> (r: Vec<i32>)
    ensures
        r@ == v@,
{
    let mut r: Vec<i32> = Vec::new();
    let mut i: usize = 0;
    while i < v.len()
        invariant
            i <= v@.len(),
            r@ == v@.subrange(0, i as int),
        decreases v.len() - i,
    {
        r.push(v[i]);
        assert(v@.subrange(0, i + 1) == v@.subrange(0, i as int).push(v@[i as int]));
        i = i + 1;
    }
    assert(v@.subrange(0, v@.len() as int) == v@);
    r
}

/// Over-the-air artifact source of a program.
#[derive(Debug)]
pub struct ArtifactConfig {
    pub source: String,
    pub destination: String,
    pub checksum: String,
    pub extract: bool,
}

impl Clone for ArtifactConfig {
    fn clone(&self) -> (r: Self)
        ensures
            r == *self,
    {
        ArtifactConfig {
            source: self.source.clone(),
            destination: self.destination.clone(),
            checksum: self.checksum.clone(),
            extract: self.extract,
        }
    }
}

/// How a CPU quota compares with zero and with the removal sentinel `-1`.
/// The quota is a number of cores, which this library does not compute
/// with: it carries the number and decides by its class.
#[derive(Clone, Copy, Debug, PartialEq, Eq, Structural)]
pub enum CpuSign {
    /// Greater than zero.
    Positive,
    /// Exactly `-1`: removes the quota in an update.
    RemovalSentinel,
    /// Zero or negative, but not `-1`.
    NonPositive,
    /// Not a number: neither greater than zero nor at most zero.
    Unordered,
}

/// A CPU quota: the bits of the number of cores, and its class.
#[derive(Clone, Copy, Debug, PartialEq, Eq, Structural)]
pub struct CpuQuota {
    pub bits: u64,
    pub sign: CpuSign,
}

/// Resource limits of a program (enforced by the isolation plugin).
#[derive(Clone, Copy, Debug, PartialEq, Eq, Structural)]
pub struct ResourceLimits {
    pub cpu_quota: Option<CpuQuota>,
    /// Hard memory cap, in bytes.
    pub memory_limit: Option<u64>,
    /// Warn when memory use passes this percentage of the cap.
    pub memory_warn_percent: Option<u32>,
    /// Warn when less than this many bytes remain below the cap.
    pub memory_warn_headroom: Option<u64>,
    /// Soft memory cap, in bytes.
    pub memory_high: Option<u64>,
}

/// Stored configuration of one managed program (the fields the logic reads).
#[derive(Debug)]
pub struct ProgramConfig {
    pub name: String,
    pub command: String,
    pub args: Vec<String>,
    pub env: Vec<(String, String)>,
    pub env_file: Option<String>,
    pub cwd: Option<String>,
    pub user: Option<String>,
    pub autostart: bool,
    pub retry_limit: u32,
    pub autorestart: AutoRestart,
    pub exitcodes: Vec<i32>,
    pub startsecs: u32,
    pub stopsecs: Option<u32>,
    pub priority: i32,
    pub stdout_logfile: Option<String>,
    pub stderr_logfile: Option<String>,
    pub group: Option<String>,
    pub depends_on: Vec<String>,
    /// `None`: no probe configured; `Some(None)`: probe disabled; `Some(Some(t))`: enabled.
    pub health_check: Option<Option<HealthTuning>>,
    pub hooks: Hooks,
    pub artifact: Option<ArtifactConfig>,
    pub cron: Option<String>,
    pub on_overlap: Option<CronOverlap>,
    pub catchup: Option<CronCatchup>,
    pub jitter_sec: Option<u64>,
    pub max_concurrent: Option<u32>,
    pub max_queued: Option<u32>,
    pub created_at: u64,
    pub updated_at: u64,
    pub restore_path: Option<String>,
    pub cron_last_run: Option<u64>,
    pub resource_limits: Option<ResourceLimits>,
}

/// Two configurations hold the same values (their lists by content).
pub open spec fn spec_same_config(a: ProgramConfig, b: ProgramConfig) -> bool {
    &&& a.name == b.name
    &&& a.command == b.command
    &&& a.args@ == b.args@
    &&& a.env@ == b.env@
    &&& a.env_file == b.env_file
    &&& a.cwd == b.cwd
    &&& a.user == b.user
    &&& a.autostart == b.autostart
    &&& a.retry_limit == b.retry_limit
    &&& a.autorestart == b.autorestart
    &&& a.exitcodes@ == b.exitcodes@
    &&& a.startsecs == b.startsecs
    &&& a.stopsecs == b.stopsecs
    &&& a.priority == b.priority
    &&& a.stdout_logfile == b.stdout_logfile
    &&& a.stderr_logfile == b.stderr_logfile
    &&& a.group == b.group
    &&& a.depends_on@ == b.depends_on@
    &&& a.health_check == b.health_check
    &&& a.hooks == b.hooks
    &&& a.artifact == b.artifact
    &&& a.cron == b.cron
    &&& a.on_overlap == b.on_overlap
    &&& a.catchup == b.catchup
    &&& a.jitter_sec == b.jitter_sec
    &&& a.max_concurrent == b.max_concurrent
    &&& a.max_queued == b.max_queued
    &&& a.created_at == b.created_at
    &&& a.updated_at == b.updated_at
    &&& a.restore_path == b.restore_path
    &&& a.cron_last_run == b.cron_last_run
    &&& a.resource_limits == b.resource_limits
}

impl Clone for ProgramConfig {
    fn clone(&self) -> (r: Self)
        ensures
            spec_same_config(r, *self),
    {
        ProgramConfig {
            name: self.name.clone(),
            command: self.command.clone(),
            args: clone_strings(&self.args),
            env: clone_env(&self.env),
            env_file: clone_opt_string(&self.env_file),
            cwd: clone_opt_string(&self.cwd),
            user: clone_opt_string(&self.user),
            autostart: self.autostart,
            retry_limit: self.retry_limit,
            autorestart: self.autorestart,
            exitcodes: clone_i32s(&self.exitcodes),
            startsecs: self.startsecs,
            stopsecs: self.stopsecs,
            priority: self.priority,
            stdout_logfile: clone_opt_string(&self.stdout_logfile),
            stderr_logfile: clone_opt_string(&self.stderr_logfile),
            group: clone_opt_string(&self.group),
            depends_on: clone_strings(&self.depends_on),
            health_check: self.health_check,
            hooks: self.hooks.clone(),
            artifact: match &self.artifact {
                Some(a) => Some(a.clone()),
                None => None,
            },
            cron: clone_opt_string(&self.cron),
            on_overlap: self.on_overlap,
            catchup: self.catchup,
            jitter_sec: self.jitter_sec,
            max_concurrent: self.max_concurrent,
            max_queued: self.max_queued,
            created_at: self.created_at,
            updated_at: self.updated_at,
            restore_path: clone_opt_string(&self.restore_path),
            cron_last_run: self.cron_last_run,
            resource_limits: self.resource_limits,
        }
    }
}

/// Default number of overlapping instances of a scheduled task.
pub const DEFAULT_MAX_CONCURRENT: u32 = 1;

/// Default bound of the pending cron queue.
pub const DEFAULT_MAX_QUEUED: u32 = 100;

/// `max_concurrent` with `None` and `0` meaning the default of 1.
pub open spec fn spec_max_concurrent_eff(max_concurrent: Option<u32>) -> u32 {
    match max_concurrent {
        Some(v) => if v == 0 { DEFAULT_MAX_CONCURRENT } else { v },
        None => DEFAULT_MAX_CONCURRENT,
    }
}

/// `max_queued` with `None` and `0` meaning the default of 100.
pub open spec fn spec_max_queued_eff(max_queued: Option<u32>) -> u32 {
    match max_queued {
        Some(v) => if v == 0 { DEFAULT_MAX_QUEUED } else { v },
        None => DEFAULT_MAX_QUEUED,
    }
}

/// Whether an exit with `code` warrants an automatic restart.
pub open spec fn spec_should_autorestart(
    autorestart: AutoRestart,
    exitcodes: Seq<i32>,
    code: Option<i32>,
) -> bool {
    match autorestart {
        AutoRestart::Never => false,
        AutoRestart::Always => true,
        AutoRestart::Unexpected => match code {
            Some(c) => !exitcodes.contains(c),
            None => true,
        },
    }
}

/// Supervisor `autorestart`: `always` restarts after every exit, whatever
/// its code and also after a signal; `never` after none; `unexpected`
/// after a signal and after exactly the codes not listed in `exitcodes`.
pub proof fn law_autorestart_policy(exitcodes: Seq<i32>, code: Option<i32>)
    ensures
        spec_should_autorestart(AutoRestart::Always, exitcodes, code),
        !spec_should_autorestart(AutoRestart::Never, exitcodes, code),
        spec_should_autorestart(AutoRestart::Unexpected, exitcodes, None),
        forall|c: i32|
            #![trigger spec_should_autorestart(AutoRestart::Unexpected, exitcodes, Some(c))]
            spec_should_autorestart(AutoRestart::Unexpected, exitcodes, Some(c)) <==> !exitcodes.contains(c),
{
}

impl ProgramConfig {
    /// Effective `max_concurrent` (`None` and `0` mean 1).
    pub fn max_concurrent_eff(&self) -> (r: u32)
        ensures
            r == spec_max_concurrent_eff(self.max_concurrent),
            r >= 1,
    {
        match self.max_concurrent {
            Some(v) => if v == 0 { DEFAULT_MAX_CONCURRENT } else { v },
            None => DEFAULT_MAX_CONCURRENT,
        }
    }

    /// Effective `max_queued` (`None` and `0` mean 100).
    pub fn max_queued_eff(&self) -> (r: u32)
        ensures
            r == spec_max_queued_eff(self.max_queued),
            r >= 1,
    {
        match self.max_queued {
            Some(v) => if v == 0 { DEFAULT_MAX_QUEUED } else { v },
            None => DEFAULT_MAX_QUEUED,
        }
    }

    /// Supervisor `autorestart` / `exitcodes` decision for an exit code
    /// (`None` when the process was killed by a signal).
    pub fn should_autorestart(&self, code: Option<i32>) -> (r: bool)
        ensures
            r == spec_should_autorestart(self.autorestart, self.exitcodes@, code),
    {
        match self.autorestart {
            AutoRestart::Never => false,
            AutoRestart::Always => true,
            AutoRestart::Unexpected => match code {
                Some(c) => !vec_contains_i32(&self.exitcodes, c),
                None => true,
            },
        }
    }
}

/// Whether `v` holds `x`.
pub fn vec_contains_i32(v: &Vec<i32>, x: i32) -> (r: bool)
    ensures
        r == v@.contains(x),
{
    let mut i: usize = 0;
    while i < v.len()
        invariant
            i <= v.len(),
            forall|j: int| 0 <= j < i ==> v@[j] != x,
        decreases v.len() - i,
    {
        if v[i] == x {
            return true;
        }
        i = i + 1;
    }
    false
}

/// One persisted lifecycle/exception event of the daemon.
#[derive(Debug)]
pub struct ProgramEventRecord {
    pub ts: u64,
    pub ts_ms: u64,
    pub program_id: Option<u128>,
    pub program_name: Option<String>,
    pub event: String,
    pub exit_code: Option<i32>,
    pub signal: Option<i32>,
    pub retry_count: Option<u32>,
    pub duration_secs: Option<u64>,
    pub msg: String,
}

impl Clone for ProgramEventRecord {
    fn clone(&self) -> (r: Self)
        ensures
            r == *self,
    {
        ProgramEventRecord {
            ts: self.ts,
            ts_ms: self.ts_ms,
            program_id: self.program_id,
            program_name: self.program_name.clone(),
            event: self.event.clone(),
            exit_code: self.exit_code,
            signal: self.signal,
            retry_count: self.retry_count,
            duration_secs: self.duration_secs,
            msg: self.msg.clone(),
        }
    }
}

} // verus!
