//! Start, stop, restart and health decisions of the supervisor, applied to
//! the process registry.

use vstd::prelude::*;
use vstd::std_specs::iter::IteratorSpec;

use crate::model::{spec_max_concurrent_eff, HealthTuning, ProcessStatus, ProgramConfig, ProgramEventRecord};
use crate::registry::{spec_cap_events, spec_history, ProcessRegistry, RuntimeState};
use crate::text::{concat2, concat3, fmt_u64, spec_dec};
use vstd::string::StringExecFns;

verus! {

broadcast use vstd::std_specs::hash::group_hash_axioms;

/// Whether some program of the map is named `name`.
pub open spec fn spec_has_name(programs: Map<u128, ProgramConfig>, name: Seq<char>) -> bool {
    exists|k: u128| #[trigger] programs.contains_key(k) && programs[k].name@ == name
}

impl ProcessRegistry {
    /// Id of a program with the given name.
    pub fn find_program_id_by_name(&self, name: &String) -> (r: Option<u128>)
        ensures
            match r {
                Some(k) => self.programs@.contains_key(k) && self.programs@[k].name@ == name@,
                None => !spec_has_name(self.programs@, name@),
            },
    {
        let ghost m = self.programs@;
        let ghost items = vstd::std_specs::hash::spec_hash_map_iter(&self.programs).remaining();
        proof {
            vstd::std_specs::hash::axiom_spec_hash_map_iter(&self.programs);
        }
        for pair in it: self.programs.iter()
            invariant
                m == self.programs@,
                it.seq() == items,
                forall|i: int|
                    0 <= i < it.index() ==> (#[trigger] it.seq()[i]).1.name@ != name@,
                it.seq().len() == m.dom().len(),
                forall|i: int|
                    0 <= i < it.seq().len() ==> m.contains_key(*(#[trigger] it.seq()[i]).0) && m[*it.seq()[i].0]
                        == *it.seq()[i].1,
                forall|k: u128| #[trigger] m.contains_key(k) ==> it.seq().contains((&k, &m[k])),
        {
            let (k, v) = pair;
            if v.name == *name {
                return Some(*k);
            }
        }
        proof {
            assert forall|k: u128| #[trigger] m.contains_key(k) implies m[k].name@ != name@ by {
                let i = choose|i: int| 0 <= i < items.len() && items[i] == (&k, &m[k]);
                assert(items[i].1.name@ != name@);
            }
        }
        None
    }
}

/// Program names are unique in the map.
pub open spec fn spec_unique_names(programs: Map<u128, ProgramConfig>) -> bool {
    forall|a: u128, b: u128|
        #![trigger programs[a], programs[b]]
        programs.contains_key(a) && programs.contains_key(b) && a != b ==> programs[a].name@
            != programs[b].name@
}

/// Readiness of one dependency of a program that is being started.
#[derive(Clone, Copy, Debug, PartialEq, Eq, Structural)]
pub enum DepState {
    /// Running and healthy.
    Ready,
    /// Running but not healthy yet.
    NotHealthy,
    /// Not running; `auto_start` when it is idle (not waiting, backing off,
    /// Fatal or stopped by the operator) and will be started on behalf of
    /// the dependent.
    NotRunning { auto_start: bool },
    /// No program has that name.
    Missing,
}

/// A dependency that is not ready, with its name.
#[derive(Debug)]
pub struct DepReport {
    pub name: String,
    pub state: DepState,
}

/// Why a program cannot be started.
#[derive(Clone, Copy, Debug, PartialEq, Eq, Structural)]
pub enum SpawnError {
    NotFound,
    /// Every `max_concurrent` slot is taken (`scheduled`: a cron program).
    AlreadyRunning { scheduled: bool, max_concurrent: u32 },
}

impl SpawnError {
    /// Message of the error.
    pub fn message(&self) -> (r: String)
        ensures
            r@ == spec_spawn_error_message(*self),
    {
        proof {
            reveal_strlit("Program not found");
            reveal_strlit("Program is already running at max_concurrent=");
            reveal_strlit("Program is already running");
        }
        match self {
            SpawnError::NotFound => {
                String::from_str("Program not found")
            },
            SpawnError::AlreadyRunning { scheduled, max_concurrent } => {
                if *scheduled {
                    let n = fmt_u64(*max_concurrent as u64);
                    concat2("Program is already running at max_concurrent=", n.as_str())
                } else {
                    String::from_str("Program is already running")
                }
            },
        }
    }
}

/// Message of a spawn error.
pub open spec fn spec_spawn_error_message(e: SpawnError) -> Seq<char> {
    match e {
        SpawnError::NotFound => "Program not found"@,
        SpawnError::AlreadyRunning { scheduled, max_concurrent } => if scheduled {
            "Program is already running at max_concurrent="@ + spec_dec(max_concurrent as nat)
        } else {
            "Program is already running"@
        },
    }
}

/// Outcome of the start gate.
#[derive(Debug)]
pub enum SpawnGate {
    /// Some dependency is not ready: the program waits; `auto_start` lists
    /// the dependencies to start on its behalf.
    Waiting { unready: Vec<DepReport>, auto_start: Vec<u128> },
    /// The program may be launched; `track_flapping` for long-running
    /// services (not for scheduled tasks).
    Proceed { track_flapping: bool },
}

/// Readiness of dependency `dep` once program `id` left the waiting,
/// backoff and Fatal sets.
pub open spec fn spec_dep_state(r: ProcessRegistry, id: u128, dep: Seq<char>) -> DepState {
    if !spec_has_name(r.programs@, dep) {
        DepState::Missing
    } else {
        let k = choose|k: u128| #[trigger] r.programs@.contains_key(k) && r.programs@[k].name@ == dep;
        if r.instances(k).len() > 0 {
            if r.instances(k)[0].is_healthy {
                DepState::Ready
            } else {
                DepState::NotHealthy
            }
        } else {
            DepState::NotRunning {
                auto_start: k == id || (!r.waiting@.contains(k) && !r.restarting@.contains(k)
                    && !r.crashed@.contains(k) && !r.held@.contains(k)),
            }
        }
    }
}

/// Dependencies that are not ready, in the order they are listed.
pub open spec fn spec_unready(r: ProcessRegistry, id: u128, deps: Seq<String>) -> Seq<
    (Seq<char>, DepState),
>
    decreases deps.len(),
{
    if deps.len() == 0 {
        Seq::empty()
    } else {
        let st = spec_dep_state(r, id, deps.last()@);
        spec_unready(r, id, deps.drop_last()) + if st == DepState::Ready {
            Seq::empty()
        } else {
            seq![(deps.last()@, st)]
        }
    }
}

/// Dependencies to start on behalf of the dependent, in the order listed.
pub open spec fn spec_auto_start(r: ProcessRegistry, id: u128, deps: Seq<String>) -> Seq<u128>
    decreases deps.len(),
{
    if deps.len() == 0 {
        Seq::empty()
    } else {
        let dep = deps.last()@;
        let st = spec_dep_state(r, id, dep);
        spec_auto_start(r, id, deps.drop_last()) + if st == (DepState::NotRunning { auto_start: true }) {
            seq![choose|k: u128| #[trigger] r.programs@.contains_key(k) && r.programs@[k].name@ == dep]
        } else {
            Seq::empty()
        }
    }
}

/// Name of the first dependency that names no program.
pub open spec fn spec_first_missing(u: Seq<(Seq<char>, DepState)>) -> Option<Seq<char>>
    decreases u.len(),
{
    if u.len() == 0 {
        None
    } else if u[0].1 == DepState::Missing {
        Some(u[0].0)
    } else {
        spec_first_missing(u.drop_first())
    }
}

/// Last error of a program that waits for a dependency no program has.
pub open spec fn spec_missing_dep_message(name: Seq<char>) -> Seq<char> {
    "Dependency '"@ + name + "' not found"@
}

/// Position of the first dependency report of a missing program.
fn first_missing(u: &Vec<DepReport>) -> (r: Option<usize>)
    ensures
        match r {
            Some(j) => j < u@.len() && spec_first_missing(u@.map_values(|d: DepReport| (d.name@, d.state)))
                == Some(u@[j as int].name@),
            None => spec_first_missing(u@.map_values(|d: DepReport| (d.name@, d.state))) is None,
        },
{
    let ghost v = u@.map_values(|d: DepReport| (d.name@, d.state));
    let mut j: usize = 0;
    assert(v.subrange(0, v.len() as int) =~= v);
    while j < u.len()
        invariant
            j <= u@.len(),
            v == u@.map_values(|d: DepReport| (d.name@, d.state)),
            spec_first_missing(v) == spec_first_missing(v.subrange(j as int, v.len() as int)),
        decreases u.len() - j,
    {
        assert(v.subrange(j as int, v.len() as int).drop_first() =~= v.subrange(j + 1, v.len() as int));
        if u[j].state == DepState::Missing {
            return Some(j);
        }
        j = j + 1;
    }
    None
}

impl ProcessRegistry {
    /// Readiness of one dependency (see [`spec_dep_state`]).
    fn dep_state(&self, id: u128, dep: &String) -> (r: (DepState, Option<u128>))
        requires
            self.wf(),
        ensures
            spec_unique_names(self.programs@) ==> r.0 == spec_dep_state(*self, id, dep@),
            spec_unique_names(self.programs@) && r.0 == (DepState::NotRunning { auto_start: true })
                ==> r.1 == Some(
                choose|k: u128| #[trigger] self.programs@.contains_key(k) && self.programs@[k].name@ == dep@,
            ),
    {
        match self.find_program_id_by_name(dep) {
            None => (DepState::Missing, None),
            Some(did) => {
                let ghost k = choose|k: u128|
                    #[trigger] self.programs@.contains_key(k) && self.programs@[k].name@ == dep@;
                assert(self.programs@.contains_key(k) && self.programs@[k].name@ == dep@);
                assert(spec_unique_names(self.programs@) ==> did == k);
                match self.get_running(&did) {
                    Some(st) => {
                        if st.is_healthy {
                            (DepState::Ready, Some(did))
                        } else {
                            (DepState::NotHealthy, Some(did))
                        }
                    },
                    None => {
                        let idle = did == id || (!self.waiting.contains(&did)
                            && !self.restarting.contains(&did) && !self.crashed.contains(&did)
                            && !self.held.contains(&did));
                        (DepState::NotRunning { auto_start: idle }, Some(did))
                    },
                }
            },
        }
    }

    /// Start gate of a program: refuses a program that is unknown or already
    /// at `max_concurrent`; otherwise clears its waiting, backoff and Fatal
    /// marks and its last error, and parks it as Waiting while a dependency
    /// is not ready.
    pub fn begin_spawn(&mut self, id: u128) -> (r: Result<SpawnGate, SpawnError>)
        requires
            old(self).wf(),
        ensures
            final(self).wf(),
            final(self).running@ == old(self).running@,
            final(self).programs@ == old(self).programs@,
            final(self).events@ == old(self).events@,
            final(self).health_restart_count@ == old(self).health_restart_count@,
            final(self).held@ == old(self).held@,
            final(self).dirty == old(self).dirty,
            final(self).events_dirty == old(self).events_dirty,
            !old(self).programs@.contains_key(id) ==> r == Err::<SpawnGate, SpawnError>(
                SpawnError::NotFound,
            ),
            old(self).programs@.contains_key(id) ==> {
                let cfg = old(self).programs@[id];
                let max = spec_max_concurrent_eff(cfg.max_concurrent);
                if old(self).instances(id).len() >= max {
                    r == Err::<SpawnGate, SpawnError>(
                        SpawnError::AlreadyRunning { scheduled: cfg.cron is Some, max_concurrent: max },
                    )
                } else {
                    &&& r is Ok
                    &&& final(self).restarting@ == old(self).restarting@.remove(id)
                    &&& final(self).crashed@ == old(self).crashed@.remove(id)
                    &&& final(self).startup_errors@.remove(id) == old(self).startup_errors@.remove(id)
                    &&& match r->Ok_0 {
                        SpawnGate::Proceed { .. } => !final(self).startup_errors@.contains_key(id),
                        SpawnGate::Waiting { unready: u, .. } => match spec_first_missing(
                            u@.map_values(|d: DepReport| (d.name@, d.state)),
                        ) {
                            Some(n) => final(self).startup_errors@.contains_key(id)
                                && final(self).startup_errors@[id]@ == spec_missing_dep_message(n),
                            None => !final(self).startup_errors@.contains_key(id),
                        },
                    }
                    &&& spec_unique_names(old(self).programs@) ==> {
                        let unready = spec_unready(*old(self), id, cfg.depends_on@);
                        match r->Ok_0 {
                            SpawnGate::Proceed { track_flapping } => {
                                &&& unready.len() == 0
                                &&& track_flapping == (cfg.cron is None)
                                &&& final(self).waiting@ == old(self).waiting@.remove(id)
                            },
                            SpawnGate::Waiting { unready: u, auto_start } => {
                                &&& unready.len() > 0
                                &&& u@.map_values(|d: DepReport| (d.name@, d.state)) == unready
                                &&& auto_start@ == spec_auto_start(*old(self), id, cfg.depends_on@)
                                &&& final(self).waiting@ == old(self).waiting@.remove(id).insert(id)
                            },
                        }
                    }
                }
            },
    {
        let (deps, max, scheduled) = match self.programs.get(&id) {
            None => {
                return Err(SpawnError::NotFound);
            },
            Some(cfg) => (cfg.depends_on.clone(), cfg.max_concurrent_eff(), cfg.cron.is_some()),
        };
        let ghost cfg = self.programs@[id];
        proof {
            assert(deps@ =~= cfg.depends_on@);
        }
        if self.running_count(&id) >= max as usize {
            return Err(SpawnError::AlreadyRunning { scheduled, max_concurrent: max });
        }
        let ghost r0 = *self;
        self.restarting.remove(&id);
        self.waiting.remove(&id);
        self.crashed.remove(&id);
        self.startup_errors.remove(&id);
        let mut unready: Vec<DepReport> = Vec::new();
        let mut auto_start: Vec<u128> = Vec::new();
        let mut i: usize = 0;
        while i < deps.len()
            invariant
                self.wf(),
                self.programs@ == r0.programs@,
                self.running@ == r0.running@,
                self.waiting@ == r0.waiting@.remove(id),
                self.restarting@ == r0.restarting@.remove(id),
                self.crashed@ == r0.crashed@.remove(id),
                self.held@ == r0.held@,
                i <= deps@.len(),
                spec_unique_names(r0.programs@) ==> unready@.map_values(
                    |d: DepReport| (d.name@, d.state),
                ) == spec_unready(r0, id, deps@.take(i as int)),
                spec_unique_names(r0.programs@) ==> auto_start@ == spec_auto_start(
                    r0,
                    id,
                    deps@.take(i as int),
                ),
            decreases deps.len() - i,
        {
            let dep = &deps[i];
            let (st, did) = self.dep_state(id, dep);
            proof {
                if spec_unique_names(r0.programs@) {
                    assert(spec_dep_state(*self, id, dep@) == spec_dep_state(r0, id, dep@));
                }
                assert(deps@.take(i + 1).drop_last() == deps@.take(i as int));
            }
            let ghost before = unready@.map_values(|d: DepReport| (d.name@, d.state));
            if st != DepState::Ready {
                unready.push(DepReport { name: dep.clone(), state: st });
                proof {
                    assert(unready@.map_values(|d: DepReport| (d.name@, d.state)) =~= before.push(
                        (dep@, st),
                    ));
                }
            } else {
                proof {
                    assert(unready@.map_values(|d: DepReport| (d.name@, d.state)) =~= before);
                }
            }
            if st == (DepState::NotRunning { auto_start: true }) {
                match did {
                    Some(d) => auto_start.push(d),
                    None => {},
                }
            }
            proof {
                if spec_unique_names(r0.programs@) {
                assert(spec_unready(r0, id, deps@.take(i + 1)) =~= spec_unready(
                    r0,
                    id,
                    deps@.take(i as int),
                ) + if st == DepState::Ready {
                    Seq::empty()
                } else {
                    seq![(deps@[i as int]@, st)]
                });
                }
            }
            i = i + 1;
        }
        proof {
            assert(deps@.take(deps@.len() as int) == deps@);
        }
        if unready.len() == 0 {
            Ok(SpawnGate::Proceed { track_flapping: !scheduled })
        } else {
            self.waiting.insert(id);
            match first_missing(&unready) {
                Some(j) => {
                    let msg = concat3("Dependency '", unready[j].name.as_str(), "' not found");
                    self.startup_errors.insert(id, msg);
                },
                None => {},
            }
            Ok(SpawnGate::Waiting { unready, auto_start })
        }
    }

    /// Whether program names are unique.
    pub fn unique_names(&self) -> (r: bool)
        ensures
            r == spec_unique_names(self.programs@),
    {
        let ghost m = self.programs@;
        let ghost items = vstd::std_specs::hash::spec_hash_map_iter(&self.programs).remaining();
        proof {
            vstd::std_specs::hash::axiom_spec_hash_map_iter(&self.programs);
        }
        let mut seen: Vec<(u128, &String)> = Vec::new();
        for pair in it: self.programs.iter()
            invariant
                m == self.programs@,
                it.seq() == items,
                items.len() == m.dom().len(),
                forall|i: int|
                    0 <= i < items.len() ==> m.contains_key(*(#[trigger] items[i]).0)
                        && m[*items[i].0] == *items[i].1,
                forall|k: u128| #[trigger] m.contains_key(k) ==> items.contains((&k, &m[k])),
                items.no_duplicates(),
                seen@.len() == it.index(),
                forall|i: int|
                    0 <= i < it.index() ==> (#[trigger] seen@[i]).0 == *items[i].0 && *seen@[i].1
                        == items[i].1.name,
                forall|i: int, j: int|
                    0 <= i < j < it.index() ==> (#[trigger] seen@[i]).1@ != (#[trigger] seen@[j]).1@,
        {
            let (k, v) = pair;
            let mut j: usize = 0;
            #[verifier::loop_isolation(false)]
            while j < seen.len()
                invariant
                    j <= seen@.len(),
                    forall|x: int| 0 <= x < j ==> (#[trigger] seen@[x]).1@ != v.name@,
                decreases seen.len() - j,
            {
                if *seen[j].1 == v.name {
                    proof {
                        let a_idx = j as int;
                        let b_idx = it.index() as int;
                        assert(items[a_idx] != items[b_idx]);
                        assert(m.contains_key(seen@[j as int].0));
                        assert(m.contains_key(*k));
                        assert(m[seen@[j as int].0].name@ == m[*k].name@);
                        if seen@[j as int].0 == *k {
                            assert(items[a_idx] == items[b_idx]);
                        }
                    }
                    return false;
                }
                j = j + 1;
            }
            seen.push((*k, &v.name));
        }
        proof {
            assert forall|a: u128, b: u128|
                #![trigger m[a], m[b]]
                m.contains_key(a) && m.contains_key(b) && a != b implies m[a].name@ != m[b].name@ by {
                let ia = choose|i: int| 0 <= i < items.len() && items[i] == (&a, &m[a]);
                let ib = choose|i: int| 0 <= i < items.len() && items[i] == (&b, &m[b]);
                if ia < ib {
                    assert(seen@[ia].1@ != seen@[ib].1@);
                } else if ib < ia {
                    assert(seen@[ib].1@ != seen@[ia].1@);
                }
            }
        }
        true
    }
}

/// Message recorded when a program is restarted too often.
pub open spec fn spec_flapping_message(window_secs: u64) -> Seq<char> {
    "FLAPPING DETECTED: Restarted too frequently in "@ + spec_dec(window_secs as nat) + "s."@
}

/// What a freshly launched instance starts with.
#[derive(Clone, Copy, Debug, PartialEq, Eq, Structural)]
pub struct StartInfo {
    /// Healthy at once (no probe, or a disabled probe).
    pub healthy: bool,
    /// Probe to run, with its interval raised to at least one second.
    pub probe: Option<HealthTuning>,
}

/// Health state of a new instance under its health-check configuration.
pub open spec fn spec_start_info(hc: Option<Option<HealthTuning>>) -> StartInfo {
    match hc {
        Some(Some(t)) => StartInfo {
            healthy: false,
            probe: Some(
                HealthTuning {
                    interval_secs: if t.interval_secs == 0 { 1 } else { t.interval_secs },
                    ..t
                },
            ),
        },
        _ => StartInfo { healthy: true, probe: None },
    }
}

/// What stopping a program does.
#[derive(Debug, PartialEq, Eq)]
pub enum StopPlan {
    /// Signal every instance (`kill`: SIGKILL, else SIGTERM) and, after
    /// `timeout_secs`, force-kill `primary_pid` if it is still there.
    Signal { pids: Vec<u32>, kill: bool, timeout_secs: u64, primary_pid: u32 },
    /// The program was waiting for a backoff restart, which is cancelled.
    CancelledBackoff,
    /// The program was waiting for its dependencies, and no longer waits.
    CancelledWaiting,
    /// The program is not running.
    NotRunning,
}

/// Seconds to wait for a stopped program before force-killing it:
/// its `stopsecs`, else the server's shutdown timeout.
pub open spec fn spec_stop_timeout(
    programs: Map<u128, ProgramConfig>,
    id: u128,
    default_secs: u64,
) -> u64 {
    if programs.contains_key(id) && programs[id].stopsecs is Some {
        programs[id].stopsecs->0 as u64
    } else {
        default_secs
    }
}

/// Pids of a sequence of instances.
pub open spec fn spec_pids(s: Seq<RuntimeState>) -> Seq<u32> {
    s.map_values(|st: RuntimeState| st.pid)
}

/// What a restart request does.
#[derive(Debug, PartialEq, Eq)]
pub enum RestartPlan {
    /// The program runs: send SIGTERM to `pids`; the exit handler respawns
    /// it; force-kill `primary_pid` after `timeout_secs`.
    Terminate { pids: Vec<u32>, primary_pid: u32, timeout_secs: u64 },
    /// The program does not run: start it now.
    StartNow,
}

/// Outcome of a health report.
#[derive(Debug)]
pub struct HealthReport {
    /// The report was ignored (not running, or stopping).
    pub ignored: bool,
    /// The failure detail changed and should be written to the log.
    pub new_failure_detail: Option<String>,
    /// New displayed status when the health flag flipped.
    pub status_change: Option<ProcessStatus>,
    /// `(pid, uptime)` when the program recovered after a crash.
    pub recovered: Option<(u32, u64)>,
    /// Backup of an upgrade that the healthy report commits.
    pub committed_backup: Option<String>,
    /// The waiting queue should be re-examined.
    pub check_waiting: bool,
}

/// What a health-triggered restart does.
#[derive(Debug, PartialEq, Eq)]
pub enum HealthRestartPlan {
    /// Not applicable (not running, unknown, or already stopping/restarting).
    Skip,
    /// Too many health restarts: the program is Fatal and must be stopped
    /// (forcefully); `message` is recorded.
    Fatal { attempts: u64, message: String },
    /// Terminate `pids` for a restart; force-kill `primary_pid` after
    /// `timeout_secs`.
    Restart { attempt: u32, pids: Vec<u32>, primary_pid: u32, timeout_secs: u64 },
}

/// Message recorded when health restarts are exhausted.
pub open spec fn spec_health_fatal_message(attempts: nat, detail: Seq<char>) -> Seq<char> {
    "Stopped after "@ + spec_dec(attempts) + " health restarts. Last failure: "@ + detail
}

/// Displayed status of a program.
pub open spec fn spec_status(r: ProcessRegistry, id: u128) -> ProcessStatus {
    if r.instances(id).len() > 0 {
        let st = r.instances(id)[0];
        if st.stopping {
            ProcessStatus::Stopping
        } else if st.is_healthy {
            ProcessStatus::Healthy
        } else {
            ProcessStatus::Running
        }
    } else if r.restarting@.contains(id) {
        ProcessStatus::Backoff
    } else if r.waiting@.contains(id) {
        ProcessStatus::Waiting
    } else if r.crashed@.contains(id) {
        ProcessStatus::Fatal
    } else {
        ProcessStatus::Stopped
    }
}

/// Metrics status code: 1 healthy, 5 running unhealthy, 2 Fatal,
/// 3 backoff, 4 waiting, 0 stopped.
pub open spec fn spec_status_code(r: ProcessRegistry, id: u128) -> u32 {
    if r.instances(id).len() > 0 {
        if r.instances(id)[0].is_healthy { 1 } else { 5 }
    } else if r.crashed@.contains(id) {
        2
    } else if r.restarting@.contains(id) {
        3
    } else if r.waiting@.contains(id) {
        4
    } else {
        0
    }
}

/// The displayed status: a program with a running primary instance is
/// Stopping, Healthy or Running after that instance; one without is in
/// Backoff while it waits for a restart, else Waiting for its
/// dependencies, else Fatal when it gave up, else Stopped.
pub proof fn law_status(r: ProcessRegistry, id: u128)
    ensures
        ({
            let s = spec_status(r, id);
            let run = r.instances(id).len() > 0;
            &&& s != ProcessStatus::Starting
            &&& (run ==> (s == ProcessStatus::Stopping <==> r.instances(id)[0].stopping))
            &&& (run ==> (s == ProcessStatus::Healthy <==> !r.instances(id)[0].stopping
                && r.instances(id)[0].is_healthy))
            &&& (run ==> (s == ProcessStatus::Running <==> !r.instances(id)[0].stopping
                && !r.instances(id)[0].is_healthy))
            &&& (s == ProcessStatus::Backoff <==> !run && r.restarting@.contains(id))
            &&& (s == ProcessStatus::Waiting <==> !run && !r.restarting@.contains(id) && r.waiting@.contains(id))
            &&& (s == ProcessStatus::Fatal <==> !run && !r.restarting@.contains(id) && !r.waiting@.contains(id)
                && r.crashed@.contains(id))
            &&& (s == ProcessStatus::Stopped <==> !run && !r.restarting@.contains(id) && !r.waiting@.contains(
                id,
            ) && !r.crashed@.contains(id))
        }),
{
}

/// The metrics status code: 1 for a healthy running primary, 5 for an
/// unhealthy one; without a running instance 2 when Fatal, else 3 in
/// backoff, else 4 waiting, else 0.
pub proof fn law_status_code(r: ProcessRegistry, id: u128)
    ensures
        ({
            let c = spec_status_code(r, id);
            let run = r.instances(id).len() > 0;
            &&& (run ==> (c == 1 <==> r.instances(id)[0].is_healthy) && (c == 1 || c == 5))
            &&& (c == 2 <==> !run && r.crashed@.contains(id))
            &&& (c == 3 <==> !run && !r.crashed@.contains(id) && r.restarting@.contains(id))
            &&& (c == 4 <==> !run && !r.crashed@.contains(id) && !r.restarting@.contains(id) && r.waiting@.contains(
                id,
            ))
            &&& (c == 0 <==> !run && !r.crashed@.contains(id) && !r.restarting@.contains(id)
                && !r.waiting@.contains(id))
        }),
{
}

/// A dependency is Ready only when a program of that name runs a healthy
/// primary instance, and Missing exactly when no program has that name.
/// Under unique names, a dependency whose primary instance runs but is not
/// healthy (stopping or not) is NotHealthy, and one with no running
/// instance is NotRunning: never started on the dependent's behalf when the
/// operator stopped it or it is Fatal, and started when it is idle.
pub proof fn law_dep_state(r: ProcessRegistry, id: u128, dep: Seq<char>)
    ensures
        spec_dep_state(r, id, dep) == DepState::Ready ==> spec_runs_healthy(r, dep),
        (spec_dep_state(r, id, dep) == DepState::Missing) == !spec_has_name(r.programs@, dep),
        forall|k: u128|
            #[trigger] r.programs@.contains_key(k) && r.programs@[k].name@ == dep && spec_unique_names(
                r.programs@,
            ) ==> (r.instances(k).len() > 0 && !r.instances(k)[0].is_healthy ==> spec_dep_state(r, id, dep)
                == DepState::NotHealthy) && (r.instances(k).len() == 0 ==> spec_dep_state(r, id, dep) is NotRunning),
        forall|k: u128|
            #[trigger] r.programs@.contains_key(k) && r.programs@[k].name@ == dep && spec_unique_names(
                r.programs@,
            ) && r.instances(k).len() == 0 && k != id ==> (r.held@.contains(k) || r.crashed@.contains(k)
                ==> spec_dep_state(r, id, dep) == DepState::NotRunning { auto_start: false }) && (!r.held@.contains(
                k,
            ) && !r.crashed@.contains(k) && !r.waiting@.contains(k) && !r.restarting@.contains(k)
                ==> spec_dep_state(r, id, dep) == DepState::NotRunning { auto_start: true }),
{
    if spec_has_name(r.programs@, dep) {
        let k = choose|k: u128| #[trigger] r.programs@.contains_key(k) && r.programs@[k].name@ == dep;
        assert(r.programs@.contains_key(k) && r.programs@[k].name@ == dep);
        assert forall|k2: u128|
            #[trigger] r.programs@.contains_key(k2) && r.programs@[k2].name@ == dep && spec_unique_names(
                r.programs@,
            ) implies k2 == k by {
            if k2 != k {
                assert(r.programs@[k2].name@ != r.programs@[k].name@);
            }
        }
    }
}

/// A program named `name` runs a healthy primary instance.
pub open spec fn spec_runs_healthy(r: ProcessRegistry, name: Seq<char>) -> bool {
    exists|k: u128|
        #[trigger] r.programs@.contains_key(k) && r.programs@[k].name@ == name && r.instances(k).len() > 0
            && r.instances(k)[0].is_healthy
}

/// The start gate lets a program go ahead (no unready dependency) only
/// when each of its dependencies is Ready: a program of that name runs a
/// healthy primary instance.
pub proof fn law_ready_dependencies(r: ProcessRegistry, id: u128, deps: Seq<String>)
    requires
        spec_unready(r, id, deps).len() == 0,
    ensures
        forall|i: int| 0 <= i < deps.len() ==> spec_runs_healthy(r, (#[trigger] deps[i])@),
    decreases deps.len(),
{
    if deps.len() > 0 {
        let st = spec_dep_state(r, id, deps.last()@);
        if st != DepState::Ready {
            assert(spec_unready(r, id, deps).len() > 0);
        }
        assert(spec_unready(r, id, deps.drop_last()).len() == 0);
        law_ready_dependencies(r, id, deps.drop_last());
        law_dep_state(r, id, deps.last()@);
        assert forall|i: int| 0 <= i < deps.len() implies spec_runs_healthy(r, (#[trigger] deps[i])@) by {
            if i < deps.len() - 1 {
                assert(deps.drop_last()[i] == deps[i]);
            }
        }
    }
}

/// Programs map with the automatic start of `id` set to `autostart` and,
/// when given, its update time set to `now`.
pub open spec fn spec_set_autostart(
    programs: Map<u128, ProgramConfig>,
    id: u128,
    autostart: bool,
    now: Option<u64>,
) -> Map<u128, ProgramConfig> {
    if programs.contains_key(id) {
        let c = programs[id];
        programs.insert(
            id,
            ProgramConfig {
                autostart,
                updated_at: match now {
                    Some(t) => t,
                    None => c.updated_at,
                },
                ..c
            },
        )
    } else {
        programs
    }
}

/// Instances with their `stopping` flag set.
pub open spec fn spec_flag_stopping(s: Seq<RuntimeState>) -> Seq<RuntimeState> {
    s.map_values(|st: RuntimeState| RuntimeState { stopping: true, ..st })
}

/// Instances with their `restart_requested` flag set.
pub open spec fn spec_flag_restart(s: Seq<RuntimeState>) -> Seq<RuntimeState> {
    s.map_values(|st: RuntimeState| RuntimeState { restart_requested: true, ..st })
}

/// The plan and set changes of stopping `id` in registry `o`, giving `n`.
pub open spec fn spec_stop_result(
    o: ProcessRegistry,
    n: ProcessRegistry,
    id: u128,
    force: bool,
    default_secs: u64,
    r: StopPlan,
) -> bool {
    if o.instances(id).len() > 0 {
        &&& r is Signal
        &&& r->Signal_pids@ == spec_pids(o.instances(id))
        &&& r->Signal_kill == force
        &&& r->Signal_timeout_secs == (if force {
            1
        } else {
            spec_stop_timeout(o.programs@, id, default_secs)
        })
        &&& r->Signal_primary_pid == o.instances(id)[0].pid
        &&& n.restarting@ == o.restarting@
        &&& n.waiting@ == o.waiting@
    } else if o.restarting@.contains(id) {
        &&& r == StopPlan::CancelledBackoff
        &&& n.restarting@ == o.restarting@.remove(id)
        &&& n.waiting@ == o.waiting@
    } else if o.waiting@.contains(id) {
        &&& r == StopPlan::CancelledWaiting
        &&& n.waiting@ == o.waiting@.remove(id)
        &&& n.restarting@ == o.restarting@
    } else {
        &&& r == StopPlan::NotRunning
        &&& n.waiting@ == o.waiting@
        &&& n.restarting@ == o.restarting@
    }
}

impl ProcessRegistry {
    /// The program restarted too often: it becomes Fatal and is no longer
    /// started automatically. Returns the recorded message.
    pub fn mark_flapping(&mut self, id: u128, window_secs: u64, now: u64) -> (r: String)
        requires
            old(self).wf(),
        ensures
            final(self).wf(),
            r@ == spec_flapping_message(window_secs),
            final(self).running@ == old(self).running@,
            final(self).restarting@ == old(self).restarting@.remove(id),
            final(self).waiting@ == old(self).waiting@.remove(id),
            final(self).crashed@ == old(self).crashed@.insert(id),
            final(self).startup_errors@ == old(self).startup_errors@.insert(id, r),
            final(self).programs@ == spec_set_autostart(old(self).programs@, id, false, Some(now)),
            final(self).dirty,
            final(self).events@ == old(self).events@,
            final(self).events_dirty == old(self).events_dirty,
            final(self).health_restart_count@ == old(self).health_restart_count@,
    {
        self.restarting.remove(&id);
        self.waiting.remove(&id);
        self.crashed.insert(id);
        match self.programs.remove(&id) {
            Some(mut c) => {
                c.autostart = false;
                c.updated_at = now;
                self.programs.insert(id, c);
            },
            None => {},
        }
        let w = fmt_u64(window_secs);
        proof {
            reveal_strlit("FLAPPING DETECTED: Restarted too frequently in ");
            reveal_strlit("s.");
        }
        let msg = concat3("FLAPPING DETECTED: Restarted too frequently in ", w.as_str(), "s.");
        self.startup_errors.insert(id, msg.clone());
        self.dirty = true;
        msg
    }

    /// A launch attempt failed: the program is Fatal, with `message` (when
    /// given) as its last error.
    pub fn record_start_failure(&mut self, id: u128, message: Option<String>)
        requires
            old(self).wf(),
        ensures
            final(self).wf(),
            final(self).running@ == old(self).running@,
            final(self).crashed@ == old(self).crashed@.insert(id),
            final(self).startup_errors@ == (match message {
                Some(m) => old(self).startup_errors@.insert(id, m),
                None => old(self).startup_errors@,
            }),
            final(self).programs@ == old(self).programs@,
            final(self).restarting@ == old(self).restarting@,
            final(self).waiting@ == old(self).waiting@,
            final(self).dirty == old(self).dirty,
    {
        match message {
            Some(m) => {
                self.startup_errors.insert(id, m);
            },
            None => {},
        }
        self.crashed.insert(id);
    }

    /// Register a launched instance `pid` of program `id`, started at `now`
    /// after `retry_count` retries.
    pub fn complete_spawn(&mut self, id: u128, pid: u32, retry_count: u32, now: u64) -> (r:
        StartInfo)
        requires
            old(self).wf(),
        ensures
            final(self).wf(),
            r == spec_start_info(
                if old(self).programs@.contains_key(id) {
                    old(self).programs@[id].health_check
                } else {
                    None
                },
            ),
            final(self).instances(id) == old(self).instances(id).push(
                RuntimeState {
                    pid,
                    start_time: now,
                    retry_count,
                    stopping: false,
                    restart_requested: false,
                    is_healthy: r.healthy,
                    health_error: None,
                    alert_pending_recovery: retry_count > 0,
                    cpu_usage_centi: 0,
                    mem_usage: 0,
                },
            ),
            final(self).others_unchanged(&*old(self), id),
            final(self).same_static(&*old(self)),
    {
        let hc = match self.programs.get(&id) {
            Some(c) => c.health_check,
            None => None,
        };
        let info = match hc {
            Some(Some(t)) => StartInfo {
                healthy: false,
                probe: Some(
                    HealthTuning {
                        interval_secs: if t.interval_secs == 0 { 1 } else { t.interval_secs },
                        ..t
                    },
                ),
            },
            _ => StartInfo { healthy: true, probe: None },
        };
        self.insert_running(
            id,
            RuntimeState {
                pid,
                start_time: now,
                retry_count,
                stopping: false,
                restart_requested: false,
                is_healthy: info.healthy,
                health_error: None,
                alert_pending_recovery: retry_count > 0,
                cpu_usage_centi: 0,
                mem_usage: 0,
            },
        );
        info
    }

    /// Seconds to wait before force-killing a stopped program.
    pub fn stop_timeout(&self, id: &u128, default_secs: u64) -> (r: u64)
        ensures
            r == spec_stop_timeout(self.programs@, *id, default_secs),
    {
        match self.programs.get(id) {
            Some(c) => match c.stopsecs {
                Some(s) => s as u64,
                None => default_secs,
            },
            None => default_secs,
        }
    }

    /// Pids of the instances of a program.
    pub fn pids_of(&self, id: &u128) -> (r: Vec<u32>)
        requires
            self.wf(),
        ensures
            r@ == spec_pids(self.instances(*id)),
    {
        let all = self.get_running_all(id);
        let mut v: Vec<u32> = Vec::new();
        let mut i: usize = 0;
        while i < all.len()
            invariant
                i <= all@.len(),
                v@ == spec_pids(all@.take(i as int)),
            decreases all.len() - i,
        {
            v.push(all[i].pid);
            proof {
                assert(all@.take(i + 1) == all@.take(i as int).push(all@[i as int]));
                assert(spec_pids(all@.take(i + 1)) == spec_pids(all@.take(i as int)).push(
                    all@[i as int].pid,
                ));
            }
            i = i + 1;
        }
        assert(all@.take(i as int) == all@);
        v
    }

    /// Stop a program (`force`: SIGKILL). Automatic start is disabled,
    /// every instance is marked stopping so its exit is not restarted, and
    /// the program is held: no dependent's start revives it.
    pub fn begin_stop(&mut self, id: u128, force: bool, default_timeout_secs: u64) -> (r: StopPlan)
        requires
            old(self).wf(),
        ensures
            final(self).wf(),
            final(self).dirty,
            final(self).programs@ == spec_set_autostart(old(self).programs@, id, false, None),
            final(self).instances(id) == spec_flag_stopping(old(self).instances(id)),
            final(self).others_unchanged(&*old(self), id),
            spec_stop_result(*old(self), *final(self), id, force, default_timeout_secs, r),
            final(self).crashed@ == old(self).crashed@,
            final(self).held@ == old(self).held@.insert(id),
            final(self).startup_errors@ == old(self).startup_errors@,
            final(self).events@ == old(self).events@,
    {
        let pids = self.pids_of(&id);
        let timeout = if force {
            1
        } else {
            self.stop_timeout(&id, default_timeout_secs)
        };
        match self.programs.remove(&id) {
            Some(mut c) => {
                c.autostart = false;
                self.programs.insert(id, c);
            },
            None => {},
        }
        self.dirty = true;
        self.held.insert(id);
        let ghost before = self.instances(id);
        self.flag_all(&id, false);
        proof {
            assert(self.instances(id) =~= spec_flag_stopping(before));
        }
        let ghost mid = *self;
        let plan = if pids.len() > 0 {
            let primary_pid = pids[0];
            StopPlan::Signal { pids, kill: force, timeout_secs: timeout, primary_pid }
        } else if self.restarting.remove(&id) {
            StopPlan::CancelledBackoff
        } else if self.waiting.remove(&id) {
            StopPlan::CancelledWaiting
        } else {
            StopPlan::NotRunning
        };
        proof {
            assert(self.running@ == mid.running@);
            assert forall|k: u128| k != id implies #[trigger] self.instances(k) == old(self).instances(
                k,
            ) by {
                assert(mid.instances(k) == old(self).instances(k));
            }
            assert(mid.restarting@ == old(self).restarting@);
            assert(mid.waiting@ == old(self).waiting@);
            assert(spec_pids(old(self).instances(id)).len() == old(self).instances(id).len());
            if old(self).instances(id).len() > 0 {
                assert(pids@.len() > 0);
                assert(old(self).instances(id)[0].pid == spec_pids(old(self).instances(id))[0]);
                assert(plan is Signal);
                assert(plan->Signal_pids@ == spec_pids(old(self).instances(id)));
                assert(plan->Signal_kill == force);
                assert(plan->Signal_primary_pid == old(self).instances(id)[0].pid);
                assert(self.restarting@ == old(self).restarting@);
                assert(self.waiting@ == old(self).waiting@);
                assert(plan->Signal_timeout_secs == (if force {
                    1
                } else {
                    spec_stop_timeout(old(self).programs@, id, default_timeout_secs)
                }));
                assert(spec_stop_result(*old(self), *self, id, force, default_timeout_secs, plan));
            } else if old(self).restarting@.contains(id) {
                assert(plan == StopPlan::CancelledBackoff);
                assert(self.restarting@ == old(self).restarting@.remove(id));
                assert(self.waiting@ == old(self).waiting@);
                assert(spec_stop_result(*old(self), *self, id, force, default_timeout_secs, plan));
            } else if old(self).waiting@.contains(id) {
                assert(plan == StopPlan::CancelledWaiting);
                assert(self.restarting@ =~= old(self).restarting@);
                assert(spec_stop_result(*old(self), *self, id, force, default_timeout_secs, plan));
            } else {
                assert(plan == StopPlan::NotRunning);
                assert(self.restarting@ =~= old(self).restarting@);
                assert(self.waiting@ =~= old(self).waiting@);
                assert(spec_stop_result(*old(self), *self, id, force, default_timeout_secs, plan));
            }
        }
        plan
    }

    /// Restart a program: terminate its instances (the exit handler
    /// respawns them), or start it when it does not run.
    pub fn begin_restart(&mut self, id: u128, default_timeout_secs: u64, now: u64) -> (r: RestartPlan)
        requires
            old(self).wf(),
        ensures
            final(self).wf(),
            final(self).others_unchanged(&*old(self), id),
            old(self).instances(id).len() > 0 ==> {
                &&& r is Terminate
                &&& r->Terminate_pids@ == spec_pids(old(self).instances(id))
                &&& r->Terminate_primary_pid == old(self).instances(id)[0].pid
                &&& r->Terminate_timeout_secs == spec_stop_timeout(
                    old(self).programs@,
                    id,
                    default_timeout_secs,
                )
                &&& final(self).instances(id) == spec_flag_restart(old(self).instances(id))
                &&& final(self).same_static(&*old(self))
            },
            old(self).instances(id).len() == 0 ==> {
                &&& r == RestartPlan::StartNow
                &&& final(self).instances(id) == old(self).instances(id)
                &&& final(self).held@ == old(self).held@.remove(id)
                &&& final(self).dirty
                &&& final(self).programs@ == spec_set_autostart(old(self).programs@, id, true, Some(now))
            },
    {
        let pids = self.pids_of(&id);
        if pids.len() > 0 {
            let timeout = self.stop_timeout(&id, default_timeout_secs);
            let ghost before = self.instances(id);
            self.flag_all(&id, true);
            proof {
                assert(self.instances(id) =~= spec_flag_restart(before));
            }
            let primary_pid = pids[0];
            return RestartPlan::Terminate { pids, primary_pid, timeout_secs: timeout };
        }
        match self.programs.remove(&id) {
            Some(mut c) => {
                c.autostart = true;
                c.updated_at = now;
                self.programs.insert(id, c);
            },
            None => {},
        }
        self.dirty = true;
        self.held.remove(&id);
        RestartPlan::StartNow
    }

    /// The operator starts a program: it is no longer held.
    pub fn release_hold(&mut self, id: u128)
        requires
            old(self).wf(),
        ensures
            final(self).wf(),
            final(self).held@ == old(self).held@.remove(id),
            final(self).running@ == old(self).running@,
            final(self).programs@ == old(self).programs@,
            final(self).restarting@ == old(self).restarting@,
            final(self).waiting@ == old(self).waiting@,
            final(self).crashed@ == old(self).crashed@,
            final(self).startup_errors@ == old(self).startup_errors@,
            final(self).events@ == old(self).events@,
            final(self).dirty == old(self).dirty,
    {
        self.held.remove(&id);
    }

    /// Displayed status of a program.
    pub fn status_of(&self, id: &u128) -> (r: ProcessStatus)
        requires
            self.wf(),
        ensures
            r == spec_status(*self, *id),
    {
        match self.get_running(id) {
            Some(st) => if st.stopping {
                ProcessStatus::Stopping
            } else if st.is_healthy {
                ProcessStatus::Healthy
            } else {
                ProcessStatus::Running
            },
            None => if self.restarting.contains(id) {
                ProcessStatus::Backoff
            } else if self.waiting.contains(id) {
                ProcessStatus::Waiting
            } else if self.crashed.contains(id) {
                ProcessStatus::Fatal
            } else {
                ProcessStatus::Stopped
            },
        }
    }

    /// Metrics status code of a program (see [`spec_status_code`]).
    pub fn status_code(&self, id: &u128) -> (r: u32)
        requires
            self.wf(),
        ensures
            r == spec_status_code(*self, *id),
    {
        match self.get_running(id) {
            Some(st) => if st.is_healthy {
                1
            } else {
                5
            },
            None => if self.crashed.contains(id) {
                2
            } else if self.restarting.contains(id) {
                3
            } else if self.waiting.contains(id) {
                4
            } else {
                0
            },
        }
    }

    /// Whether the stop-timeout watchdog for `target_pid` must force-kill:
    /// some instance of the program still has that pid.
    pub fn timeout_kill_due(&self, id: &u128, target_pid: u32) -> (r: bool)
        requires
            self.wf(),
        ensures
            r == spec_pids(self.instances(*id)).contains(target_pid),
    {
        let pids = self.pids_of(id);
        let mut i: usize = 0;
        while i < pids.len()
            invariant
                i <= pids@.len(),
                pids@ == spec_pids(self.instances(*id)),
                forall|j: int| 0 <= j < i ==> pids@[j] != target_pid,
            decreases pids.len() - i,
        {
            if pids[i] == target_pid {
                assert(pids@[i as int] == target_pid);
                assert(spec_pids(self.instances(*id))[i as int] == target_pid);
                assert(spec_pids(self.instances(*id)).contains(target_pid));
                return true;
            }
            i = i + 1;
        }
        false
    }
}

/// Whether any instance is stopping or restarting.
pub open spec fn spec_any_busy(s: Seq<RuntimeState>) -> bool {
    exists|i: int| 0 <= i < s.len() && ((#[trigger] s[i]).stopping || s[i].restart_requested)
}

/// Primary instance after a health report.
pub open spec fn spec_health_primary(
    st: RuntimeState,
    is_healthy: bool,
    detail: Option<String>,
) -> RuntimeState {
    let err = if is_healthy {
        None
    } else {
        match detail {
            Some(d) => Some(d),
            None => st.health_error,
        }
    };
    let recovered = is_healthy && !st.is_healthy && st.alert_pending_recovery;
    RuntimeState {
        health_error: err,
        is_healthy,
        alert_pending_recovery: if recovered { false } else { st.alert_pending_recovery },
        ..st
    }
}

/// Message recorded when a crashed upgrade was rolled back.
pub open spec fn spec_rollback_message() -> Seq<char> {
    "OTA upgrade failed. Automatically rolled back to previous version."@
}

impl ProcessRegistry {
    /// Apply a health report of program `id` at time `now`.
    pub fn apply_health_update(
        &mut self,
        id: u128,
        is_healthy: bool,
        failure_detail: Option<String>,
        now: u64,
    ) -> (r: HealthReport)
        requires
            old(self).wf(),
        ensures
            final(self).wf(),
            final(self).others_unchanged(&*old(self), id),
            (old(self).instances(id).len() == 0 || old(self).instances(id)[0].stopping) ==> {
                &&& r.ignored
                &&& final(self).instances(id) == old(self).instances(id)
                &&& final(self).same_static(&*old(self))
            },
            !(old(self).instances(id).len() == 0 || old(self).instances(id)[0].stopping) ==> {
                let st = old(self).instances(id)[0];
                let changed_detail = !is_healthy && failure_detail is Some && match st.health_error {
                    Some(e) => e@ != failure_detail->0@,
                    None => true,
                };
                &&& !r.ignored
                &&& final(self).instances(id) == old(self).instances(id).update(
                    0,
                    spec_health_primary(st, is_healthy, failure_detail),
                )
                &&& r.new_failure_detail == (if changed_detail {
                    failure_detail
                } else {
                    None
                })
                &&& r.status_change == (if st.is_healthy != is_healthy {
                    Some(if is_healthy { ProcessStatus::Healthy } else { ProcessStatus::Running })
                } else {
                    None
                })
                &&& r.recovered == (if is_healthy && !st.is_healthy && st.alert_pending_recovery {
                    Some((st.pid, if now >= st.start_time { (now - st.start_time) as u64 } else { 0 }))
                } else {
                    None
                })
                &&& r.check_waiting == is_healthy
                &&& final(self).health_restart_count@ == (if is_healthy {
                    old(self).health_restart_count@.remove(id)
                } else {
                    old(self).health_restart_count@
                })
                &&& r.committed_backup == (if is_healthy && old(self).programs@.contains_key(id) {
                    old(self).programs@[id].restore_path
                } else {
                    None
                })
                &&& final(self).programs@ == (if r.committed_backup is Some {
                    old(self).programs@.insert(
                        id,
                        ProgramConfig { restore_path: None, ..old(self).programs@[id] },
                    )
                } else {
                    old(self).programs@
                })
                &&& final(self).dirty == (old(self).dirty || r.committed_backup is Some)
                &&& final(self).restarting@ == old(self).restarting@
                &&& final(self).waiting@ == old(self).waiting@
                &&& final(self).crashed@ == old(self).crashed@
                &&& final(self).startup_errors@ == old(self).startup_errors@
                &&& final(self).events@ == old(self).events@
            },
    {
        let ignored_report = HealthReport {
            ignored: true,
            new_failure_detail: None,
            status_change: None,
            recovered: None,
            committed_backup: None,
            check_waiting: false,
        };
        let mut st = match self.get_running(&id) {
            Some(s) => s.clone(),
            None => {
                return ignored_report;
            },
        };
        if st.stopping {
            return ignored_report;
        }
        let ghost st0 = st;
        let mut new_failure_detail: Option<String> = None;
        if !is_healthy {
            match failure_detail {
                Some(detail) => {
                    let changed = match &st.health_error {
                        Some(e) => *e != detail,
                        None => true,
                    };
                    if changed {
                        new_failure_detail = Some(detail.clone());
                    }
                    st.health_error = Some(detail);
                },
                None => {},
            }
        } else {
            st.health_error = None;
        }
        let mut status_change: Option<ProcessStatus> = None;
        let mut recovered: Option<(u32, u64)> = None;
        if st.is_healthy != is_healthy {
            st.is_healthy = is_healthy;
            status_change = Some(
                if is_healthy {
                    ProcessStatus::Healthy
                } else {
                    ProcessStatus::Running
                },
            );
            if is_healthy && st.alert_pending_recovery {
                st.alert_pending_recovery = false;
                let up: u64 = if now >= st.start_time {
                    now - st.start_time
                } else {
                    0
                };
                recovered = Some((st.pid, up));
            }
        }
        proof {
            assert(st == spec_health_primary(st0, is_healthy, failure_detail));
        }
        self.update_primary(&id, st);
        let ghost mid = *self;
        let mut committed_backup: Option<String> = None;
        if is_healthy {
            self.health_restart_count.remove(&id);
            match self.programs.remove(&id) {
                Some(mut c) => {
                    committed_backup = c.restore_path.take();
                    self.programs.insert(id, c);
                    if committed_backup.is_some() {
                        self.dirty = true;
                    } else {
                        proof {
                            assert(self.programs@ =~= mid.programs@);
                        }
                    }
                },
                None => {
                    proof {
                        assert(self.programs@ =~= mid.programs@);
                    }
                },
            }
        }
        proof {
            assert(self.running@ == mid.running@);
            assert forall|k: u128| k != id implies #[trigger] self.instances(k) == old(self).instances(
                k,
            ) by {
                assert(mid.instances(k) == old(self).instances(k));
            }
        }
        HealthReport {
            ignored: false,
            new_failure_detail,
            status_change,
            recovered,
            committed_backup,
            check_waiting: is_healthy,
        }
    }

    /// Health checks failed `max_failures` times in a row: restart the
    /// program, or declare it Fatal once `retry_limit` health restarts did
    /// not help.
    pub fn apply_health_restart(
        &mut self,
        id: u128,
        failure_detail: &String,
        now: u64,
        default_timeout_secs: u64,
    ) -> (r: HealthRestartPlan)
        requires
            old(self).wf(),
        ensures
            final(self).wf(),
            final(self).others_unchanged(&*old(self), id),
            (old(self).instances(id).len() == 0 || !old(self).programs@.contains_key(id)
                || spec_any_busy(old(self).instances(id))) ==> {
                &&& r == HealthRestartPlan::Skip
                &&& final(self).instances(id) == old(self).instances(id)
                &&& final(self).same_static(&*old(self))
            },
            !(old(self).instances(id).len() == 0 || !old(self).programs@.contains_key(id)
                || spec_any_busy(old(self).instances(id))) ==> {
                let attempts: nat = if old(self).health_restart_count@.contains_key(id) {
                    old(self).health_restart_count@[id] as nat + 1
                } else {
                    1
                };
                if attempts > old(self).programs@[id].retry_limit {
                    &&& r is Fatal
                    &&& r->Fatal_attempts == attempts
                    &&& r->Fatal_message@ == spec_health_fatal_message(attempts, failure_detail@)
                    &&& final(self).instances(id) == old(self).instances(id)
                    &&& final(self).health_restart_count@ == old(self).health_restart_count@.remove(
                        id,
                    )
                    &&& final(self).crashed@ == old(self).crashed@.insert(id)
                    &&& final(self).startup_errors@ == old(self).startup_errors@.insert(
                        id,
                        r->Fatal_message,
                    )
                    &&& final(self).programs@ == spec_set_autostart(
                        old(self).programs@,
                        id,
                        false,
                        Some(now),
                    )
                    &&& final(self).dirty
                } else {
                    &&& r is Restart
                    &&& r->Restart_attempt == attempts
                    &&& r->Restart_pids@ == spec_pids(old(self).instances(id))
                    &&& r->Restart_primary_pid == old(self).instances(id)[0].pid
                    &&& r->Restart_timeout_secs == spec_stop_timeout(
                        old(self).programs@,
                        id,
                        default_timeout_secs,
                    )
                    &&& final(self).instances(id) == spec_flag_restart(old(self).instances(id))
                    &&& final(self).health_restart_count@ == old(self).health_restart_count@.insert(
                        id,
                        attempts as u32,
                    )
                    &&& final(self).programs@ == old(self).programs@
                    &&& final(self).crashed@ == old(self).crashed@
                    &&& final(self).startup_errors@ == old(self).startup_errors@
                    &&& final(self).dirty == old(self).dirty
                }
            },
    {
        let all = self.get_running_all(&id);
        if all.len() == 0 {
            return HealthRestartPlan::Skip;
        }
        let retry_limit = match self.programs.get(&id) {
            Some(c) => c.retry_limit,
            None => {
                return HealthRestartPlan::Skip;
            },
        };
        let mut i: usize = 0;
        #[verifier::loop_isolation(false)]
        while i < all.len()
            invariant
                i <= all@.len(),
                forall|j: int| 0 <= j < i ==> !(#[trigger] all@[j]).stopping && !all@[j].restart_requested,
            decreases all.len() - i,
        {
            if all[i].stopping || all[i].restart_requested {
                assert(spec_any_busy(all@));
                return HealthRestartPlan::Skip;
            }
            i = i + 1;
        }
        let previous: u64 = match self.health_restart_count.get(&id) {
            Some(c) => *c as u64,
            None => 0,
        };
        let attempts: u64 = previous + 1;
        if attempts > retry_limit as u64 {
            self.health_restart_count.remove(&id);
            self.crashed.insert(id);
            match self.programs.remove(&id) {
                Some(mut c) => {
                    c.autostart = false;
                    c.updated_at = now;
                    self.programs.insert(id, c);
                },
                None => {},
            }
            let n = fmt_u64(attempts);
            proof {
                reveal_strlit("Stopped after ");
                reveal_strlit(" health restarts. Last failure: ");
            }
            let mut msg = concat3("Stopped after ", n.as_str(), " health restarts. Last failure: ");
            msg.append(failure_detail.as_str());
            self.startup_errors.insert(id, msg.clone());
            self.dirty = true;
            return HealthRestartPlan::Fatal { attempts, message: msg };
        }
        let pids = self.pids_of(&id);
        let timeout = self.stop_timeout(&id, default_timeout_secs);
        self.health_restart_count.insert(id, attempts as u32);
        let ghost before = self.instances(id);
        self.flag_all(&id, true);
        proof {
            assert(self.instances(id) =~= spec_flag_restart(before));
        }
        let primary_pid = pids[0];
        HealthRestartPlan::Restart { attempt: attempts as u32, pids, primary_pid, timeout_secs: timeout }
    }

    /// Result of restoring the previous version after a crashed upgrade:
    /// on success the upgrade is forgotten and the returned message is
    /// recorded (the caller then starts the program); on failure the program
    /// is Fatal.
    pub fn finish_rollback(
        &mut self,
        id: u128,
        restored: bool,
        code: Option<i32>,
        signal: Option<i32>,
        now: u64,
    ) -> (r: Option<String>)
        requires
            old(self).wf(),
        ensures
            final(self).wf(),
            final(self).running@ == old(self).running@,
            restored ==> {
                let e = final(self).events@[id]@.last();
                &&& r is Some
                &&& r->0@ == spec_rollback_message()
                &&& final(self).programs@ == (if old(self).programs@.contains_key(id) {
                    old(self).programs@.insert(
                        id,
                        ProgramConfig { restore_path: None, ..old(self).programs@[id] },
                    )
                } else {
                    old(self).programs@
                })
                &&& final(self).dirty
                &&& final(self).crashed@ == old(self).crashed@
                &&& final(self).events@ == old(self).events@.insert(id, final(self).events@[id])
                &&& final(self).events@[id]@ == spec_cap_events(spec_history(old(self).events@, id).push(e))
                &&& final(self).events_dirty
                &&& e.event@ == "process_fatal"@
                &&& e.msg@ == spec_rollback_message()
                &&& e.ts == now
                &&& e.ts_ms == crate::exit::spec_event_ms(now)
                &&& e.program_id == Some(id)
                &&& (match e.program_name {
                    Some(n) => old(self).programs@.contains_key(id) && n@ == old(self).programs@[id].name@,
                    None => !old(self).programs@.contains_key(id),
                })
                &&& e.exit_code == code
                &&& e.signal == signal
                &&& e.retry_count is None
                &&& e.duration_secs is None
            },
            !restored ==> {
                &&& r is None
                &&& final(self).crashed@ == old(self).crashed@.insert(id)
                &&& final(self).programs@ == old(self).programs@
                &&& final(self).dirty == old(self).dirty
                &&& final(self).events@ == old(self).events@
            },
            final(self).restarting@ == old(self).restarting@,
            final(self).waiting@ == old(self).waiting@,
            final(self).startup_errors@ == old(self).startup_errors@,
    {
        if !restored {
            self.crashed.insert(id);
            return None;
        }
        let name = match self.programs.get(&id) {
            Some(c) => Some(c.name.clone()),
            None => None,
        };
        match self.programs.remove(&id) {
            Some(mut c) => {
                c.restore_path = None;
                self.programs.insert(id, c);
            },
            None => {},
        }
        self.dirty = true;
        proof {
            reveal_strlit("OTA upgrade failed. Automatically rolled back to previous version.");
            reveal_strlit("process_fatal");
        }
        let msg = String::from_str("OTA upgrade failed. Automatically rolled back to previous version.");
        let record = ProgramEventRecord {
            ts: now,
            ts_ms: crate::exit::event_ms(now),
            program_id: Some(id),
            program_name: name,
            event: "process_fatal".to_owned(),
            exit_code: code,
            signal,
            retry_count: None,
            duration_secs: None,
            msg: msg.clone(),
        };
        let ghost hist = spec_history(self.events@, id);
        self.push_event(id, record);
        proof {
            let pushed = hist.push(record);
            assert(spec_cap_events(pushed).last() == record);
        }
        Some(msg)
    }
}

} // verus!

verus! {

/// Number of starts that one start request may carry out: each program
/// twice, and once more (so that dependency chains end even when they
/// loop).
pub open spec fn spec_start_budget(programs: usize) -> nat {
    if programs <= (usize::MAX - 1) / 2 {
        (programs * 2 + 1) as nat
    } else {
        usize::MAX as nat
    }
}

/// The starts that one start request still has to carry out: the program
/// and the dependencies the start gate asks to start on its behalf, with
/// their retry counts, most recent last, within a budget of starts.
pub struct StartQueue {
    pending: Vec<(u128, u32)>,
    budget: usize,
}

impl StartQueue {
    /// Starts still to carry out.
    pub closed spec fn pending(&self) -> Seq<(u128, u32)> {
        self.pending@
    }

    /// Starts still allowed.
    pub closed spec fn budget(&self) -> nat {
        self.budget as nat
    }

    /// The start of `id` after `retries` retries, among `programs` programs.
    pub fn new(id: u128, retries: u32, programs: usize) -> (r: Self)
        ensures
            r.pending() == seq![(id, retries)],
            r.budget() == spec_start_budget(programs),
    {
        let budget = if programs <= (usize::MAX - 1) / 2 {
            programs * 2 + 1
        } else {
            usize::MAX
        };
        let mut pending = Vec::new();
        pending.push((id, retries));
        StartQueue { pending, budget }
    }

    /// The next start to carry out, the most recent first; none when the
    /// queue or the budget is exhausted.
    pub fn next(&mut self) -> (r: Option<(u128, u32)>)
        ensures
            (old(self).budget() == 0 || old(self).pending().len() == 0) ==> r is None && final(self).pending()
                == old(self).pending() && final(self).budget() == old(self).budget(),
            (old(self).budget() > 0 && old(self).pending().len() > 0) ==> {
                &&& r == Some(old(self).pending().last())
                &&& final(self).pending() == old(self).pending().drop_last()
                &&& final(self).budget() == old(self).budget() - 1
            },
    {
        if self.budget == 0 {
            return None;
        }
        match self.pending.pop() {
            Some(x) => {
                self.budget = self.budget - 1;
                Some(x)
            },
            None => None,
        }
    }

    /// Queue the dependencies the start gate asked to start, in order.
    pub fn push_deps(&mut self, deps: &Vec<u128>)
        ensures
            final(self).pending() == old(self).pending() + deps@.map_values(|d: u128| (d, 0u32)),
            final(self).budget() == old(self).budget(),
    {
        let ghost p0 = self.pending@;
        let mut i: usize = 0;
        while i < deps.len()
            invariant
                i <= deps@.len(),
                self.pending@ == p0 + deps@.take(i as int).map_values(|d: u128| (d, 0u32)),
                self.budget == old(self).budget,
            decreases deps.len() - i,
        {
            self.pending.push((deps[i], 0));
            assert(deps@.take(i + 1).map_values(|d: u128| (d, 0u32)) =~= deps@.take(i as int).map_values(
                |d: u128| (d, 0u32),
            ).push((deps@[i as int], 0u32)));
            i = i + 1;
        }
        assert(deps@.take(deps@.len() as int) =~= deps@);
    }
}

} // verus!
