//! What the supervisor does when a managed process exits: upgrade commit or
//! rollback, scheduled-task bookkeeping, intentional stop/restart, the
//! Supervisor `autorestart` policy, and crash backoff up to `retry_limit`.

use vstd::prelude::*;
use vstd::string::StringExecFns;

use crate::model::{spec_should_autorestart, AutoRestart, ProgramConfig, ProgramEventRecord};
use crate::registry::{spec_cap_events, spec_history, spec_pid_position, ProcessRegistry, RuntimeState};
use crate::text::{
    concat2, concat3, fmt_debug_opt_i64, fmt_i64, fmt_u64, spec_debug_opt, spec_dec, spec_dec_int,
};

verus! {

broadcast use vstd::std_specs::hash::group_hash_axioms;

/// Longest crash backoff, in seconds.
pub const MAX_BACKOFF_SECS: u64 = 60;

/// How an exit is handled.
#[derive(Debug, Clone, PartialEq, Eq)]
pub enum ExitOutcome {
    /// No running instance of the program: the exit was already handled.
    Ignored,
    /// The program was removed meanwhile; only the instance is dropped.
    ConfigGone,
    /// A pending upgrade crashed: restore `backup` over `target`, then call
    /// [`ProcessRegistry::finish_rollback`].
    Rollback { target: String, backup: String },
    /// A pending upgrade crashed but has no destination: the program is Fatal.
    RollbackUnavailable,
    /// An intentional restart: spawn the program again now.
    Respawn,
    /// An intentional stop: the program is Stopped.
    Stopped,
    /// A scheduled run ended (`last_instance`: no sibling still runs).
    CronDone { success: bool, last_instance: bool },
    /// The exit does not warrant a restart under `autorestart`/`exitcodes`.
    NoRestart,
    /// Retries are exhausted: the program is Fatal.
    Fatal { attempts: u64 },
    /// A crash with retries left: restart after `delay_secs`.
    Backoff { retries: u32, delay_secs: u64 },
}

/// Everything the caller needs to carry out an exit.
#[derive(Debug)]
pub struct ExitReport {
    pub outcome: ExitOutcome,
    /// Pid of the instance that was dropped (0 when ignored).
    pub exited_pid: u32,
    /// Seconds the instance ran.
    pub uptime_secs: u64,
    /// Backup file of a committed upgrade, to delete.
    pub committed_backup: Option<String>,
    /// Primary instance left running (the monitor follows it).
    pub next_primary_pid: Option<u32>,
    /// `post_stop` hook command to run, if configured.
    pub post_stop_hook: Option<String>,
    /// Message of the event recorded for the outcome (empty when none).
    pub message: String,
    /// The event appended to the program's history, if the outcome
    /// records one.
    pub event: Option<ProgramEventRecord>,
}

/// Kind of the event an outcome records, if it records one.
pub open spec fn spec_exit_event_kind(outcome: ExitOutcome) -> Option<Seq<char>> {
    match outcome {
        ExitOutcome::CronDone { .. } => Some("cron_exit"@),
        ExitOutcome::NoRestart => Some("process_exit"@),
        ExitOutcome::Fatal { .. } => Some("process_fatal"@),
        ExitOutcome::Backoff { .. } => Some("process_backoff"@),
        _ => None,
    }
}

/// Millisecond timestamp of an event at `now` seconds (saturated).
pub open spec fn spec_event_ms(now: u64) -> u64 {
    if now * 1000 <= u64::MAX {
        (now * 1000) as u64
    } else {
        u64::MAX
    }
}

/// `e` is the event that program `id` (named `name`) records at `now`
/// for an exit with `outcome` after `uptime` seconds.
pub open spec fn spec_exit_record(
    e: ProgramEventRecord,
    id: u128,
    name: String,
    outcome: ExitOutcome,
    code: Option<i32>,
    signal: Option<i32>,
    uptime: nat,
    now: u64,
) -> bool {
    &&& spec_exit_event_kind(outcome) == Some(e.event@)
    &&& e.ts == now
    &&& e.ts_ms == spec_event_ms(now)
    &&& e.program_id == Some(id)
    &&& e.program_name matches Some(n) && n@ == name@
    &&& e.exit_code == code
    &&& e.signal == signal
    &&& e.retry_count == (match outcome {
        ExitOutcome::Fatal { attempts } => Some(
            if attempts > u32::MAX {
                u32::MAX
            } else {
                attempts as u32
            },
        ),
        ExitOutcome::Backoff { retries, .. } => Some(retries),
        _ => None,
    })
    &&& e.duration_secs == (match outcome {
        ExitOutcome::CronDone { .. } => Some(if uptime >= 1 { uptime as u64 } else { 1u64 }),
        _ => None,
    })
    &&& e.msg@ == spec_exit_message(outcome, code, signal, uptime)
}

pub(crate) fn event_ms(now: u64) -> (r: u64)
    ensures
        r == spec_event_ms(now),
{
    match now.checked_mul(1000) {
        Some(v) => v,
        None => u64::MAX,
    }
}

fn exit_record(
    id: u128,
    name: &String,
    outcome: &ExitOutcome,
    code: Option<i32>,
    signal: Option<i32>,
    uptime: u64,
    now: u64,
    msg: &String,
) -> (r: Option<ProgramEventRecord>)
    requires
        msg@ == spec_exit_message(*outcome, code, signal, uptime as nat),
    ensures
        match r {
            Some(e) => spec_exit_record(e, id, *name, *outcome, code, signal, uptime as nat, now),
            None => spec_exit_event_kind(*outcome) is None,
        },
{
    let (kind, retry_count, duration_secs): (&str, Option<u32>, Option<u64>) = match outcome {
        ExitOutcome::CronDone { .. } => (
            "cron_exit",
            None,
            Some(
                if uptime >= 1 {
                    uptime
                } else {
                    1
                },
            ),
        ),
        ExitOutcome::NoRestart => ("process_exit", None, None),
        ExitOutcome::Fatal { attempts } => (
            "process_fatal",
            Some(
                if *attempts > u32::MAX as u64 {
                    u32::MAX
                } else {
                    *attempts as u32
                },
            ),
            None,
        ),
        ExitOutcome::Backoff { retries, .. } => ("process_backoff", Some(*retries), None),
        _ => {
            return None;
        },
    };
    proof {
        reveal_strlit("cron_exit");
        reveal_strlit("process_exit");
        reveal_strlit("process_fatal");
        reveal_strlit("process_backoff");
    }
    Some(
        ProgramEventRecord {
            ts: now,
            ts_ms: event_ms(now),
            program_id: Some(id),
            program_name: Some(name.clone()),
            event: kind.to_owned(),
            exit_code: code,
            signal,
            retry_count,
            duration_secs,
            msg: msg.clone(),
        },
    )
}

/// Backoff before restart attempt `retries` (1s, 2s, 4s, ... at most 60s).
pub open spec fn spec_backoff_delay(retries: nat) -> nat {
    if retries <= 1 {
        1
    } else if retries - 1 >= 6 {
        MAX_BACKOFF_SECS as nat
    } else {
        vstd::arithmetic::power2::pow2((retries - 1) as nat)
    }
}

/// Retry count after an exit: a run of at least `startsecs` resets it.
pub open spec fn spec_next_retry(uptime: nat, startsecs: nat, retry_count: nat) -> nat {
    if uptime >= startsecs {
        0
    } else {
        retry_count + 1
    }
}

/// A non-empty upgrade destination of the configuration.
pub open spec fn spec_destination(cfg: ProgramConfig) -> Option<String> {
    match cfg.artifact {
        Some(a) => if a.destination@.len() > 0 { Some(a.destination) } else { None },
        None => None,
    }
}

/// Whether the exit commits a pending upgrade (a clean exit of the new version).
pub open spec fn spec_commits(cfg: ProgramConfig, st: RuntimeState, code: Option<i32>) -> bool {
    cfg.restore_path is Some && !st.stopping && !st.restart_requested && code == Some(0i32)
}

/// How an exit of instance `st` of a program configured as `cfg` is handled;
/// `siblings` instances are still running after it.
pub open spec fn spec_exit_outcome(
    cfg: ProgramConfig,
    st: RuntimeState,
    code: Option<i32>,
    uptime: nat,
    siblings: nat,
) -> ExitOutcome {
    if cfg.restore_path is Some && !st.stopping && !st.restart_requested && code != Some(0i32) {
        match spec_destination(cfg) {
            Some(t) => ExitOutcome::Rollback { target: t, backup: cfg.restore_path->0 },
            None => ExitOutcome::RollbackUnavailable,
        }
    } else if cfg.cron is Some {
        if st.restart_requested {
            ExitOutcome::Respawn
        } else if st.stopping {
            ExitOutcome::Stopped
        } else {
            ExitOutcome::CronDone { success: code == Some(0i32), last_instance: siblings == 0 }
        }
    } else if st.restart_requested {
        ExitOutcome::Respawn
    } else if st.stopping {
        ExitOutcome::Stopped
    } else if !spec_should_autorestart(cfg.autorestart, cfg.exitcodes@, code) {
        ExitOutcome::NoRestart
    } else {
        let r = spec_next_retry(uptime, cfg.startsecs as nat, st.retry_count as nat);
        if r > cfg.retry_limit {
            ExitOutcome::Fatal { attempts: r as u64 }
        } else {
            ExitOutcome::Backoff { retries: r as u32, delay_secs: spec_backoff_delay(r) as u64 }
        }
    }
}

/// Backoff doubles from one second per consecutive failed start, up to
/// `MAX_BACKOFF_SECS`.
pub proof fn law_backoff_doubles(retries: nat)
    ensures
        spec_backoff_delay(0) == 1,
        spec_backoff_delay(1) == 1,
        1 <= spec_backoff_delay(retries) <= MAX_BACKOFF_SECS,
        (retries >= 1 ==> spec_backoff_delay(retries + 1) == spec_capped_double(spec_backoff_delay(retries))),
{
    vstd::arithmetic::power2::lemma2_to64();
    if retries >= 2 && retries <= 7 {
        assert(vstd::arithmetic::power2::pow2((retries - 1) as nat) <= 64);
    }
}

/// Twice `d`, at most `MAX_BACKOFF_SECS`.
pub open spec fn spec_capped_double(d: nat) -> nat {
    if 2 * d > MAX_BACKOFF_SECS {
        MAX_BACKOFF_SECS as nat
    } else {
        2 * d
    }
}

/// An unplanned exit of a long-running program (no upgrade pending, not a
/// scheduled task, neither stopping nor restarting on request) follows
/// `autorestart`: with `always` the program is always restarted or, once
/// retries are spent, Fatal, and after a run of at least `startsecs` it is
/// restarted at once as a first retry; with `never` it stays down. A
/// restart waits the backoff of its retry count, which is within
/// `retry_limit`; Fatal comes only after a run shorter than `startsecs`
/// that went past `retry_limit`.
pub proof fn law_unplanned_exit(cfg: ProgramConfig, st: RuntimeState, code: Option<i32>, uptime: nat, siblings: nat)
    requires
        cfg.restore_path is None,
        cfg.cron is None,
        !st.stopping,
        !st.restart_requested,
    ensures
        ({
            let o = spec_exit_outcome(cfg, st, code, uptime, siblings);
            &&& (cfg.autorestart == AutoRestart::Always ==> (o is Backoff || o is Fatal))
            &&& (cfg.autorestart == AutoRestart::Always && uptime >= cfg.startsecs ==> o
                == ExitOutcome::Backoff { retries: 0, delay_secs: 1 })
            &&& (cfg.autorestart == AutoRestart::Never ==> o == ExitOutcome::NoRestart)
            &&& (o matches ExitOutcome::Backoff { retries, delay_secs } ==> retries <= cfg.retry_limit
                && retries == (if uptime >= cfg.startsecs { 0 } else { st.retry_count + 1 })
                && delay_secs == spec_backoff_delay(retries as nat))
            &&& (o matches ExitOutcome::Fatal { attempts } ==> uptime < cfg.startsecs && attempts
                == st.retry_count + 1 && attempts > cfg.retry_limit)
        }),
{
    crate::model::law_autorestart_policy(cfg.exitcodes@, code);
    law_backoff_doubles(0);
    law_backoff_doubles(spec_next_retry(uptime, cfg.startsecs as nat, st.retry_count as nat));
}

/// Configuration after the exit: a committed upgrade forgets its backup, and
/// a Fatal program is no longer started automatically.
pub open spec fn spec_config_after_exit(
    cfg: ProgramConfig,
    st: RuntimeState,
    code: Option<i32>,
    outcome: ExitOutcome,
    now: u64,
) -> ProgramConfig {
    let c1 = if spec_commits(cfg, st, code) {
        ProgramConfig { restore_path: None, ..cfg }
    } else {
        cfg
    };
    match outcome {
        ExitOutcome::Fatal { .. } => ProgramConfig { autostart: false, updated_at: now, ..c1 },
        _ => c1,
    }
}

/// Message of the event recorded for an outcome.
pub open spec fn spec_exit_message(
    outcome: ExitOutcome,
    code: Option<i32>,
    signal: Option<i32>,
    uptime: nat,
) -> Seq<char> {
    let dcode = spec_debug_opt(
        match code {
            Some(c) => Some(c as int),
            None => None,
        },
    );
    match outcome {
        ExitOutcome::CronDone { success, .. } => if success {
            "Cron job finished successfully (ran "@ + spec_dec(uptime) + "s)"@
        } else {
            "Cron job failed with code "@ + dcode + " after "@ + spec_dec(uptime) + "s"@
        },
        ExitOutcome::NoRestart => match signal {
            Some(sig) => "Process killed by signal "@ + spec_dec_int(sig as int) + " (exit code "@
                + dcode + ")"@,
            None => "Process exited with code "@ + dcode,
        },
        ExitOutcome::Fatal { attempts } => "Stopped after "@ + spec_dec(attempts as nat)
            + " retries. Last exit code: "@ + dcode,
        ExitOutcome::Backoff { delay_secs, .. } => "Crash detected, retrying in "@ + spec_dec(
            delay_secs as nat,
        ) + "s"@,
        _ => Seq::empty(),
    }
}

fn backoff_delay(retries: u64) -> (d: u64)
    ensures
        d == spec_backoff_delay(retries as nat),
        1 <= d <= MAX_BACKOFF_SECS,
{
    if retries <= 1 {
        proof {
            vstd::arithmetic::power2::lemma2_to64();
        }
        1
    } else if retries - 1 >= 6 {
        MAX_BACKOFF_SECS
    } else {
        proof {
            vstd::arithmetic::power2::lemma2_to64();
        }
        let e = retries - 1;
        if e == 1 {
            2
        } else if e == 2 {
            4
        } else if e == 3 {
            8
        } else if e == 4 {
            16
        } else {
            32
        }
    }
}

fn exit_message(outcome: &ExitOutcome, code: Option<i32>, signal: Option<i32>, uptime: u64) -> (r:
    String)
    ensures
        r@ == spec_exit_message(*outcome, code, signal, uptime as nat),
{
    let dcode = fmt_debug_opt_i64(
        match code {
            Some(c) => Some(c as i64),
            None => None,
        },
    );
    proof {
        reveal_strlit("Cron job finished successfully (ran ");
        reveal_strlit("s)");
        reveal_strlit("Cron job failed with code ");
        reveal_strlit(" after ");
        reveal_strlit("s");
        reveal_strlit("Process killed by signal ");
        reveal_strlit(" (exit code ");
        reveal_strlit(")");
        reveal_strlit("Process exited with code ");
        reveal_strlit("Stopped after ");
        reveal_strlit(" retries. Last exit code: ");
        reveal_strlit("Crash detected, retrying in ");
    }
    match outcome {
        ExitOutcome::CronDone { success, .. } => {
            if *success {
                let u = fmt_u64(uptime);
                concat3("Cron job finished successfully (ran ", u.as_str(), "s)")
            } else {
                let mut s = concat3("Cron job failed with code ", dcode.as_str(), " after ");
                let u = fmt_u64(uptime);
                s.append(u.as_str());
                s.append("s");
                s
            }
        },
        ExitOutcome::NoRestart => match signal {
            Some(sig) => {
                let d = fmt_i64(sig as i64);
                let mut s = concat3("Process killed by signal ", d.as_str(), " (exit code ");
                s.append(dcode.as_str());
                s.append(")");
                s
            },
            None => concat2("Process exited with code ", dcode.as_str()),
        },
        ExitOutcome::Fatal { attempts } => {
            let r = fmt_u64(*attempts);
            let mut s = concat3("Stopped after ", r.as_str(), " retries. Last exit code: ");
            s.append(dcode.as_str());
            s
        },
        ExitOutcome::Backoff { delay_secs, .. } => {
            let d = fmt_u64(*delay_secs);
            concat3("Crash detected, retrying in ", d.as_str(), "s")
        },
        _ => String::new(),
    }
}

/// Decide how an exit is handled (see [`spec_exit_outcome`]).
pub fn exit_outcome(
    cfg: &ProgramConfig,
    st: &RuntimeState,
    code: Option<i32>,
    uptime: u64,
    siblings: usize,
) -> (r: ExitOutcome)
    ensures
        r == spec_exit_outcome(*cfg, *st, code, uptime as nat, siblings as nat),
{
    let clean = match code {
        Some(c) => c == 0,
        None => false,
    };
    if cfg.restore_path.is_some() && !st.stopping && !st.restart_requested && !clean {
        let dest = match &cfg.artifact {
            Some(a) => if !a.destination.as_str().is_empty() {
                Some(a.destination.clone())
            } else {
                None
            },
            None => None,
        };
        match dest {
            Some(t) => {
                let backup = match &cfg.restore_path {
                    Some(b) => b.clone(),
                    None => String::new(),
                };
                ExitOutcome::Rollback { target: t, backup }
            },
            None => ExitOutcome::RollbackUnavailable,
        }
    } else if cfg.cron.is_some() {
        if st.restart_requested {
            ExitOutcome::Respawn
        } else if st.stopping {
            ExitOutcome::Stopped
        } else {
            ExitOutcome::CronDone { success: clean, last_instance: siblings == 0 }
        }
    } else if st.restart_requested {
        ExitOutcome::Respawn
    } else if st.stopping {
        ExitOutcome::Stopped
    } else if !cfg.should_autorestart(code) {
        ExitOutcome::NoRestart
    } else {
        let r: u64 = if uptime >= cfg.startsecs as u64 {
            0
        } else {
            st.retry_count as u64 + 1
        };
        if r > cfg.retry_limit as u64 {
            ExitOutcome::Fatal { attempts: r }
        } else {
            let d = backoff_delay(r);
            ExitOutcome::Backoff { retries: r as u32, delay_secs: d }
        }
    }
}

impl ProcessRegistry {
    /// Handle the exit of instance `pid` of program `id` at time `now`
    /// (Unix seconds). Drops the instance and updates the program's state;
    /// the report says what the caller still has to carry out.
    pub fn handle_exited(
        &mut self,
        id: u128,
        pid: u32,
        code: Option<i32>,
        signal: Option<i32>,
        now: u64,
    ) -> (r: ExitReport)
        requires
            old(self).wf(),
        ensures
            final(self).wf(),
            final(self).others_unchanged(&*old(self), id),
            old(self).instances(id).len() == 0 ==> {
                &&& r.outcome == ExitOutcome::Ignored
                &&& r.event is None
                &&& final(self).instances(id) == old(self).instances(id)
                &&& final(self).same_static(&*old(self))
            },
            old(self).instances(id).len() > 0 ==> {
                let pos = spec_pid_position(old(self).instances(id), pid);
                let st = old(self).instances(id)[pos];
                let uptime = if now >= st.start_time { (now - st.start_time) as nat } else { 0 };
                let rest = old(self).instances(id).remove(pos);
                &&& final(self).instances(id) == rest
                &&& r.exited_pid == st.pid
                &&& r.uptime_secs == uptime
                &&& r.next_primary_pid == (if rest.len() > 0 { Some(rest[0].pid) } else { None })
                &&& !old(self).programs@.contains_key(id) ==> {
                    &&& r.outcome == ExitOutcome::ConfigGone
                    &&& r.event is None
                    &&& final(self).same_static(&*old(self))
                }
                &&& old(self).programs@.contains_key(id) ==> {
                    let cfg = old(self).programs@[id];
                    let outcome = spec_exit_outcome(cfg, st, code, uptime, rest.len());
                    &&& r.outcome == outcome
                    &&& r.post_stop_hook == cfg.hooks.post_stop
                    &&& r.committed_backup == (if spec_commits(cfg, st, code) {
                        cfg.restore_path
                    } else {
                        None
                    })
                    &&& r.message@ == spec_exit_message(outcome, code, signal, uptime)
                    &&& final(self).programs@ == old(self).programs@.insert(
                        id,
                        spec_config_after_exit(cfg, st, code, outcome, now),
                    )
                    &&& final(self).dirty == (old(self).dirty || spec_commits(cfg, st, code)
                        || outcome is Fatal || r.event is Some)
                    &&& final(self).crashed@ == (if outcome is Fatal || outcome
                        is RollbackUnavailable {
                        old(self).crashed@.insert(id)
                    } else {
                        old(self).crashed@
                    })
                    &&& final(self).restarting@ == (if outcome is Backoff {
                        old(self).restarting@.insert(id)
                    } else {
                        old(self).restarting@
                    })
                    &&& final(self).startup_errors@ == (if outcome is Fatal {
                        old(self).startup_errors@.insert(id, r.message)
                    } else {
                        old(self).startup_errors@
                    })
                    &&& final(self).waiting@ == old(self).waiting@
                    &&& final(self).health_restart_count@ == old(self).health_restart_count@
                    &&& final(self).held@ == old(self).held@
                    &&& match r.event {
                        Some(e) => {
                            &&& spec_exit_record(e, id, cfg.name, outcome, code, signal, uptime, now)
                            &&& final(self).events@ == old(self).events@.insert(id, final(self).events@[id])
                            &&& final(self).events@[id]@ == spec_cap_events(
                                spec_history(old(self).events@, id).push(e),
                            )
                            &&& final(self).events_dirty
                        },
                        None => {
                            &&& spec_exit_event_kind(outcome) is None
                            &&& final(self).events@ == old(self).events@
                            &&& final(self).events_dirty == old(self).events_dirty
                        },
                    }
                }
            },
    {
        let removed = self.remove_running_by_pid(&id, pid);
        let st = match removed {
            Some(s) => s,
            None => {
                return ExitReport {
                    outcome: ExitOutcome::Ignored,
                    exited_pid: 0,
                    uptime_secs: 0,
                    committed_backup: None,
                    next_primary_pid: None,
                    post_stop_hook: None,
                    message: String::new(),
                    event: None,
                };
            },
        };
        let ghost mid = *self;
        let uptime: u64 = if now >= st.start_time {
            now - st.start_time
        } else {
            0
        };
        let siblings = self.running_count(&id);
        let next_primary_pid = match self.get_running(&id) {
            Some(s) => Some(s.pid),
            None => None,
        };
        let ghost pre_programs = self.programs@;
        let cfg = match self.programs.remove(&id) {
            Some(c) => c,
            None => {
                assert(self.programs@ =~= pre_programs);
                assert(self.running@ == mid.running@);
                assert(self.others_unchanged(&mid, id));
                return ExitReport {
                    outcome: ExitOutcome::ConfigGone,
                    exited_pid: st.pid,
                    uptime_secs: uptime,
                    committed_backup: None,
                    next_primary_pid,
                    post_stop_hook: None,
                    message: String::new(),
                    event: None,
                };
            },
        };
        let ghost cfg0 = cfg;
        let outcome = exit_outcome(&cfg, &st, code, uptime, siblings);
        let message = exit_message(&outcome, code, signal, uptime);
        let event = exit_record(id, &cfg.name, &outcome, code, signal, uptime, now, &message);
        let post_stop_hook = cfg.hooks.post_stop.clone();
        let commits = cfg.restore_path.is_some() && !st.stopping && !st.restart_requested && match
        code {
            Some(c) => c == 0,
            None => false,
        };
        let mut cfg = cfg;
        let mut committed_backup: Option<String> = None;
        if commits {
            committed_backup = cfg.restore_path.take();
            self.dirty = true;
        }
        match &outcome {
            ExitOutcome::Fatal { .. } => {
                cfg.autostart = false;
                cfg.updated_at = now;
                self.crashed.insert(id);
                self.startup_errors.insert(id, message.clone());
                self.dirty = true;
            },
            ExitOutcome::RollbackUnavailable => {
                self.crashed.insert(id);
            },
            ExitOutcome::Backoff { .. } => {
                self.restarting.insert(id);
            },
            _ => {},
        }
        proof {
            assert(cfg == spec_config_after_exit(cfg0, st, code, outcome, now));
        }
        self.programs.insert(id, cfg);
        match &event {
            Some(e) => self.push_event(id, e.clone()),
            None => {},
        }
        assert(self.running@ == mid.running@);
        assert(self.others_unchanged(&mid, id));
        ExitReport {
            outcome,
            exited_pid: st.pid,
            uptime_secs: uptime,
            committed_backup,
            next_primary_pid,
            post_stop_hook,
            message,
            event,
        }
    }
}

} // verus!
