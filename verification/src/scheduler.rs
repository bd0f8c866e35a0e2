//! Cron scheduler: one task per scheduled program, with a randomly jittered
//! trigger deadline and the count of schedule slots missed since the
//! previous trigger (the catch-up policy of the manager acts on it).
//!
//! Times are Unix milliseconds.

use std::collections::HashMap;
use rand::Rng;
use std::str::FromStr;
use vstd::prelude::*;
use vstd::std_specs::iter::IteratorSpec;

verus! {

broadcast use vstd::std_specs::hash::group_hash_axioms;

#[verifier::external_type_specification]
#[verifier::external_body]
pub struct ExCronSchedule(cron::Schedule);

/// Whether `cron::Schedule::from_str` accepts the expression.
pub uninterp spec fn spec_cron_parses(expr: Seq<char>) -> bool;

/// First schedule slot strictly after `after_ms` (`None` when the schedule
/// is exhausted or the instant is outside chrono's range).
pub uninterp spec fn spec_cron_next(expr: Seq<char>, after_ms: int) -> Option<int>;

/// Bound on the magnitude of any instant chrono can represent, in ms.
pub const TIME_BOUND_MS: i64 = 9_000_000_000_000_000;

/// Latest instant chrono can represent (`DateTime::<Utc>::MAX_UTC`, the
/// end of 262142-12-31), in Unix milliseconds.
pub const CHRONO_MAX_MS: i64 = 8_210_266_876_799_999;

/// Latest instant after which the cron crate can look for a slot: it first
/// adds one second to the instant, which chrono refuses (with a panic)
/// past [`CHRONO_MAX_MS`].
pub const CRON_AFTER_MAX_MS: i64 = 8_210_266_876_798_999;

/// Latest slot the cron crate produces: it only knows the years up to
/// 2100, so its last slot is 2100-12-31T23:59:59Z, in Unix milliseconds.
pub const CRON_MAX_SLOT_MS: i64 = 4_133_980_799_000;

/// Largest accepted jitter, in seconds: the largest that keeps every slot
/// plus its jitter within chrono's range ([`CHRONO_MAX_MS`]), which the
/// deadline of a task must not leave.
pub const MAX_JITTER_SECS: u64 = 8_206_132_896_000;

/// A parsed cron expression together with its source text. Its fields are
/// private: a value exists only as parsed from `expr` by [`parse_schedule`].
pub struct ParsedSchedule {
    expr: String,
    inner: cron::Schedule,
}

impl ParsedSchedule {
    /// Source text of the schedule.
    pub closed spec fn source(&self) -> Seq<char> {
        self.expr@
    }
}

/// Parses a cron expression with `cron::Schedule::from_str`; the contract
/// claims that success is a function of the text alone.
#[verifier::external_body]
fn cron_from_str(expr: &str) -> (r: Option<cron::Schedule>)
    ensures
        r is Some == spec_cron_parses(expr@),
{
    cron::Schedule::from_str(expr).ok()
}

/// Parse a cron expression.
pub fn parse_schedule(expr: &str) -> (r: Option<ParsedSchedule>)
    ensures
        r is Some == spec_cron_parses(expr@),
        r matches Some(s) ==> s.source() == expr@,
{
    match cron_from_str(expr) {
        Some(inner) => Some(ParsedSchedule { expr: expr.to_string(), inner }),
        None => None,
    }
}

/// `schedule.after(after).next()` of the cron crate, in Utc and Unix
/// milliseconds. The contract claims that the result is a function of the
/// schedule's source text and the instant, that it lies strictly after the
/// instant, and that it is within chrono's range of instants (the cron
/// crate only produces years up to 2100). The instant must leave room for
/// the one second that the crate adds to it.
#[verifier::external_body]
fn cron_next_after(s: &ParsedSchedule, after_ms: i64) -> (r: Option<i64>)
    requires
        after_ms <= CRON_AFTER_MAX_MS,
    ensures
        r matches Some(t) ==> Some(t as int) == spec_cron_next(s.source(), after_ms as int),
        r is None ==> spec_cron_next(s.source(), after_ms as int) is None,
        r matches Some(t) ==> t > after_ms && -TIME_BOUND_MS < t <= CRON_MAX_SLOT_MS,
{
    let after = chrono::DateTime::<chrono::Utc>::from_timestamp_millis(after_ms)?;
    s.inner.after(&after).next().map(|d| d.timestamp_millis())
}

/// Current time from `chrono::Utc::now`, in Unix milliseconds. Only that
/// it is an instant chrono represents is claimed.
#[verifier::external_body]
pub fn now_millis() -> (r: i64)
    ensures
        r <= CHRONO_MAX_MS,
{
    chrono::Utc::now().timestamp_millis()
}

/// A uniformly random number of seconds in `0..=jitter_sec`
/// (`rand::thread_rng().gen_range`); only the range is claimed.
#[verifier::external_body]
fn random_jitter(jitter_sec: u64) -> (r: u64)
    ensures
        r <= jitter_sec,
{
    rand::thread_rng().gen_range(0..=jitter_sec)
}

/// One step of the walk over the slots that the deadline of a trigger
/// absorbs (see [`spec_skip_absorbed`]): `next` is the slot after `cursor`.
/// Returns the new cursor and whether the walk is over: it goes on to a
/// slot up to the deadline, ends on the first slot after it, and stays
/// where it is when the schedule is exhausted.
pub fn absorb_step(cursor: i64, next: Option<i64>, deadline: i64) -> (r: (i64, bool))
    ensures
        r == (match next {
            Some(c) => (c, c > deadline),
            None => (cursor, true),
        }),
{
    match next {
        Some(c) => (c, c > deadline),
        None => (cursor, true),
    }
}

/// One step of the count of expired slots (see [`spec_count_expired`]):
/// `next` is the slot after the one just counted. Returns the next slot to
/// count, or `None` when no further slot expired by `now`.
pub fn count_step(next: Option<i64>, now: i64) -> (r: Option<i64>)
    ensures
        r == (match next {
            Some(n) => if n <= now {
                Some(n)
            } else {
                None::<i64>
            },
            None => None,
        }),
{
    match next {
        Some(n) => if n <= now {
            Some(n)
        } else {
            None
        },
        None => None,
    }
}

/// One due cron slot produced by [`CronScheduler::tick`].
#[derive(Clone, Copy, Debug, PartialEq, Eq, Structural)]
pub struct CronTrigger {
    pub id: u128,
    /// Schedule slots that became due since the previous trigger (`1`: on
    /// time; more: slots were missed).
    pub missed_slots: u32,
}

/// One scheduled program.
pub struct CronTask {
    schedule: ParsedSchedule,
    /// Next raw schedule slot (anchor of the missed-slot count).
    next_slot: i64,
    /// Trigger deadline: `next_slot` plus a random jitter.
    next_trigger: i64,
    jitter_sec: u64,
}

/// Abstract state of a task.
pub struct TaskView {
    pub expr: Seq<char>,
    pub next_slot: int,
    pub next_trigger: int,
    pub jitter_sec: u64,
}

impl CronTask {
    pub closed spec fn view(&self) -> TaskView {
        TaskView {
            expr: self.schedule.source(),
            next_slot: self.next_slot as int,
            next_trigger: self.next_trigger as int,
            jitter_sec: self.jitter_sec,
        }
    }

    /// Slots and deadline are within range and ordered.
    pub closed spec fn wf(&self) -> bool {
        &&& -TIME_BOUND_MS < self.next_slot < TIME_BOUND_MS
        &&& self.jitter_sec <= MAX_JITTER_SECS
        &&& self.next_slot <= self.next_trigger <= self.next_slot + self.jitter_sec * 1000
    }
}

/// The trigger deadline lies in the jitter window of the slot.
pub open spec fn spec_in_window(v: TaskView) -> bool {
    v.next_slot <= v.next_trigger <= v.next_slot + v.jitter_sec * 1000
}

/// First slot after the jitter window of a trigger: slots up to the
/// deadline are absorbed by the jitter, not missed. When the schedule is
/// exhausted the last slot reached is kept.
pub open spec fn spec_skip_absorbed(expr: Seq<char>, cursor: int, deadline: int) -> int
    decreases deadline - cursor,
{
    match spec_cron_next(expr, cursor) {
        Some(c) => if cursor < c <= deadline {
            spec_skip_absorbed(expr, c, deadline)
        } else if c > deadline {
            c
        } else {
            cursor
        },
        None => cursor,
    }
}

/// Number of slots from `probe` on that expired by `now`.
pub open spec fn spec_count_expired(expr: Seq<char>, probe: int, now: int) -> nat
    decreases now - probe,
{
    if probe <= now {
        1 + match spec_cron_next(expr, probe) {
            Some(n) => if probe < n <= now {
                spec_count_expired(expr, n, now)
            } else {
                0
            },
            None => 0,
        }
    } else {
        0
    }
}

/// Slots a due task reports: one for the trigger, plus every slot that
/// expired after the jitter window.
pub open spec fn spec_missed(v: TaskView, now: int) -> nat {
    1 + spec_count_expired(v.expr, spec_skip_absorbed(v.expr, v.next_slot, v.next_trigger), now)
}

proof fn lemma_count_bound(expr: Seq<char>, p: int, now: int)
    ensures
        spec_count_expired(expr, p, now) <= (if p <= now { now - p + 1 } else { 0 }),
    decreases now - p,
{
    if p <= now {
        match spec_cron_next(expr, p) {
            Some(n) => if p < n <= now {
                lemma_count_bound(expr, n, now);
            },
            None => {},
        }
    }
}

/// State of the task of `k` after a tick at `now`: a task not yet due is
/// unchanged; a due one moves to the first slot after `now`, or is dropped
/// when its schedule is exhausted.
pub open spec fn spec_after_tick(before: TaskView, after: Map<u128, TaskView>, k: u128, now: int) -> bool {
    if now < before.next_trigger {
        after.contains_key(k) && after[k] == before
    } else {
        match spec_cron_next(before.expr, now) {
            Some(n) => {
                &&& after.contains_key(k)
                &&& after[k].expr == before.expr
                &&& after[k].next_slot == n
                &&& after[k].jitter_sec == before.jitter_sec
            },
            None => !after.contains_key(k),
        }
    }
}

/// `after` is `before` after registering `id` with expression `expr` and
/// jitter `jitter_sec`, anchored at `anchor_ms`, with result `r`: success
/// exactly when the expression parses and has a slot after the anchor;
/// on success the task's next slot is that slot; on failure nothing changes.
pub open spec fn spec_upserted(
    before: Map<u128, TaskView>,
    after: Map<u128, TaskView>,
    id: u128,
    expr: Seq<char>,
    jitter_sec: u64,
    anchor_ms: i64,
    r: bool,
) -> bool {
    &&& r == (anchor_ms <= CRON_AFTER_MAX_MS && spec_cron_parses(expr) && spec_cron_next(
        expr,
        anchor_ms as int,
    ) is Some)
    &&& !r ==> after == before
    &&& r ==> {
        &&& after == before.insert(id, after[id])
        &&& after[id].expr == expr
        &&& after[id].next_slot == spec_cron_next(expr, anchor_ms as int)->0
        &&& after[id].jitter_sec == jitter_sec
    }
}

/// The anchor of a registration: the last run when there is one.
pub open spec fn spec_anchor_of(last_run: Option<i64>, anchor_ms: i64) -> bool {
    match last_run {
        Some(t) => anchor_ms == t,
        None => true,
    }
}

/// A tick at the clock reading `now`: as [`spec_ticked`], except in the
/// last second of chrono's range, where no slot can be looked up and
/// nothing happens.
pub open spec fn spec_clock_tick(
    before: Map<u128, TaskView>,
    after: Map<u128, TaskView>,
    r: Seq<CronTrigger>,
    now: i64,
) -> bool {
    &&& now <= CHRONO_MAX_MS
    &&& if now <= CRON_AFTER_MAX_MS {
        spec_ticked(before, after, r, now)
    } else {
        r.len() == 0 && after == before
    }
}

/// `r` are the triggers of a tick at `now` that took the tasks from
/// `before` to `after`: the due tasks (deadline reached), each once and
/// with its reported slot count; each task rescheduled or dropped as
/// [`spec_after_tick`] says; no task added.
pub open spec fn spec_ticked(
    before: Map<u128, TaskView>,
    after: Map<u128, TaskView>,
    r: Seq<CronTrigger>,
    now: i64,
) -> bool {
    &&& forall|i: int|
        0 <= i < r.len() ==> {
            let t = #[trigger] r[i];
            &&& before.contains_key(t.id)
            &&& now >= before[t.id].next_trigger
            &&& t.missed_slots == CronScheduler::spec_reported(before[t.id], now as int)
        }
    &&& forall|k: u128|
        #[trigger] before.contains_key(k) && now >= before[k].next_trigger ==> exists|i: int|
            0 <= i < r.len() && r[i].id == k
    &&& forall|i: int, j: int| 0 <= i < j < r.len() ==> r[i].id != r[j].id
    &&& forall|k: u128| #[trigger] before.contains_key(k) ==> spec_after_tick(before[k], after, k, now as int)
    &&& forall|k: u128| #[trigger] after.contains_key(k) ==> before.contains_key(k)
}

/// Cron scheduler: the scheduled tasks by program.
pub struct CronScheduler {
    tasks: HashMap<u128, CronTask>,
}

impl CronScheduler {
    /// Abstract state: the tasks by program.
    pub closed spec fn view(&self) -> Map<u128, TaskView> {
        Map::new(|k: u128| self.tasks@.contains_key(k), |k: u128| self.tasks@[k].view())
    }

    /// Every task is well formed.
    pub closed spec fn wf(&self) -> bool {
        forall|k: u128| #[trigger] self.tasks@.contains_key(k) ==> self.tasks@[k].wf()
    }

    /// Every task's deadline lies in its jitter window.
    pub proof fn lemma_windows(&self)
        requires
            self.wf(),
        ensures
            forall|k: u128| #[trigger] self@.contains_key(k) ==> spec_in_window(self@[k]),
    {
    }

    /// An empty scheduler.
    pub fn new() -> (r: Self)
        ensures
            r.wf(),
            r@ == Map::<u128, TaskView>::empty(),
    {
        let r = CronScheduler { tasks: HashMap::new() };
        assert(r@ =~= Map::<u128, TaskView>::empty());
        r
    }

    /// Register or update the task of `id`, anchored at `anchor_ms`: its
    /// next slot is the first after the anchor, its deadline that slot plus
    /// a random jitter in `[0, jitter_sec]` seconds. Returns false, leaving
    /// the scheduler unchanged, when the expression is invalid or has no
    /// slot after the anchor.
    pub fn upsert_at(&mut self, id: u128, cron_expr: &str, jitter_sec: u64, anchor_ms: i64) -> (r:
        bool)
        requires
            old(self).wf(),
            jitter_sec <= MAX_JITTER_SECS,
            anchor_ms <= CRON_AFTER_MAX_MS,
        ensures
            final(self).wf(),
            r == (spec_cron_parses(cron_expr@) && spec_cron_next(cron_expr@, anchor_ms as int)
                is Some),
            !r ==> final(self)@ == old(self)@,
            r ==> {
                let v = final(self)@[id];
                &&& final(self)@ == old(self)@.insert(id, v)
                &&& v.expr == cron_expr@
                &&& v.next_slot == spec_cron_next(cron_expr@, anchor_ms as int)->0
                &&& v.jitter_sec == jitter_sec
            },
    {
        let schedule = match parse_schedule(cron_expr) {
            Some(s) => s,
            None => {
                return false;
            },
        };
        let slot = cron_next_after(&schedule, anchor_ms);
        self.register_at_slot(id, schedule, jitter_sec, slot)
    }

    /// Register `id` with `schedule` at the slot found after its anchor.
    /// With `Some(slot)` the task's next slot is `slot` and its deadline
    /// `slot` plus a random jitter in `[0, jitter_sec]` seconds, and true
    /// is returned; with `None` (no slot after the anchor) nothing changes
    /// and false is returned.
    pub fn register_at_slot(&mut self, id: u128, schedule: ParsedSchedule, jitter_sec: u64, slot: Option<i64>) -> (r:
        bool)
        requires
            old(self).wf(),
            jitter_sec <= MAX_JITTER_SECS,
            slot matches Some(n) ==> -TIME_BOUND_MS < n < TIME_BOUND_MS,
        ensures
            final(self).wf(),
            r == slot is Some,
            !r ==> final(self)@ == old(self)@,
            slot matches Some(n) ==> {
                let v = final(self)@[id];
                &&& final(self)@ == old(self)@.insert(id, v)
                &&& v.expr == schedule.source()
                &&& v.next_slot == n
                &&& v.jitter_sec == jitter_sec
            },
    {
        let next = match slot {
            Some(n) => n,
            None => {
                return false;
            },
        };
        let offset = random_jitter(jitter_sec) * 1000;
        let task = CronTask {
            schedule,
            next_slot: next,
            next_trigger: next + offset as i64,
            jitter_sec,
        };
        self.tasks.insert(id, task);
        assert(self@ =~= old(self)@.insert(id, self@[id]));
        true
    }

    /// Move the task of `id` to the slot found after a tick: with
    /// `Some(slot)` its next slot becomes `slot` and a new deadline is
    /// drawn in its jitter window; with `None` (its schedule is exhausted)
    /// the task is dropped. Nothing changes when `id` has no task.
    pub fn reschedule(&mut self, id: &u128, slot: Option<i64>)
        requires
            old(self).wf(),
            slot matches Some(n) ==> -TIME_BOUND_MS < n < TIME_BOUND_MS,
        ensures
            final(self).wf(),
            !old(self)@.contains_key(*id) ==> final(self)@ == old(self)@,
            old(self)@.contains_key(*id) ==> match slot {
                Some(n) => {
                    let v = final(self)@[*id];
                    &&& final(self)@ == old(self)@.insert(*id, v)
                    &&& v.expr == old(self)@[*id].expr
                    &&& v.next_slot == n
                    &&& v.jitter_sec == old(self)@[*id].jitter_sec
                },
                None => final(self)@ == old(self)@.remove(*id),
            },
    {
        match self.tasks.remove(id) {
            Some(mut task) => {
                match slot {
                    Some(next_slot) => {
                        let offset = random_jitter(task.jitter_sec) * 1000;
                        task.next_slot = next_slot;
                        task.next_trigger = next_slot + offset as i64;
                        self.tasks.insert(*id, task);
                        assert(self@ =~= old(self)@.insert(*id, self@[*id]));
                    },
                    None => {
                        assert(self@ =~= old(self)@.remove(*id));
                    },
                }
            },
            None => {
                assert(self@ =~= old(self)@);
            },
        }
    }

    /// Register or update a task anchored at `last_run` (recovery after a
    /// restart counts the slots since then as missed), or at the current
    /// time when there is no previous run: the outcome is that of
    /// [`Self::upsert_at`] at that anchor (`spec_upserted`). An anchor in the
    /// last second of chrono's range, where no slot can be looked up,
    /// registers nothing.
    pub fn upsert(&mut self, id: u128, cron_expr: &str, jitter_sec: u64, last_run: Option<i64>) -> (r:
        bool)
        requires
            old(self).wf(),
            jitter_sec <= MAX_JITTER_SECS,
        ensures
            final(self).wf(),
            r ==> spec_cron_parses(cron_expr@),
            !r ==> final(self)@ == old(self)@,
            r ==> {
                let v = final(self)@[id];
                &&& final(self)@ == old(self)@.insert(id, v)
                &&& v.expr == cron_expr@
                &&& v.jitter_sec == jitter_sec
                &&& last_run matches Some(t) ==> Some(v.next_slot) == spec_cron_next(
                    cron_expr@,
                    t as int,
                )
            },
            exists|anchor_ms: i64|
                spec_anchor_of(last_run, anchor_ms) && #[trigger] spec_upserted(
                    old(self)@,
                    final(self)@,
                    id,
                    cron_expr@,
                    jitter_sec,
                    anchor_ms,
                    r,
                ),
    {
        let anchor = match last_run {
            Some(t) => t,
            None => now_millis(),
        };
        if anchor > CRON_AFTER_MAX_MS {
            assert(spec_upserted(old(self)@, self@, id, cron_expr@, jitter_sec, anchor, false));
            assert(spec_anchor_of(last_run, anchor));
            return false;
        }
        let r = self.upsert_at(id, cron_expr, jitter_sec, anchor);
        assert(spec_upserted(old(self)@, self@, id, cron_expr@, jitter_sec, anchor, r));
        assert(spec_anchor_of(last_run, anchor));
        r
    }

    /// Change the jitter of an existing task and draw a new deadline.
    pub fn set_jitter(&mut self, id: &u128, jitter_sec: u64)
        requires
            old(self).wf(),
            jitter_sec <= MAX_JITTER_SECS,
        ensures
            final(self).wf(),
            !old(self)@.contains_key(*id) ==> final(self)@ == old(self)@,
            old(self)@.contains_key(*id) ==> {
                let v = final(self)@[*id];
                &&& final(self)@ == old(self)@.insert(*id, v)
                &&& v.expr == old(self)@[*id].expr
                &&& v.next_slot == old(self)@[*id].next_slot
                &&& v.jitter_sec == jitter_sec
            },
    {
        match self.tasks.remove(id) {
            Some(mut task) => {
                let offset = random_jitter(jitter_sec) * 1000;
                task.jitter_sec = jitter_sec;
                task.next_trigger = task.next_slot + offset as i64;
                self.tasks.insert(*id, task);
                assert(self@ =~= old(self)@.insert(*id, self@[*id]));
            },
            None => {
                assert(self@ =~= old(self)@);
            },
        }
    }

    /// Remove a task.
    pub fn remove(&mut self, id: &u128)
        requires
            old(self).wf(),
        ensures
            final(self).wf(),
            final(self)@ == old(self)@.remove(*id),
    {
        self.tasks.remove(id);
        assert(self@ =~= old(self)@.remove(*id));
    }

    /// Trigger deadline of a task (for display).
    pub fn get_next_run(&self, id: &u128) -> (r: Option<i64>)
        ensures
            match r {
                Some(t) => self@.contains_key(*id) && t == self@[*id].next_trigger,
                None => !self@.contains_key(*id),
            },
    {
        match self.tasks.get(id) {
            Some(t) => Some(t.next_trigger),
            None => None,
        }
    }

    /// Slots a due task reports at `now` (see [`spec_missed`]), at most
    /// `u32::MAX`.
    fn missed_slots(task: &CronTask, now: i64) -> (r: u32)
        requires
            task.wf(),
            task.next_trigger <= now <= CRON_AFTER_MAX_MS,
        ensures
            r as nat == (if spec_missed(task@, now as int) > u32::MAX {
                u32::MAX as nat
            } else {
                spec_missed(task@, now as int)
            }),
    {
        let ghost expr = task@.expr;
        let deadline = task.next_trigger;
        let ghost target = spec_skip_absorbed(expr, task.next_slot as int, deadline as int);
        let mut cursor = task.next_slot;
        let mut done = false;
        while !done
            invariant
                task.wf(),
                expr == task@.expr,
                deadline == task.next_trigger,
                target == spec_skip_absorbed(expr, task.next_slot as int, deadline as int),
                deadline <= now <= CRON_AFTER_MAX_MS,
                !done ==> cursor <= deadline && spec_skip_absorbed(expr, cursor as int, deadline as int)
                    == target,
                done ==> cursor == target,
                cursor > -TIME_BOUND_MS,
            decreases (if done { 0 } else { deadline - cursor + 1 }),
        {
            let (c, d) = absorb_step(cursor, cron_next_after(&task.schedule, cursor), deadline);
            cursor = c;
            done = d;
        }
        let ghost start = cursor as int;
        proof {
            lemma_count_bound(expr, start, now as int);
        }
        let mut missed: u64 = 1;
        let mut probe = cursor;
        let mut finished = false;
        while !finished
            invariant
                expr == task@.expr,
                missed >= 1,
                !finished ==> (missed - 1) + spec_count_expired(expr, probe as int, now as int)
                    == spec_count_expired(expr, start, now as int),
                finished ==> missed - 1 == spec_count_expired(expr, start, now as int),
                spec_count_expired(expr, start, now as int) <= (if start <= now {
                    now - start + 1
                } else {
                    0
                }),
                !finished ==> probe >= start,
                start > -TIME_BOUND_MS,
                now <= CRON_AFTER_MAX_MS,
            decreases (if finished { 0 } else if probe > now { 1 } else { now - probe + 2 }),
        {
            if probe > now {
                finished = true;
            } else {
                proof {
                    lemma_count_bound(expr, probe as int, now as int);
                    assert(spec_count_expired(expr, probe as int, now as int) >= 1);
                }
                missed = missed + 1;
                match count_step(cron_next_after(&task.schedule, probe), now) {
                    Some(n) => {
                        probe = n;
                    },
                    None => {
                        finished = true;
                    },
                }
            }
        }
        if missed > u32::MAX as u64 {
            u32::MAX
        } else {
            missed as u32
        }
    }

    /// Saturated missed-slot count reported by a due task.
    pub open spec fn spec_reported(v: TaskView, now: int) -> u32 {
        if spec_missed(v, now) > u32::MAX {
            u32::MAX
        } else {
            spec_missed(v, now) as u32
        }
    }

    /// Return the tasks due at `now` (deadline reached) and reschedule them
    /// at the first slot after `now`; a task whose schedule is exhausted is
    /// dropped. Each trigger carries the slots that became due since the
    /// previous trigger.
    pub fn tick_at(&mut self, now: i64) -> (r: Vec<CronTrigger>)
        requires
            old(self).wf(),
            now <= CRON_AFTER_MAX_MS,
        ensures
            final(self).wf(),
            forall|i: int|
                0 <= i < r@.len() ==> {
                    let t = #[trigger] r@[i];
                    &&& old(self)@.contains_key(t.id)
                    &&& now >= old(self)@[t.id].next_trigger
                    &&& t.missed_slots == Self::spec_reported(old(self)@[t.id], now as int)
                },
            forall|k: u128|
                #[trigger] old(self)@.contains_key(k) && now >= old(self)@[k].next_trigger ==> exists|
                    i: int,
                | 0 <= i < r@.len() && r@[i].id == k,
            forall|i: int, j: int| 0 <= i < j < r@.len() ==> r@[i].id != r@[j].id,
            forall|k: u128|
                #[trigger] old(self)@.contains_key(k) ==> spec_after_tick(old(self)@[k], final(self)@, k, now as int),
            forall|k: u128| #[trigger] final(self)@.contains_key(k) ==> old(self)@.contains_key(k),
    {
        let ghost m = self.tasks@;
        let ghost items = vstd::std_specs::hash::spec_hash_map_iter(&self.tasks).remaining();
        proof {
            vstd::std_specs::hash::axiom_spec_hash_map_iter(&self.tasks);
        }
        let mut triggered: Vec<CronTrigger> = Vec::new();
        let ghost mut idx: Seq<int> = Seq::empty();
        for pair in it: self.tasks.iter()
            invariant
                now <= CRON_AFTER_MAX_MS,
                m == self.tasks@,
                it.seq() == items,
                items.len() == m.dom().len(),
                forall|i: int|
                    0 <= i < items.len() ==> m.contains_key(*(#[trigger] items[i]).0)
                        && m[*items[i].0] == *items[i].1,
                forall|k: u128| #[trigger] m.contains_key(k) ==> items.contains((&k, &m[k])),
                items.no_duplicates(),
                forall|k: u128| #[trigger] m.contains_key(k) ==> m[k].wf(),
                forall|i: int|
                    0 <= i < triggered@.len() ==> {
                        let t = #[trigger] triggered@[i];
                        &&& m.contains_key(t.id)
                        &&& now >= m[t.id].next_trigger
                        &&& t.missed_slots == Self::spec_reported(m[t.id]@, now as int)
                    },
                forall|i: int|
                    0 <= i < it.index() && now >= (#[trigger] items[i]).1.next_trigger ==> exists|
                        j: int,
                    | 0 <= j < triggered@.len() && triggered@[j].id == *items[i].0,
                idx.len() == triggered@.len(),
                forall|j: int|
                    0 <= j < idx.len() ==> 0 <= #[trigger] idx[j] < it.index()
                        && triggered@[j].id == *items[idx[j]].0,
                forall|a: int, b: int| 0 <= a < b < idx.len() ==> idx[a] < idx[b],
                forall|a: int, b: int|
                    0 <= a < b < triggered@.len() ==> triggered@[a].id != triggered@[b].id,
        {
            let ghost cur = it.index();
            let ghost before = triggered@;
            let (k, task) = pair;
            if now >= task.next_trigger {
                let missed = Self::missed_slots(task, now);
                proof {
                    assert forall|j: int| 0 <= j < triggered@.len() implies triggered@[j].id != *k by {
                        if triggered@[j].id == *k {
                            assert(items[idx[j]] == items[cur]);
                        }
                    }
                }
                triggered.push(CronTrigger { id: *k, missed_slots: missed });
                proof {
                    idx = idx.push(cur);
                    assert forall|i: int|
                        0 <= i <= cur && now >= (#[trigger] items[i]).1.next_trigger implies exists|
                            j: int,
                        | 0 <= j < triggered@.len() && triggered@[j].id == *items[i].0 by {
                        if i == cur {
                            assert(triggered@[before.len() as int].id == *items[i].0);
                        } else {
                            let j = choose|j: int|
                                0 <= j < before.len() && before[j].id == *items[i].0;
                            assert(triggered@[j] == before[j]);
                        }
                    }
                }
            }
        }
        proof {
            assert forall|k: u128| #[trigger] m.contains_key(k) && now >= m[k].next_trigger implies exists|
                i: int,
            | 0 <= i < triggered@.len() && triggered@[i].id == k by {
                let i = choose|i: int| 0 <= i < items.len() && items[i] == (&k, &m[k]);
                assert(now >= items[i].1.next_trigger);
            }
        }
        let ghost mv = self@;
        proof {
            assert forall|k: u128| #[trigger] mv.contains_key(k) implies m.contains_key(k) && mv[k] == m[k]@ by {}
        }
        let mut n: usize = 0;
        while n < triggered.len()
            invariant
                now <= CRON_AFTER_MAX_MS,
                n <= triggered@.len(),
                self.wf(),
                mv == old(self)@,
                forall|i: int|
                    0 <= i < triggered@.len() ==> {
                        let t = #[trigger] triggered@[i];
                        &&& mv.contains_key(t.id)
                        &&& now >= mv[t.id].next_trigger
                    },
                forall|a: int, b: int|
                    0 <= a < b < triggered@.len() ==> triggered@[a].id != triggered@[b].id,
                forall|k: u128| #[trigger] self@.contains_key(k) ==> mv.contains_key(k),
                forall|k: u128|
                    #[trigger] mv.contains_key(k) && (forall|i: int|
                        0 <= i < n ==> triggered@[i].id != k) ==> self@.contains_key(k) && self@[k] == mv[k],
                forall|i: int|
                    0 <= i < n ==> {
                        let k = (#[trigger] triggered@[i]).id;
                        match spec_cron_next(mv[k].expr, now as int) {
                            Some(x) => self@.contains_key(k) && self@[k].expr == mv[k].expr
                                && self@[k].next_slot == x && self@[k].jitter_sec == mv[k].jitter_sec,
                            None => !self@.contains_key(k),
                        }
                    },
            decreases triggered.len() - n,
        {
            let id = triggered[n].id;
            proof {
                assert forall|i: int| 0 <= i < n implies triggered@[i].id != id by {}
                assert(self@.contains_key(id) && self@[id] == mv[id]);
            }
            let slot = match self.tasks.get(&id) {
                Some(task) => cron_next_after(&task.schedule, now),
                None => None,
            };
            let ghost before = self@;
            self.reschedule(&id, slot);
            proof {
                assert forall|k: u128| #[trigger] mv.contains_key(k) && (forall|i: int|
                    0 <= i < n + 1 ==> triggered@[i].id != k) implies self@.contains_key(k) && self@[k] == mv[k] by {
                    assert(triggered@[n as int].id != k);
                    assert(before.contains_key(k) && before[k] == mv[k]);
                }
                assert forall|i: int| 0 <= i < n + 1 implies {
                    let k = (#[trigger] triggered@[i]).id;
                    match spec_cron_next(mv[k].expr, now as int) {
                        Some(x) => self@.contains_key(k) && self@[k].expr == mv[k].expr
                            && self@[k].next_slot == x && self@[k].jitter_sec == mv[k].jitter_sec,
                        None => !self@.contains_key(k),
                    }
                } by {
                    if i < n {
                        assert(triggered@[i].id != id);
                    }
                }
            }
            n = n + 1;
        }
        proof {
            assert forall|k: u128| #[trigger] old(self)@.contains_key(k) implies spec_after_tick(
                old(self)@[k],
                self@,
                k,
                now as int,
            ) by {
                assert(mv.contains_key(k));
                if now < mv[k].next_trigger {
                    assert forall|i: int| 0 <= i < triggered@.len() implies triggered@[i].id != k by {
                        if triggered@[i].id == k {
                            assert(now >= mv[k].next_trigger);
                        }
                    }
                } else {
                    assert(m.contains_key(k) && now >= m[k].next_trigger);
                    let i = choose|i: int| 0 <= i < triggered@.len() && triggered@[i].id == k;
                    assert(triggered@[i].id == k);
                }
            }
        }
        triggered
    }

    /// Due tasks at the current time: the outcome is that of
    /// [`Self::tick_at`] at the instant read from the clock
    /// (`spec_clock_tick`); in the last second of chrono's range nothing
    /// is due.
    pub fn tick(&mut self) -> (r: Vec<CronTrigger>)
        requires
            old(self).wf(),
        ensures
            final(self).wf(),
            forall|i: int|
                0 <= i < r@.len() ==> old(self)@.contains_key((#[trigger] r@[i]).id),
            exists|now: i64| #[trigger] spec_clock_tick(old(self)@, final(self)@, r@, now),
    {
        let now = now_millis();
        if now > CRON_AFTER_MAX_MS {
            let r: Vec<CronTrigger> = Vec::new();
            assert(spec_clock_tick(old(self)@, self@, r@, now));
            return r;
        }
        let r = self.tick_at(now);
        assert(spec_clock_tick(old(self)@, self@, r@, now));
        r
    }
}

} // verus!
