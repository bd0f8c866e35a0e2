//! Admission of cron firings: catch-up of missed slots, the concurrency gate
//! (`max_concurrent` / `on_overlap`), and the bounded queue of pending runs
//! (`max_queued`) that is drained one run per free slot.

use std::collections::HashMap;
use vstd::prelude::*;

use crate::model::{CronCatchup, CronOverlap};

verus! {

broadcast use vstd::std_specs::hash::group_hash_axioms;

/// Upper bound for `catchup = all` backfills, so that a long daemon outage
/// cannot flood the machine with catch-up runs.
pub const CRON_CATCHUP_CAP: u32 = 10;

/// Overlap policy of a program (`skip` unless configured).
pub fn effective_overlap(o: Option<CronOverlap>) -> (r: CronOverlap)
    ensures
        r == (match o {
            Some(v) => v,
            None => CronOverlap::Skip,
        }),
{
    match o {
        Some(v) => v,
        None => CronOverlap::Skip,
    }
}

/// Catch-up policy of a program (`latest` unless configured).
pub fn effective_catchup(c: Option<CronCatchup>) -> (r: CronCatchup)
    ensures
        r == (match c {
            Some(v) => v,
            None => CronCatchup::Latest,
        }),
{
    match c {
        Some(v) => v,
        None => CronCatchup::Latest,
    }
}

/// Runs that a firing stands for: an on-time firing is one run; a firing
/// that missed slots is none (`skip`), one (`latest`) or one per missed slot
/// up to the cap (`all`).
pub open spec fn spec_catchup_runs(missed_slots: u32, catchup: CronCatchup) -> u32 {
    if missed_slots <= 1 {
        1
    } else {
        match catchup {
            CronCatchup::Skip => 0,
            CronCatchup::Latest => 1,
            CronCatchup::All => if missed_slots < CRON_CATCHUP_CAP {
                missed_slots
            } else {
                CRON_CATCHUP_CAP
            },
        }
    }
}

/// Runs that a firing stands for (see [`spec_catchup_runs`]).
pub fn catchup_runs(missed_slots: u32, catchup: CronCatchup) -> (r: u32)
    ensures
        r == spec_catchup_runs(missed_slots, catchup),
        r <= CRON_CATCHUP_CAP,
{
    if missed_slots <= 1 {
        1
    } else {
        match catchup {
            CronCatchup::Skip => 0,
            CronCatchup::Latest => 1,
            CronCatchup::All => if missed_slots < CRON_CATCHUP_CAP {
                missed_slots
            } else {
                CRON_CATCHUP_CAP
            },
        }
    }
}

/// What became of one firing.
#[derive(Clone, Copy, Debug, PartialEq, Eq, Structural)]
pub enum Admission {
    /// Nothing to run (`catchup = skip` after missed slots).
    NoRuns,
    /// Every slot is taken and `on_overlap = skip`: the firing is dropped.
    SkippedOverlap,
    /// `runs` runs were added to the queue (`kill_oldest`: the oldest
    /// instance is terminated to free a slot).
    Queued { runs: u32, kill_oldest: bool },
    /// The queue was full (`max_queued`): the firing is dropped and a
    /// `queue_full` event is recorded.
    QueueFull { kill_oldest: bool },
}

/// Decision for one firing, given the runs it stands for, the instances
/// already running, the limits, and the runs already queued.
pub open spec fn spec_admission(
    runs: u32,
    overlap: CronOverlap,
    active: nat,
    max_concurrent: u32,
    queued: u32,
    max_queued: u32,
) -> Admission {
    if runs == 0 {
        Admission::NoRuns
    } else {
        let full = active >= max_concurrent;
        if full && overlap == CronOverlap::Skip {
            Admission::SkippedOverlap
        } else {
            let kill = full && overlap == CronOverlap::Kill;
            if queued >= max_queued {
                Admission::QueueFull { kill_oldest: kill }
            } else {
                Admission::Queued { runs, kill_oldest: kill }
            }
        }
    }
}

/// Catch-up: a firing on time stands for one run; after missed slots
/// `skip` runs nothing, `latest` runs once, and `all` runs once per missed
/// slot, but never more than `CRON_CATCHUP_CAP` times.
pub proof fn law_catchup(missed_slots: u32, catchup: CronCatchup)
    ensures
        missed_slots <= 1 ==> spec_catchup_runs(missed_slots, catchup) == 1,
        missed_slots > 1 && catchup == CronCatchup::Skip ==> spec_catchup_runs(missed_slots, catchup) == 0,
        missed_slots > 1 && catchup == CronCatchup::Latest ==> spec_catchup_runs(missed_slots, catchup) == 1,
        (missed_slots > 1 && catchup == CronCatchup::All ==> spec_catchup_runs(missed_slots, catchup) == (
        if missed_slots < CRON_CATCHUP_CAP {
            missed_slots
        } else {
            CRON_CATCHUP_CAP
        })),
        spec_catchup_runs(missed_slots, catchup) <= CRON_CATCHUP_CAP,
{
}

/// The concurrency gate: a firing with runs to do, when `max_concurrent`
/// instances already run, is dropped under `on_overlap = skip` and only
/// then; `queue` and `kill` never drop it for overlap (they queue it, `kill`
/// also terminating the oldest instance, unless the queue is full). With a
/// free slot nothing is killed. Queued runs are exactly the firing's runs,
/// and only while fewer than `max_queued` runs wait.
pub proof fn law_admission(
    runs: u32,
    overlap: CronOverlap,
    active: nat,
    max_concurrent: u32,
    queued: u32,
    max_queued: u32,
)
    ensures
        ({
            let a = spec_admission(runs, overlap, active, max_concurrent, queued, max_queued);
            &&& (runs == 0 <==> a == Admission::NoRuns)
            &&& (a == Admission::SkippedOverlap <==> (runs > 0 && active >= max_concurrent && overlap
                == CronOverlap::Skip))
            &&& (overlap != CronOverlap::Skip ==> a != Admission::SkippedOverlap)
            &&& (a matches Admission::Queued { runs: n, kill_oldest } ==> n == runs && queued < max_queued
                && (kill_oldest <==> (active >= max_concurrent && overlap == CronOverlap::Kill)))
            &&& (a matches Admission::QueueFull { kill_oldest } ==> runs > 0 && queued >= max_queued
                && (kill_oldest <==> (active >= max_concurrent && overlap == CronOverlap::Kill)))
            &&& (runs > 0 && (active < max_concurrent || overlap != CronOverlap::Skip) ==> (a is Queued
                <==> queued < max_queued))
            &&& (active < max_concurrent ==> !(a matches Admission::Queued { kill_oldest: true, .. })
                && !(a matches Admission::QueueFull { kill_oldest: true }))
        }),
{
}

/// Queue length after adding `runs` (saturating).
pub open spec fn spec_add_runs(queued: u32, runs: u32) -> u32 {
    if queued as int + runs as int > u32::MAX as int {
        u32::MAX
    } else {
        (queued + runs) as u32
    }
}

/// What the drain pass does next for one queued program.
#[derive(Clone, Copy, Debug, PartialEq, Eq, Structural)]
pub enum DrainStep {
    /// The program is gone or has nothing queued: forget its queue.
    Forget,
    /// Every `max_concurrent` slot is taken: wait for a later tick.
    Wait,
    /// Start one run now (then call [`CronQueue::consume`]).
    SpawnOne,
}

/// Runs waiting for a free `max_concurrent` slot, per program.
pub struct CronQueue {
    pub pending: HashMap<u128, u32>,
}

/// Runs queued for a program (0 when none).
pub open spec fn spec_queued(m: Map<u128, u32>, id: u128) -> u32 {
    if m.contains_key(id) {
        m[id]
    } else {
        0
    }
}

impl CronQueue {
    /// An empty queue.
    pub fn new() -> (r: Self)
        ensures
            r.pending@ == Map::<u128, u32>::empty(),
    {
        CronQueue { pending: HashMap::new() }
    }

    /// Runs queued for a program.
    pub fn queued(&self, id: &u128) -> (r: u32)
        ensures
            r == spec_queued(self.pending@, *id),
    {
        match self.pending.get(id) {
            Some(n) => *n,
            None => 0,
        }
    }

    /// Admit one firing of program `id` (see [`spec_admission`]); queued
    /// runs are added to the program's queue.
    pub fn on_firing(
        &mut self,
        id: u128,
        missed_slots: u32,
        catchup: CronCatchup,
        overlap: CronOverlap,
        active: usize,
        max_concurrent: u32,
        max_queued: u32,
    ) -> (r: Admission)
        ensures
            r == spec_admission(
                spec_catchup_runs(missed_slots, catchup),
                overlap,
                active as nat,
                max_concurrent,
                spec_queued(old(self).pending@, id),
                max_queued,
            ),
            final(self).pending@ == (match r {
                Admission::Queued { runs, .. } => old(self).pending@.insert(
                    id,
                    spec_add_runs(spec_queued(old(self).pending@, id), runs),
                ),
                Admission::QueueFull { .. } => old(self).pending@.insert(
                    id,
                    spec_queued(old(self).pending@, id),
                ),
                _ => old(self).pending@,
            }),
    {
        let runs = catchup_runs(missed_slots, catchup);
        if runs == 0 {
            return Admission::NoRuns;
        }
        let full = active >= max_concurrent as usize;
        if full && overlap == CronOverlap::Skip {
            return Admission::SkippedOverlap;
        }
        let kill = full && overlap == CronOverlap::Kill;
        let queued = self.queued(&id);
        if queued >= max_queued {
            self.pending.insert(id, queued);
            Admission::QueueFull { kill_oldest: kill }
        } else {
            self.pending.insert(id, queued.saturating_add(runs));
            Admission::Queued { runs, kill_oldest: kill }
        }
    }

    /// Next step of the drain pass for program `id`, given whether it still
    /// exists and how many of its instances run.
    pub fn drain_step(&self, id: &u128, present: bool, active: usize, max_concurrent: u32) -> (r:
        DrainStep)
        ensures
            r == (if !present || spec_queued(self.pending@, *id) == 0 {
                DrainStep::Forget
            } else if active >= max_concurrent {
                DrainStep::Wait
            } else {
                DrainStep::SpawnOne
            }),
    {
        if !present || self.queued(id) == 0 {
            DrainStep::Forget
        } else if active >= max_concurrent as usize {
            DrainStep::Wait
        } else {
            DrainStep::SpawnOne
        }
    }

    /// One queued run of `id` was started: the queue shrinks by one and is
    /// forgotten once empty.
    pub fn consume(&mut self, id: &u128)
        ensures
            spec_queued(old(self).pending@, *id) <= 1 ==> final(self).pending@ == old(
                self,
            ).pending@.remove(*id),
            spec_queued(old(self).pending@, *id) > 1 ==> final(self).pending@ == old(
                self,
            ).pending@.insert(*id, (spec_queued(old(self).pending@, *id) - 1) as u32),
    {
        let n = self.queued(id);
        if n <= 1 {
            self.pending.remove(id);
        } else {
            self.pending.insert(*id, n - 1);
        }
    }

    /// Forget the queue of a program (removed, or its schedule cleared).
    pub fn forget(&mut self, id: &u128)
        ensures
            final(self).pending@ == old(self).pending@.remove(*id),
    {
        self.pending.remove(id);
    }
}

} // verus!
