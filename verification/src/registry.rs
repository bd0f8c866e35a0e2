//! Process registry: static program configuration and the running instances.
//!
//! Every program has at most one running instance, except scheduled tasks with
//! `max_concurrent > 1`, which may hold several overlapping instances. The first
//! instance of a program is its "primary": the one shown in status displays and
//! used by single-instance operations.

use std::collections::{HashMap, HashSet};
use vstd::prelude::*;
use vstd::set::fold::{is_fun_commutative, lemma_fold_empty, lemma_fold_insert};
use vstd::std_specs::hash::spec_keys_iter;
use vstd::std_specs::iter::IteratorSpec;

use crate::model::{ProgramConfig, ProgramEventRecord};

verus! {

broadcast use vstd::std_specs::hash::group_hash_axioms;

/// Maximum number of persisted lifecycle events kept per program (oldest dropped).
pub const MAX_EVENTS_PER_PROGRAM: usize = 100;

/// Runtime state of one running instance.
#[derive(Debug)]
pub struct RuntimeState {
    pub pid: u32,
    pub start_time: u64,
    pub retry_count: u32,
    pub stopping: bool,
    pub restart_requested: bool,
    pub is_healthy: bool,
    /// Latest health check failure (cleared when healthy again).
    pub health_error: Option<String>,
    /// Pending recovery notification flag.
    pub alert_pending_recovery: bool,
    /// Cached CPU usage, in hundredths of a percent.
    pub cpu_usage_centi: u32,
    /// Cached resident memory, in bytes.
    pub mem_usage: u64,
}

impl Clone for RuntimeState {
    fn clone(&self) -> (r: Self)
        ensures
            r == *self,
    {
        RuntimeState {
            pid: self.pid,
            start_time: self.start_time,
            retry_count: self.retry_count,
            stopping: self.stopping,
            restart_requested: self.restart_requested,
            is_healthy: self.is_healthy,
            health_error: self.health_error.clone(),
            alert_pending_recovery: self.alert_pending_recovery,
            cpu_usage_centi: self.cpu_usage_centi,
            mem_usage: self.mem_usage,
        }
    }
}

/// Instances of `id` in a running map (empty when absent).
pub open spec fn instances_in(m: Map<u128, Vec<RuntimeState>>, id: u128) -> Seq<RuntimeState> {
    if m.contains_key(id) {
        m[id]@
    } else {
        Seq::empty()
    }
}

/// Adds the instances of one program to a count.
pub open spec fn count_step(m: Map<u128, Vec<RuntimeState>>) -> spec_fn(nat, u128) -> nat {
    |acc: nat, k: u128| acc + instances_in(m, k).len()
}

/// Number of instances of the programs in `s`.
pub open spec fn total_of(m: Map<u128, Vec<RuntimeState>>, s: Set<u128>) -> nat {
    s.fold(0nat, count_step(m))
}

/// `(program, pid)` of every instance of the programs `ks`, program by
/// program, each program's instances oldest first.
pub open spec fn pids_of(m: Map<u128, Vec<RuntimeState>>, ks: Seq<u128>) -> Seq<(u128, u32)>
    decreases ks.len(),
{
    if ks.len() == 0 {
        Seq::empty()
    } else {
        pids_of(m, ks.drop_last()) + instances_in(m, ks.last()).map_values(
            |st: RuntimeState| (ks.last(), st.pid),
        )
    }
}

/// No program holds an empty list of instances.
pub open spec fn running_wf(m: Map<u128, Vec<RuntimeState>>) -> bool {
    forall|k: u128| #[trigger] m.contains_key(k) ==> m[k]@.len() > 0
}

proof fn lemma_step_commutative(m: Map<u128, Vec<RuntimeState>>)
    ensures
        is_fun_commutative(count_step(m)),
{
    assert forall|a1: u128, a2: u128, b: nat| #[trigger]
        count_step(m)(count_step(m)(b, a2), a1) == count_step(m)(count_step(m)(b, a1), a2) by {}
}

/// The count over `s` depends only on the instances of the programs in `s`.
proof fn lemma_total_congruent(m1: Map<u128, Vec<RuntimeState>>, m2: Map<u128, Vec<RuntimeState>>, s: Set<u128>)
    requires
        s.finite(),
        forall|k: u128| #[trigger] s.contains(k) ==> instances_in(m1, k).len() == instances_in(m2, k).len(),
    ensures
        total_of(m1, s) == total_of(m2, s),
    decreases s.len(),
{
    lemma_step_commutative(m1);
    lemma_step_commutative(m2);
    if s.len() == 0 {
        assert(s =~= Set::<u128>::empty());
        lemma_fold_empty(0nat, count_step(m1));
        lemma_fold_empty(0nat, count_step(m2));
    } else {
        let x = s.choose();
        let s0 = s.remove(x);
        lemma_total_congruent(m1, m2, s0);
        assert(s =~= s0.insert(x));
        lemma_fold_insert(s0, 0nat, count_step(m1), x);
        lemma_fold_insert(s0, 0nat, count_step(m2), x);
    }
}

/// Count after setting the instances of `id` to `v`.
proof fn lemma_total_insert(m: Map<u128, Vec<RuntimeState>>, id: u128, v: Vec<RuntimeState>)
    requires
        m.dom().finite(),
    ensures
        total_of(m.insert(id, v), m.insert(id, v).dom()) + instances_in(m, id).len() == total_of(
            m,
            m.dom(),
        ) + v@.len(),
{
    let m2 = m.insert(id, v);
    let d0 = m.dom().remove(id);
    lemma_step_commutative(m);
    lemma_step_commutative(m2);
    lemma_total_congruent(m, m2, d0);
    assert(m2.dom() =~= d0.insert(id));
    lemma_fold_insert(d0, 0nat, count_step(m2), id);
    if m.contains_key(id) {
        assert(m.dom() =~= d0.insert(id));
        lemma_fold_insert(d0, 0nat, count_step(m), id);
    } else {
        assert(m.dom() =~= d0);
    }
}

/// Count after dropping the instances of `id`.
proof fn lemma_total_remove(m: Map<u128, Vec<RuntimeState>>, id: u128)
    requires
        m.dom().finite(),
    ensures
        total_of(m.remove(id), m.remove(id).dom()) + instances_in(m, id).len() == total_of(m, m.dom()),
{
    let m2 = m.remove(id);
    let d0 = m.dom().remove(id);
    lemma_step_commutative(m);
    lemma_step_commutative(m2);
    lemma_total_congruent(m, m2, d0);
    assert(m2.dom() =~= d0);
    if m.contains_key(id) {
        assert(m.dom() =~= d0.insert(id));
        lemma_fold_insert(d0, 0nat, count_step(m), id);
    } else {
        assert(m.dom() =~= d0);
    }
}

/// The count over a part of the programs is at most the count over all.
proof fn lemma_total_subset(m: Map<u128, Vec<RuntimeState>>, s: Set<u128>, t: Set<u128>)
    requires
        t.finite(),
        s.subset_of(t),
    ensures
        total_of(m, s) <= total_of(m, t),
    decreases t.len(),
{
    lemma_step_commutative(m);
    if !(s =~= t) {
        let x = choose|x: u128| t.contains(x) && !s.contains(x);
        let t0 = t.remove(x);
        lemma_total_subset(m, s, t0);
        assert(t =~= t0.insert(x));
        lemma_fold_insert(t0, 0nat, count_step(m), x);
    }
}

/// With no empty list, nothing runs exactly when the count is zero.
proof fn lemma_total_zero(m: Map<u128, Vec<RuntimeState>>)
    requires
        m.dom().finite(),
        running_wf(m),
    ensures
        (total_of(m, m.dom()) == 0) == (m.dom().len() == 0),
{
    lemma_step_commutative(m);
    if m.dom().len() == 0 {
        assert(m.dom() =~= Set::<u128>::empty());
        lemma_fold_empty(0nat, count_step(m));
    } else {
        let x = m.dom().choose();
        lemma_total_remove(m, x);
    }
}

/// Keeps the newest `MAX_EVENTS_PER_PROGRAM` events of a history.
pub open spec fn spec_cap_events(s: Seq<ProgramEventRecord>) -> Seq<ProgramEventRecord> {
    if s.len() > MAX_EVENTS_PER_PROGRAM {
        s.subrange(s.len() - MAX_EVENTS_PER_PROGRAM, s.len() as int)
    } else {
        s
    }
}

/// History of a program in an event map (empty when absent).
pub open spec fn spec_history(
    m: Map<u128, Vec<ProgramEventRecord>>,
    id: u128,
) -> Seq<ProgramEventRecord> {
    if m.contains_key(id) {
        m[id]@
    } else {
        Seq::empty()
    }
}

/// Process registry: static configuration and dynamic runtime state.
pub struct ProcessRegistry {
    pub programs: HashMap<u128, ProgramConfig>,
    /// Running instances per program, oldest first (see `wf`).
    pub running: HashMap<u128, Vec<RuntimeState>>,
    /// Programs waiting for a backoff restart.
    pub restarting: HashSet<u128>,
    /// Programs waiting for their dependencies.
    pub waiting: HashSet<u128>,
    /// Programs in the Fatal state.
    pub crashed: HashSet<u128>,
    /// Programs the operator stopped: no dependent's start brings them
    /// back up until the operator starts them again.
    pub held: HashSet<u128>,
    /// Startup error cache (shown as `last_error`).
    pub startup_errors: HashMap<u128, String>,
    /// Consecutive health-triggered restarts per program.
    pub health_restart_count: HashMap<u128, u32>,
    /// Persisted lifecycle/exception event history, per program.
    pub events: HashMap<u128, Vec<ProgramEventRecord>>,
    /// The configuration changed since the last flush.
    pub dirty: bool,
    /// The event history changed since the last flush.
    pub events_dirty: bool,
}

impl ProcessRegistry {
    /// No program holds an empty list of instances.
    pub open spec fn wf(&self) -> bool {
        running_wf(self.running@)
    }

    /// Running instances of a program, oldest first (empty when not running).
    pub open spec fn instances(&self, id: u128) -> Seq<RuntimeState> {
        instances_in(self.running@, id)
    }

    /// Number of running instances over all programs.
    pub open spec fn total(&self) -> nat {
        total_of(self.running@, self.running@.dom())
    }

    /// Everything but the running instances is as in `other`.
    pub open spec fn same_static(&self, other: &Self) -> bool {
        &&& self.programs@ == other.programs@
        &&& self.restarting@ == other.restarting@
        &&& self.waiting@ == other.waiting@
        &&& self.crashed@ == other.crashed@
        &&& self.held@ == other.held@
        &&& self.startup_errors@ == other.startup_errors@
        &&& self.health_restart_count@ == other.health_restart_count@
        &&& self.events@ == other.events@
        &&& self.dirty == other.dirty
        &&& self.events_dirty == other.events_dirty
    }

    /// Only the instances of `id` may differ from `other`.
    pub open spec fn others_unchanged(&self, other: &Self, id: u128) -> bool {
        forall|k: u128| k != id ==> #[trigger] self.instances(k) == other.instances(k)
    }

    /// A program is running exactly when it has an instance; the total is
    /// at least the instances of any one program.
    pub proof fn lemma_instances_bounded(&self, id: u128)
        requires
            self.wf(),
        ensures
            self.instances(id).len() <= self.total(),
    {
        lemma_total_remove(self.running@, id);
    }

    /// Registry restored from persisted programs and events; nothing runs.
    pub fn new(
        initial_programs: HashMap<u128, ProgramConfig>,
        initial_events: HashMap<u128, Vec<ProgramEventRecord>>,
    ) -> (r: Self)
        ensures
            r.wf(),
            r.programs@ == initial_programs@,
            r.events@ == initial_events@,
            forall|id: u128| #[trigger] r.instances(id) == Seq::<RuntimeState>::empty(),
            r.total() == 0,
            r.restarting@.is_empty(),
            r.waiting@.is_empty(),
            r.crashed@.is_empty(),
            r.held@.is_empty(),
            r.startup_errors@.is_empty(),
            r.health_restart_count@.is_empty(),
            !r.dirty,
            !r.events_dirty,
    {
        let r = ProcessRegistry {
            programs: initial_programs,
            running: HashMap::new(),
            restarting: HashSet::new(),
            waiting: HashSet::new(),
            crashed: HashSet::new(),
            held: HashSet::new(),
            startup_errors: HashMap::new(),
            health_restart_count: HashMap::new(),
            events: initial_events,
            dirty: false,
            events_dirty: false,
        };
        proof {
            assert(r.running@.dom() =~= Set::<u128>::empty());
            lemma_fold_empty(0nat, count_step(r.running@));
        }
        r
    }

    /// Append a lifecycle event to a program's history, keeping only the
    /// newest `MAX_EVENTS_PER_PROGRAM` entries.
    pub fn push_event(&mut self, id: u128, record: ProgramEventRecord)
        ensures
            final(self).events@ == old(self).events@.insert(
                id,
                final(self).events@[id],
            ),
            final(self).events@[id]@ == spec_cap_events(
                spec_history(old(self).events@, id).push(record),
            ),
            final(self).dirty,
            final(self).events_dirty,
            final(self).programs@ == old(self).programs@,
            final(self).running@ == old(self).running@,
            final(self).restarting@ == old(self).restarting@,
            final(self).waiting@ == old(self).waiting@,
            final(self).crashed@ == old(self).crashed@,
            final(self).held@ == old(self).held@,
            final(self).startup_errors@ == old(self).startup_errors@,
            final(self).health_restart_count@ == old(self).health_restart_count@,
    {
        let mut bucket = match self.events.remove(&id) {
            Some(b) => b,
            None => Vec::new(),
        };
        bucket.push(record);
        let ghost pushed = bucket@;
        if bucket.len() > MAX_EVENTS_PER_PROGRAM {
            let excess = bucket.len() - MAX_EVENTS_PER_PROGRAM;
            let kept = bucket.split_off(excess);
            bucket = kept;
        }
        assert(bucket@ == spec_cap_events(pushed));
        self.events.insert(id, bucket);
        self.dirty = true;
        self.events_dirty = true;
    }

    /// Event history of a program (empty when none).
    pub fn get_events(&self, id: &u128) -> (r: Vec<ProgramEventRecord>)
        ensures
            r@ == spec_history(self.events@, *id),
    {
        match self.events.get(id) {
            Some(v) => {
                let c = v.clone();
                assert(c@ == v@);
                c
            },
            None => Vec::new(),
        }
    }

    /// Drop the event history of a program (used on remove).
    pub fn remove_events(&mut self, id: &u128)
        ensures
            final(self).events@ == old(self).events@.remove(*id),
            final(self).dirty == (old(self).dirty || old(self).events@.contains_key(*id)),
            final(self).events_dirty == (old(self).events_dirty || old(self).events@.contains_key(
                *id,
            )),
            final(self).programs@ == old(self).programs@,
            final(self).running@ == old(self).running@,
    {
        if self.events.remove(id).is_some() {
            self.dirty = true;
            self.events_dirty = true;
        }
    }

    /// Mark the state as changed (needs a flush to disk).
    pub fn mark_dirty(&mut self)
        ensures
            final(self).dirty,
            final(self).events_dirty == old(self).events_dirty,
            final(self).programs@ == old(self).programs@,
            final(self).running@ == old(self).running@,
            final(self).events@ == old(self).events@,
    {
        self.dirty = true;
    }

    /// Configuration of a program.
    pub fn get_config(&self, id: &u128) -> (r: Option<&ProgramConfig>)
        ensures
            match r {
                Some(c) => self.programs@.contains_key(*id) && *c == self.programs@[*id],
                None => !self.programs@.contains_key(*id),
            },
    {
        self.programs.get(id)
    }

    /// Whether any instance of the program is running.
    pub fn is_running(&self, id: &u128) -> (r: bool)
        requires
            self.wf(),
        ensures
            r == (self.instances(*id).len() > 0),
    {
        self.running.contains_key(id)
    }

    /// Number of running instances of the program.
    pub fn running_count(&self, id: &u128) -> (r: usize)
        requires
            self.wf(),
        ensures
            r == self.instances(*id).len(),
    {
        match self.running.get(id) {
            Some(v) => v.len(),
            None => 0,
        }
    }

    /// Total number of running instances across all programs.
    pub fn total_running(&self) -> (r: usize)
        requires
            self.wf(),
            self.total() <= usize::MAX,
        ensures
            r == self.total(),
    {
        let ghost m = self.running@;
        let ghost ks = IteratorSpec::remaining(&spec_keys_iter(&self.running)).unref();
        proof {
            lemma_step_commutative(m);
            assert(ks.take(0).to_set() =~= Set::<u128>::empty());
            lemma_fold_empty(0nat, count_step(m));
        }
        let mut sum: usize = 0;
        for k in it: self.running.keys()
            invariant
                m == self.running@,
                m.dom().finite(),
                ks == IteratorSpec::remaining(&spec_keys_iter(&self.running)).unref(),
                it.seq().unref() == ks,
                ks.no_duplicates(),
                ks.to_set() == m.dom(),
                0 <= it.index() <= ks.len(),
                sum == total_of(m, ks.take(it.index() as int).to_set()),
                total_of(m, m.dom()) <= usize::MAX,
        {
            let n = match self.running.get(k) {
                Some(v) => v.len(),
                None => 0,
            };
            proof {
                let i = it.index() as int;
                let pre = ks.take(i).to_set();
                assert(*k == ks[i]);
                assert(ks.take(i + 1).to_set() =~= pre.insert(ks[i])) by {
                    let t1 = ks.take(i + 1);
                    let t0 = ks.take(i);
                    assert(t1 =~= t0.push(ks[i]));
                    assert forall|x: u128| t1.contains(x) == pre.insert(ks[i]).contains(x) by {
                        if t1.contains(x) {
                            let j = choose|j: int| 0 <= j < t1.len() && t1[j] == x;
                            if j < i {
                                assert(t0[j] == x);
                            }
                        }
                        if t0.contains(x) {
                            let j = choose|j: int| 0 <= j < t0.len() && t0[j] == x;
                            assert(t1[j] == x);
                        }
                        if x == ks[i] {
                            assert(t1[i] == x);
                        }
                    }
                }
                assert(!pre.contains(ks[i])) by {
                    if pre.contains(ks[i]) {
                        let j = choose|j: int| 0 <= j < i && ks.take(i)[j] == ks[i];
                        assert(ks[j] == ks[i]);
                    }
                }
                lemma_step_commutative(m);
                lemma_fold_insert(pre, 0nat, count_step(m), ks[i]);
                assert(ks.take(i + 1).to_set().subset_of(m.dom()));
                lemma_total_subset(m, ks.take(i + 1).to_set(), m.dom());
            }
            sum = sum + n;
        }
        proof {
            assert(ks.take(ks.len() as int) =~= ks);
        }
        sum
    }

    /// Whether no process is running at all.
    pub fn running_empty(&self) -> (r: bool)
        requires
            self.wf(),
        ensures
            r == (self.total() == 0),
            r == (forall|id: u128| #[trigger] self.instances(id).len() == 0),
    {
        proof {
            lemma_total_zero(self.running@);
        }
        let r = self.running.len() == 0;
        proof {
            if !r {
                let x = self.running@.dom().choose();
                assert(self.running@.dom().contains(x));
                assert(self.instances(x).len() > 0);
            } else {
                assert forall|id: u128| #[trigger] self.instances(id).len() == 0 by {
                    if self.running@.contains_key(id) {
                        assert(self.running@.dom().contains(id));
                    }
                }
            }
        }
        r
    }

    /// All running instances as `(program, pid)` pairs (shutdown / force-kill),
    /// program by program in the map's order, each program's instances
    /// oldest first.
    pub fn all_running_pids(&self) -> (r: Vec<(u128, u32)>)
        requires
            self.wf(),
        ensures
            exists|ks: Seq<u128>|
                #![trigger pids_of(self.running@, ks)]
                ks.no_duplicates() && ks.to_set() == self.running@.dom() && r@ == pids_of(self.running@, ks),
    {
        let ghost m = self.running@;
        let ghost ks = IteratorSpec::remaining(&spec_keys_iter(&self.running)).unref();
        let mut out: Vec<(u128, u32)> = Vec::new();
        for k in it: self.running.keys()
            invariant
                m == self.running@,
                ks == IteratorSpec::remaining(&spec_keys_iter(&self.running)).unref(),
                it.seq().unref() == ks,
                ks.no_duplicates(),
                ks.to_set() == m.dom(),
                0 <= it.index() <= ks.len(),
                out@ == pids_of(m, ks.take(it.index() as int)),
        {
            let ghost i = it.index() as int;
            let ghost before = out@;
            proof {
                assert(*k == ks[i]);
            }
            let id = *k;
            match self.running.get(k) {
                Some(v) => {
                    let mut j: usize = 0;
                    while j < v.len()
                        invariant
                            j <= v@.len(),
                            out@ == before + v@.take(j as int).map_values(|st: RuntimeState| (id, st.pid)),
                        decreases v.len() - j,
                    {
                        out.push((id, v[j].pid));
                        proof {
                            assert(v@.take(j + 1) == v@.take(j as int).push(v@[j as int]));
                            assert(v@.take(j + 1).map_values(|st: RuntimeState| (id, st.pid)) == v@.take(
                                j as int,
                            ).map_values(|st: RuntimeState| (id, st.pid)).push((id, v@[j as int].pid)));
                        }
                        j = j + 1;
                    }
                    proof {
                        assert(v@.take(j as int) == v@);
                    }
                },
                None => {
                    proof {
                        assert(ks.to_set().contains(ks[i]));
                    }
                },
            }
            proof {
                assert(ks.take(i + 1).drop_last() =~= ks.take(i));
                assert(ks.take(i + 1).last() == ks[i]);
            }
        }
        proof {
            assert(ks.take(ks.len() as int) =~= ks);
        }
        out
    }

    /// All instances of a program, oldest first (empty when not running).
    pub fn get_running_all(&self, id: &u128) -> (r: &[RuntimeState])
        requires
            self.wf(),
        ensures
            r@ == self.instances(*id),
    {
        match self.running.get(id) {
            Some(v) => v.as_slice(),
            None => &[],
        }
    }

    /// Primary instance of a program (the first one started), if any.
    pub fn get_running(&self, id: &u128) -> (r: Option<&RuntimeState>)
        requires
            self.wf(),
        ensures
            match r {
                Some(s) => self.instances(*id).len() > 0 && *s == self.instances(*id)[0],
                None => self.instances(*id).len() == 0,
            },
    {
        match self.running.get(id) {
            Some(v) => Some(&v[0]),
            None => None,
        }
    }

    /// Set the instances of `id` to `v`, or drop the program's entry when
    /// `v` is empty.
    fn put_instances(&mut self, id: u128, v: Vec<RuntimeState>)
        requires
            old(self).wf(),
            !old(self).running@.contains_key(id),
        ensures
            final(self).wf(),
            final(self).instances(id) == v@,
            forall|k: u128| k != id ==> #[trigger] final(self).instances(k) == old(self).instances(k),
            final(self).total() == old(self).total() + v@.len(),
            final(self).same_static(&*old(self)),
    {
        let ghost m0 = self.running@;
        if v.len() > 0 {
            self.running.insert(id, v);
            proof {
                lemma_total_insert(m0, id, v);
            }
        } else {
            proof {
                assert(m0.remove(id) =~= m0);
                lemma_total_remove(m0, id);
            }
        }
    }

    /// Take out the instances of `id` (empty when not running).
    fn take_instances(&mut self, id: u128) -> (r: Vec<RuntimeState>)
        requires
            old(self).wf(),
        ensures
            final(self).wf(),
            r@ == old(self).instances(id),
            !final(self).running@.contains_key(id),
            forall|k: u128| k != id ==> #[trigger] final(self).instances(k) == old(self).instances(k),
            final(self).total() + r@.len() == old(self).total(),
            final(self).same_static(&*old(self)),
    {
        let ghost m0 = self.running@;
        let r = match self.running.remove(&id) {
            Some(v) => v,
            None => Vec::new(),
        };
        proof {
            lemma_total_remove(m0, id);
        }
        r
    }

    /// Register a newly spawned instance (it becomes the newest instance).
    pub fn insert_running(&mut self, id: u128, state: RuntimeState)
        requires
            old(self).wf(),
        ensures
            final(self).wf(),
            final(self).instances(id) == old(self).instances(id).push(state),
            final(self).others_unchanged(&*old(self), id),
            final(self).total() == old(self).total() + 1,
            final(self).same_static(&*old(self)),
    {
        let mut v = self.take_instances(id);
        v.push(state);
        self.put_instances(id, v);
    }

    /// Remove the instance at position `pos` of program `id`.
    fn remove_at(&mut self, id: u128, pos: usize) -> (r: RuntimeState)
        requires
            old(self).wf(),
            pos < old(self).instances(id).len(),
        ensures
            final(self).wf(),
            r == old(self).instances(id)[pos as int],
            final(self).instances(id) == old(self).instances(id).remove(pos as int),
            final(self).others_unchanged(&*old(self), id),
            final(self).total() + 1 == old(self).total(),
            final(self).same_static(&*old(self)),
    {
        let mut v = self.take_instances(id);
        let removed = v.remove(pos);
        self.put_instances(id, v);
        removed
    }

    /// Remove the instance with the given pid. When no instance matches (a
    /// race with a restart), the primary instance is removed instead.
    pub fn remove_running_by_pid(&mut self, id: &u128, pid: u32) -> (r: Option<RuntimeState>)
        requires
            old(self).wf(),
        ensures
            final(self).wf(),
            final(self).same_static(&*old(self)),
            final(self).others_unchanged(&*old(self), *id),
            old(self).instances(*id).len() == 0 ==> r is None && final(self).instances(*id)
                == old(self).instances(*id),
            old(self).instances(*id).len() > 0 ==> {
                let pos = spec_pid_position(old(self).instances(*id), pid);
                &&& r == Some(old(self).instances(*id)[pos])
                &&& final(self).instances(*id) == old(self).instances(*id).remove(pos)
                &&& final(self).total() + 1 == old(self).total()
            },
    {
        let pos = match self.running.get(id) {
            Some(v) => position_of_pid(v, pid),
            None => {
                return None;
            },
        };
        Some(self.remove_at(*id, pos))
    }

    /// Remove the primary instance (single-instance exit path).
    pub fn remove_running(&mut self, id: &u128) -> (r: Option<RuntimeState>)
        requires
            old(self).wf(),
        ensures
            final(self).wf(),
            final(self).same_static(&*old(self)),
            final(self).others_unchanged(&*old(self), *id),
            old(self).instances(*id).len() == 0 ==> r is None && final(self).instances(*id)
                == old(self).instances(*id),
            old(self).instances(*id).len() > 0 ==> {
                &&& r == Some(old(self).instances(*id)[0])
                &&& final(self).instances(*id) == old(self).instances(*id).remove(0)
                &&& final(self).total() + 1 == old(self).total()
            },
    {
        if !self.running.contains_key(id) {
            return None;
        }
        Some(self.remove_at(*id, 0))
    }
}

impl ProcessRegistry {
    /// Replace the primary instance of a running program.
    pub fn update_primary(&mut self, id: &u128, st: RuntimeState)
        requires
            old(self).wf(),
            old(self).instances(*id).len() > 0,
        ensures
            final(self).wf(),
            final(self).instances(*id) == old(self).instances(*id).update(0, st),
            final(self).others_unchanged(&*old(self), *id),
            final(self).total() == old(self).total(),
            final(self).same_static(&*old(self)),
    {
        let mut v = self.take_instances(*id);
        v.set(0, st);
        self.put_instances(*id, v);
    }

    /// Set the `stopping` (or, when `restart` is true, the
    /// `restart_requested`) flag of every instance of a program.
    pub fn flag_all(&mut self, id: &u128, restart: bool)
        requires
            old(self).wf(),
        ensures
            final(self).wf(),
            final(self).instances(*id).len() == old(self).instances(*id).len(),
            forall|i: int|
                0 <= i < old(self).instances(*id).len() ==> #[trigger] final(self).instances(*id)[i]
                    == if restart {
                    RuntimeState { restart_requested: true, ..old(self).instances(*id)[i] }
                } else {
                    RuntimeState { stopping: true, ..old(self).instances(*id)[i] }
                },
            final(self).others_unchanged(&*old(self), *id),
            final(self).total() == old(self).total(),
            final(self).same_static(&*old(self)),
    {
        let src = self.take_instances(*id);
        let mut v: Vec<RuntimeState> = Vec::new();
        let mut i: usize = 0;
        while i < src.len()
            invariant
                i <= src@.len(),
                v@.len() == i,
                forall|j: int|
                    0 <= j < i ==> #[trigger] v@[j] == if restart {
                        RuntimeState { restart_requested: true, ..src@[j] }
                    } else {
                        RuntimeState { stopping: true, ..src@[j] }
                    },
            decreases src.len() - i,
        {
            let mut st = src[i].clone();
            if restart {
                st.restart_requested = true;
            } else {
                st.stopping = true;
            }
            v.push(st);
            i = i + 1;
        }
        self.put_instances(*id, v);
    }
}

/// Position of the first instance with `pid`, or 0 when none has it.
pub open spec fn spec_pid_position(s: Seq<RuntimeState>, pid: u32) -> int {
    if exists|i: int| 0 <= i < s.len() && s[i].pid == pid {
        choose|i: int|
            0 <= i < s.len() && s[i].pid == pid && forall|j: int| 0 <= j < i ==> s[j].pid != pid
    } else {
        0
    }
}

fn position_of_pid(v: &Vec<RuntimeState>, pid: u32) -> (r: usize)
    requires
        v@.len() > 0,
    ensures
        r == spec_pid_position(v@, pid),
        r < v@.len(),
{
    let mut i: usize = 0;
    while i < v.len()
        invariant
            i <= v@.len(),
            forall|j: int| 0 <= j < i ==> v@[j].pid != pid,
        decreases v.len() - i,
    {
        if v[i].pid == pid {
            proof {
                let w = choose|w: int|
                    0 <= w < v@.len() && v@[w].pid == pid && forall|j: int|
                        0 <= j < w ==> v@[j].pid != pid;
                assert(0 <= i < v@.len() && v@[i as int].pid == pid && forall|j: int|
                    0 <= j < i ==> v@[j].pid != pid);
                if w < i {
                } else if w > i {
                }
            }
            return i;
        }
        i = i + 1;
    }
    0
}

} // verus!
