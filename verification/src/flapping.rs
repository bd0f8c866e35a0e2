//! Restart-loop detection: the launches of each long-running program
//! within a window. Only real launches are counted; a start that parks the
//! program while its dependencies come up is not one.

use std::collections::HashMap;
use vstd::prelude::*;
use crate::lifecycle::spec_flapping_message;
use crate::registry::ProcessRegistry;

verus! {

broadcast use vstd::std_specs::hash::group_hash_axioms;

/// History after a launch at `now`: the newest `threshold` launch times.
pub open spec fn spec_record(h: Seq<u64>, now: u64, threshold: u32) -> Seq<u64> {
    let p = h.push(now);
    if p.len() > threshold {
        p.subrange(p.len() - threshold, p.len() as int)
    } else {
        p
    }
}

/// A program whose history holds `threshold` launches (at least one) that
/// all lie within `window_secs` of each other restarts too often.
pub open spec fn spec_flapping(h: Seq<u64>, window_secs: u64, threshold: u32) -> bool {
    threshold > 0 && h.len() >= threshold && h.last() - h[0] <= window_secs
}

/// Launch times of each program, oldest first.
pub struct FlappingTracker {
    starts: HashMap<u128, Vec<u64>>,
}

impl FlappingTracker {
    /// Launch history of a program (empty when none).
    pub closed spec fn history(&self, id: u128) -> Seq<u64> {
        if self.starts@.contains_key(id) {
            self.starts@[id]@
        } else {
            Seq::empty()
        }
    }

    /// No launch recorded.
    pub fn new() -> (r: Self)
        ensures
            forall|id: u128| #[trigger] r.history(id) == Seq::<u64>::empty(),
    {
        FlappingTracker { starts: HashMap::new() }
    }

    /// Record a launch of `id` at `now` (seconds), keeping the newest
    /// `threshold` launches.
    pub fn record_start(&mut self, id: u128, now: u64, threshold: u32)
        ensures
            final(self).history(id) == spec_record(old(self).history(id), now, threshold),
            forall|k: u128| k != id ==> #[trigger] final(self).history(k) == old(self).history(k),
    {
        let mut h = match self.starts.remove(&id) {
            Some(v) => v,
            None => Vec::new(),
        };
        h.push(now);
        let ghost pushed = h@;
        if h.len() > threshold as usize {
            let excess = h.len() - threshold as usize;
            let kept = h.split_off(excess);
            h = kept;
        }
        assert(h@ == spec_record(old(self).history(id), now, threshold));
        self.starts.insert(id, h);
    }

    /// Whether `id` restarts too often (see [`spec_flapping`]).
    pub fn is_flapping(&self, id: u128, window_secs: u64, threshold: u32) -> (r: bool)
        ensures
            r == spec_flapping(self.history(id), window_secs, threshold),
    {
        if threshold == 0 {
            return false;
        }
        match self.starts.get(&id) {
            Some(h) => {
                if h.len() < threshold as usize || h.len() == 0 {
                    false
                } else {
                    let first = h[0];
                    let last = h[h.len() - 1];
                    last >= first && last - first <= window_secs || last < first
                }
            },
            None => false,
        }
    }

    /// The start gate let program `id` launch at `now`: a long-running
    /// program (`track`) has the launch recorded, and when it restarts too
    /// often it is marked Fatal instead (see
    /// [`ProcessRegistry::mark_flapping`]) and must not be launched.
    /// Returns whether to launch.
    pub fn admit_launch(
        &mut self,
        registry: &mut ProcessRegistry,
        id: u128,
        track: bool,
        now: u64,
        window_secs: u64,
        threshold: u32,
    ) -> (r: bool)
        requires
            old(registry).wf(),
        ensures
            final(registry).wf(),
            !track ==> r && final(self).history(id) == old(self).history(id) && *final(registry)
                == *old(registry),
            track ==> final(self).history(id) == spec_record(old(self).history(id), now, threshold),
            forall|k: u128| k != id ==> #[trigger] final(self).history(k) == old(self).history(k),
            track ==> (r == !spec_flapping(final(self).history(id), window_secs, threshold)),
            r ==> *final(registry) == *old(registry),
            !r ==> {
                &&& final(registry).running@ == old(registry).running@
                &&& final(registry).crashed@ == old(registry).crashed@.insert(id)
                &&& final(registry).waiting@ == old(registry).waiting@.remove(id)
                &&& final(registry).restarting@ == old(registry).restarting@.remove(id)
                &&& final(registry).startup_errors@.contains_key(id)
                &&& final(registry).startup_errors@[id]@ == spec_flapping_message(window_secs)
                &&& final(registry).dirty
            },
    {
        if !track {
            return true;
        }
        self.record_start(id, now, threshold);
        if self.is_flapping(id, window_secs, threshold) {
            registry.mark_flapping(id, window_secs, now);
            false
        } else {
            true
        }
    }
}

} // verus!
