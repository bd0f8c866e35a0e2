//! The over-the-air upgrade transaction: the destination of a downloaded
//! artifact, the recorded backup that allows a rollback, the restart that
//! loads the new binary, and the verification deadline.

use vstd::prelude::*;
use crate::model::ProgramConfig;
use crate::registry::{ProcessRegistry, RuntimeState};

verus! {

broadcast use vstd::std_specs::hash::group_hash_axioms;

/// How the new binary gets loaded.
#[derive(Clone, Copy, Debug, PartialEq, Eq, Structural)]
pub enum OtaRestart {
    /// Terminate the running instance (flagged as an intended restart).
    Signal { pid: u32 },
    /// Start the program, which is not running.
    Spawn,
}

/// Program `id` has an artifact with a non-empty destination.
pub open spec fn spec_has_destination(r: ProcessRegistry, id: u128) -> bool {
    r.programs@.contains_key(id) && (r.programs@[id].artifact matches Some(a) && a.destination@.len() > 0)
}

impl ProcessRegistry {
    /// Destination of the artifact of program `id`, when the program has an
    /// artifact with a non-empty destination.
    pub fn artifact_destination(&self, id: &u128) -> (r: Option<String>)
        ensures
            match r {
                Some(d) => {
                    &&& self.programs@.contains_key(*id)
                    &&& self.programs@[*id].artifact matches Some(a)
                    &&& a.destination == d
                    &&& d@.len() > 0
                },
                None => !spec_has_destination(*self, *id),
            },
    {
        match self.get_config(id) {
            Some(c) => match &c.artifact {
                Some(a) => {
                    if !a.destination.as_str().is_empty() {
                        Some(a.destination.clone())
                    } else {
                        None
                    }
                },
                None => None,
            },
            None => None,
        }
    }

    /// Record the backup of an upgrade about to be applied at `now`: the
    /// program remembers the backup (so that a failure can be rolled back),
    /// is set to start automatically, and the registry is marked dirty.
    pub fn record_ota_backup(&mut self, id: u128, backup: String, now: u64)
        requires
            old(self).wf(),
        ensures
            final(self).wf(),
            final(self).programs@ == (if old(self).programs@.contains_key(id) {
                old(self).programs@.insert(
                    id,
                    ProgramConfig {
                        restore_path: Some(backup),
                        autostart: true,
                        updated_at: now,
                        ..old(self).programs@[id]
                    },
                )
            } else {
                old(self).programs@
            }),
            final(self).running@ == old(self).running@,
            final(self).dirty,
    {
        match self.programs.remove(&id) {
            Some(mut c) => {
                c.restore_path = Some(backup);
                c.autostart = true;
                c.updated_at = now;
                self.programs.insert(id, c);
            },
            None => {},
        }
        self.dirty = true;
    }

    /// Forget the backup after the swap of the binary failed.
    pub fn abort_ota_swap(&mut self, id: u128)
        requires
            old(self).wf(),
        ensures
            final(self).wf(),
            final(self).programs@ == (if old(self).programs@.contains_key(id) {
                old(self).programs@.insert(id, ProgramConfig { restore_path: None, ..old(self).programs@[id] })
            } else {
                old(self).programs@
            }),
            final(self).running@ == old(self).running@,
            final(self).dirty == old(self).dirty,
    {
        match self.programs.remove(&id) {
            Some(mut c) => {
                c.restore_path = None;
                self.programs.insert(id, c);
            },
            None => {},
        }
    }

    /// Load the new binary: a running program's primary instance is flagged
    /// as an intended restart and is to be terminated; a stopped one is to
    /// be started.
    pub fn ota_restart(&mut self, id: u128) -> (r: OtaRestart)
        requires
            old(self).wf(),
        ensures
            final(self).wf(),
            final(self).same_static(&*old(self)),
            final(self).others_unchanged(&*old(self), id),
            old(self).instances(id).len() == 0 ==> r == OtaRestart::Spawn && final(self).instances(id)
                == old(self).instances(id),
            old(self).instances(id).len() > 0 ==> {
                let st = old(self).instances(id)[0];
                &&& r == OtaRestart::Signal { pid: st.pid }
                &&& final(self).instances(id) == old(self).instances(id).update(
                    0,
                    RuntimeState { restart_requested: true, ..st },
                )
            },
    {
        let st = match self.get_running(&id) {
            Some(s) => s.clone(),
            None => {
                return OtaRestart::Spawn;
            },
        };
        let pid = st.pid;
        let mut st = st;
        st.restart_requested = true;
        self.update_primary(&id, st);
        OtaRestart::Signal { pid }
    }

    /// At the verification deadline of an upgrade: the pid whose process
    /// group is to be killed (forcing the rollback), when the upgrade is
    /// still pending and the primary instance is running and neither
    /// stopping nor restarting.
    pub fn ota_verify_timeout(&self, id: &u128) -> (r: Option<u32>)
        requires
            self.wf(),
        ensures
            match r {
                Some(pid) => {
                    &&& self.programs@.contains_key(*id)
                    &&& self.programs@[*id].restore_path is Some
                    &&& self.instances(*id).len() > 0
                    &&& !self.instances(*id)[0].stopping
                    &&& !self.instances(*id)[0].restart_requested
                    &&& pid == self.instances(*id)[0].pid
                },
                None => !(self.programs@.contains_key(*id) && self.programs@[*id].restore_path is Some
                    && self.instances(*id).len() > 0 && !self.instances(*id)[0].stopping
                    && !self.instances(*id)[0].restart_requested),
            },
    {
        let pending = match self.get_config(id) {
            Some(c) => c.restore_path.is_some(),
            None => false,
        };
        if !pending {
            return None;
        }
        match self.get_running(id) {
            Some(st) => {
                if st.stopping || st.restart_requested {
                    None
                } else {
                    Some(st.pid)
                }
            },
            None => None,
        }
    }
}

} // verus!
