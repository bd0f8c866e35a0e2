//! Batch operations on programs: the programs a batch request targets, and
//! the export of the configured programs as a stack.

use vstd::prelude::*;
use crate::create::CreateRequest;
use crate::manager::spec_in_group;
use crate::model::{clone_env, clone_i32s, clone_opt_string, clone_strings, ProgramConfig};
use crate::registry::ProcessRegistry;

verus! {

broadcast use vstd::std_specs::hash::group_hash_axioms;

/// The ids of `ids` that name programs, in order.
pub open spec fn spec_existing(programs: Map<u128, ProgramConfig>, ids: Seq<u128>) -> Seq<u128> {
    ids.filter(|k: u128| programs.contains_key(k))
}

impl ProcessRegistry {
    /// Programs a batch request targets: all of them (`select_all`), else
    /// those of `group`, else those of `ids` that exist (in order, as given),
    /// else none.
    pub fn batch_targets(&self, select_all: bool, group: Option<&str>, ids: Option<&Vec<u128>>) -> (r:
        Vec<u128>)
        ensures
            select_all ==> r@.no_duplicates() && forall|k: u128|
                #[trigger] r@.contains(k) <==> self.programs@.contains_key(k),
            !select_all && group is Some ==> r@.no_duplicates() && forall|k: u128|
                #[trigger] r@.contains(k) <==> (self.programs@.contains_key(k) && spec_in_group(
                    self.programs@[k],
                    group->0@,
                )),
            !select_all && group is None && ids is Some ==> r@ == spec_existing(self.programs@, ids->0@),
            !select_all && group is None && ids is None ==> r@.len() == 0,
    {
        if select_all {
            let r = self.program_ids();
            proof {
                assert forall|a: int, b: int| 0 <= a < r@.len() && 0 <= b < r@.len() && a != b implies r@[a]
                    != r@[b] by {
                    if a < b {
                        assert(r@[a] != r@[b]);
                    } else {
                        assert(r@[b] != r@[a]);
                    }
                }
            }
            r
        } else if let Some(g) = group {
            self.group_members(g)
        } else if let Some(v) = ids {
            let mut out: Vec<u128> = Vec::new();
            let mut i: usize = 0;
            while i < v.len()
                invariant
                    i <= v@.len(),
                    out@ == spec_existing(self.programs@, v@.subrange(0, i as int)),
                decreases v.len() - i,
            {
                let ghost prev = v@.subrange(0, i as int);
                assert(v@.subrange(0, i + 1) =~= prev.push(v@[i as int]));
                proof {
                    prev.lemma_filter_push(v@[i as int], |k: u128| self.programs@.contains_key(k));
                }
                if self.programs.contains_key(&v[i]) {
                    out.push(v[i]);
                }
                i = i + 1;
            }
            assert(v@.subrange(0, v@.len() as int) =~= v@);
            out
        } else {
            Vec::new()
        }
    }
}

/// `req` is the export of configuration `c`: one copy under the program's
/// name with its settings and resource limits, but not its cron policy
/// fields other than the expression.
pub open spec fn spec_exported(req: CreateRequest, c: ProgramConfig) -> bool {
    &&& req.name == Some(c.name)
    &&& req.command == c.command
    &&& req.args@ == c.args@
    &&& req.env@ == c.env@
    &&& req.env_file == c.env_file
    &&& req.cwd == c.cwd
    &&& req.user == c.user
    &&& req.group == c.group
    &&& req.autostart == c.autostart
    &&& req.retry_limit == c.retry_limit
    &&& req.autorestart == c.autorestart
    &&& req.exitcodes@ == c.exitcodes@
    &&& req.startsecs == c.startsecs
    &&& req.stopsecs == c.stopsecs
    &&& req.priority == c.priority
    &&& req.stdout_logfile == c.stdout_logfile
    &&& req.stderr_logfile == c.stderr_logfile
    &&& req.depends_on@ == c.depends_on@
    &&& req.health_check == c.health_check
    &&& req.hooks == c.hooks
    &&& req.artifact == c.artifact
    &&& req.cron == c.cron
    &&& req.on_overlap is None
    &&& req.catchup is None
    &&& req.jitter_sec is None
    &&& req.max_concurrent is None
    &&& req.max_queued is None
    &&& req.numprocs == 1
    &&& req.process_name is None
    &&& req.resource_limits == c.resource_limits
}

/// The stack entry that recreates a configured program.
pub fn export_request(c: &ProgramConfig) -> (r: CreateRequest)
    ensures
        spec_exported(r, *c),
{
    CreateRequest {
        name: Some(c.name.clone()),
        command: c.command.clone(),
        args: clone_strings(&c.args),
        env: clone_env(&c.env),
        env_file: clone_opt_string(&c.env_file),
        cwd: clone_opt_string(&c.cwd),
        user: clone_opt_string(&c.user),
        autostart: c.autostart,
        retry_limit: c.retry_limit,
        autorestart: c.autorestart,
        exitcodes: clone_i32s(&c.exitcodes),
        startsecs: c.startsecs,
        stopsecs: c.stopsecs,
        priority: c.priority,
        stdout_logfile: clone_opt_string(&c.stdout_logfile),
        stderr_logfile: clone_opt_string(&c.stderr_logfile),
        group: clone_opt_string(&c.group),
        depends_on: clone_strings(&c.depends_on),
        health_check: c.health_check,
        hooks: c.hooks.clone(),
        artifact: match &c.artifact {
            Some(a) => Some(a.clone()),
            None => None,
        },
        cron: clone_opt_string(&c.cron),
        on_overlap: None,
        catchup: None,
        jitter_sec: None,
        max_concurrent: None,
        max_queued: None,
        numprocs: 1,
        process_name: None,
        resource_limits: c.resource_limits,
    }
}

impl ProcessRegistry {
    /// Every configured program as a stack entry (in the map's order).
    pub fn export_stack(&self) -> (r: Vec<CreateRequest>)
        ensures
            exists|order: Seq<u128>| #[trigger] spec_export_order(*self, order, r@),
    {
        let ids = self.program_ids();
        let mut out: Vec<CreateRequest> = Vec::new();
        let mut i: usize = 0;
        while i < ids.len()
            invariant
                i <= ids@.len(),
                out@.len() == i,
                forall|k: u128| ids@.contains(k) <==> #[trigger] self.programs@.contains_key(k),
                forall|a: int| 0 <= a < i ==> spec_exported(#[trigger] out@[a], self.programs@[ids@[a]]),
            decreases ids.len() - i,
        {
            assert(ids@.contains(ids@[i as int]));
            let c = match self.programs.get(&ids[i]) {
                Some(c) => c,
                None => {
                    return out;
                },
            };
            out.push(export_request(c));
            i = i + 1;
        }
        assert(spec_export_order(*self, ids@, out@));
        out
    }
}

/// `reqs` exports the programs listed by `order`, which lists each program once.
pub open spec fn spec_export_order(r: ProcessRegistry, order: Seq<u128>, reqs: Seq<CreateRequest>) -> bool {
    &&& forall|a: int, b: int| 0 <= a < b < order.len() ==> order[a] != order[b]
    &&& forall|k: u128| order.contains(k) <==> #[trigger] r.programs@.contains_key(k)
    &&& reqs.len() == order.len()
    &&& forall|a: int| 0 <= a < reqs.len() ==> spec_exported(#[trigger] reqs[a], r.programs@[order[a]])
}

} // verus!
