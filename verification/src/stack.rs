//! Applying a stack: a list of program requests that the registry is made
//! to match (programs updated or created by name, the others pruned).

use vstd::prelude::*;
use vstd::std_specs::iter::IteratorSpec;
use crate::create::{
    located_cron_message, located_message, spec_cron_error_message, spec_location, spec_request_error_message, spec_request_ok, validate_create_request,
    RequestError, expand_request, new_program_id, spec_copies, spec_copy, spec_copy_name, spec_cron_ok, spec_jitter,
    CreateRequest,
};
use crate::deps::{
    find_cycle, lemma_lists_acyclic, lemma_reorder_acyclic, lemma_sub_acyclic, names_and_deps, spec_deps_of, spec_lists,
    spec_names_of, spec_seq_acyclic, spec_values, texts, texts2,
};
use crate::lifecycle::{spec_has_name, spec_unique_names};
use crate::manager::{spec_or, spec_patched, ManagerState, UpdateError, UpdateOutcome, UpdateRequest};
use crate::model::{clone_opt_string, ProgramConfig, ResourceLimits};
use crate::limits::{spec_limits_error_message, spec_limits_ok, spec_limits_refusal, LimitsError};
use crate::registry::ProcessRegistry;
use crate::scheduler::{parse_schedule, spec_cron_parses, MAX_JITTER_SECS};
use crate::text::{chars_of, concat2, concat3, fmt_u64, spec_dec, spec_uuid_text, uuid_text};

verus! {

/// The entries of a stack: each service's copies, services in order and
/// copies in order, as (request, copy number).
pub open spec fn spec_stack_entries(services: Seq<CreateRequest>) -> Seq<(CreateRequest, nat)>
    decreases services.len(),
{
    if services.len() == 0 {
        Seq::empty()
    } else {
        spec_stack_entries(services.drop_last()) + Seq::new(
            spec_copies(services.last()),
            |i: int| (services.last(), i as nat),
        )
    }
}

/// Program names of a stack's entries.
pub open spec fn spec_stack_names(services: Seq<CreateRequest>) -> Seq<Seq<char>> {
    spec_stack_entries(services).map_values(|e: (CreateRequest, nat)| spec_copy_name(e.0, e.1))
}

/// Number of occurrences of `x` in `s`.
pub open spec fn spec_occurrences(s: Seq<Seq<char>>, x: Seq<char>) -> nat
    decreases s.len(),
{
    if s.len() == 0 {
        0
    } else {
        spec_occurrences(s.drop_last(), x) + if s.last() == x {
            1nat
        } else {
            0nat
        }
    }
}

/// No name occurs twice.
pub open spec fn spec_distinct(s: Seq<Seq<char>>) -> bool {
    forall|i: int, j: int| 0 <= i < j < s.len() ==> s[i] != s[j]
}

proof fn lemma_occurrences_bound(s: Seq<Seq<char>>, x: Seq<char>)
    ensures
        spec_occurrences(s, x) <= s.len(),
    decreases s.len(),
{
    if s.len() > 0 {
        lemma_occurrences_bound(s.drop_last(), x);
    }
}

proof fn lemma_occurrences_one(s: Seq<Seq<char>>, i: int)
    requires
        0 <= i < s.len(),
    ensures
        spec_occurrences(s, s[i]) >= 1,
    decreases s.len(),
{
    if i < s.len() - 1 {
        lemma_occurrences_one(s.drop_last(), i);
    }
}

proof fn lemma_occurrences_two(s: Seq<Seq<char>>, i: int, j: int)
    requires
        0 <= i < j < s.len(),
        s[i] == s[j],
    ensures
        spec_occurrences(s, s[i]) >= 2,
    decreases s.len(),
{
    if j == s.len() - 1 {
        lemma_occurrences_one(s.drop_last(), i);
    } else {
        lemma_occurrences_two(s.drop_last(), i, j);
    }
}

proof fn lemma_occurrences_absent(s: Seq<Seq<char>>, x: Seq<char>)
    requires
        !s.contains(x),
    ensures
        spec_occurrences(s, x) == 0,
    decreases s.len(),
{
    if s.len() > 0 {
        assert(!s.drop_last().contains(x)) by {
            if s.drop_last().contains(x) {
                let k = choose|k: int| 0 <= k < s.len() - 1 && s.drop_last()[k] == x;
                assert(s[k] == x);
            }
        }
        lemma_occurrences_absent(s.drop_last(), x);
        assert(s.last() != x) by {
            if s.last() == x {
                assert(s[s.len() - 1] == x);
            }
        }
    }
}

proof fn lemma_occurrences_distinct(s: Seq<Seq<char>>, i: int)
    requires
        spec_distinct(s),
        0 <= i < s.len(),
    ensures
        spec_occurrences(s, s[i]) == 1,
    decreases s.len(),
{
    let d = s.drop_last();
    if i == s.len() - 1 {
        assert(!d.contains(s[i])) by {
            if d.contains(s[i]) {
                let k = choose|k: int| 0 <= k < d.len() && d[k] == s[i];
                assert(s[k] == s[i]);
            }
        }
        lemma_occurrences_absent(d, s[i]);
    } else {
        assert(spec_distinct(d));
        lemma_occurrences_distinct(d, i);
        assert(s.last() != s[i]);
    }
}

proof fn lemma_occurrences_push(s: Seq<Seq<char>>, y: Seq<char>, x: Seq<char>)
    ensures
        spec_occurrences(s.push(y), x) == spec_occurrences(s, x) + if y == x {
            1nat
        } else {
            0nat
        },
{
    assert(s.push(y).drop_last() =~= s);
}

proof fn lemma_entries_prefix(services: Seq<CreateRequest>, j: int)
    requires
        0 <= j < services.len(),
    ensures
        spec_stack_entries(services.subrange(0, j + 1)) == spec_stack_entries(
            services.subrange(0, j),
        ) + Seq::new(spec_copies(services[j]), |i: int| (services[j], i as nat)),
{
    assert(services.subrange(0, j + 1).drop_last() =~= services.subrange(0, j));
}

/// The configurations of a stack at `now`: each service expanded (see
/// [`expand_request`]), in entry order.
pub fn expand_stack(services: &Vec<CreateRequest>, now: u64) -> (r: Vec<ProgramConfig>)
    ensures
        r@.len() == spec_stack_entries(services@).len(),
        forall|a: int|
            0 <= a < r@.len() ==> spec_copy(
                #[trigger] r@[a],
                spec_stack_entries(services@)[a].0,
                spec_stack_entries(services@)[a].1,
                now,
            ),
{
    let mut out: Vec<ProgramConfig> = Vec::new();
    let mut j: usize = 0;
    while j < services.len()
        invariant
            j <= services@.len(),
            out@.len() == spec_stack_entries(services@.subrange(0, j as int)).len(),
            forall|a: int|
                0 <= a < out@.len() ==> spec_copy(
                    #[trigger] out@[a],
                    spec_stack_entries(services@.subrange(0, j as int))[a].0,
                    spec_stack_entries(services@.subrange(0, j as int))[a].1,
                    now,
                ),
        decreases services.len() - j,
    {
        let ghost before = spec_stack_entries(services@.subrange(0, j as int));
        let ghost o0 = out@;
        proof {
            lemma_entries_prefix(services@, j as int);
        }
        let mut cfgs = expand_request(&services[j], now);
        let ghost cs = cfgs@;
        out.append(&mut cfgs);
        let ghost after = spec_stack_entries(services@.subrange(0, j + 1));
        assert forall|a: int| 0 <= a < out@.len() implies spec_copy(
            #[trigger] out@[a],
            after[a].0,
            after[a].1,
            now,
        ) by {
            if a < o0.len() {
                assert(out@[a] == o0[a]);
                assert(after[a] == before[a]);
            } else {
                assert(out@[a] == cs[a - o0.len()]);
                assert(after[a] == (services@[j as int], (a - o0.len()) as nat));
            }
        }
        j = j + 1;
    }
    assert(services@.subrange(0, services@.len() as int) =~= services@);
    out
}

/// Why a stack was refused.
#[derive(Debug)]
pub enum StackError {
    /// Several entries would get the same program name.
    DuplicateName { name: String, count: usize },
    /// A service is invalid in itself.
    InvalidService { index: usize, name: Option<String>, error: RequestError },
    /// The cron expression of a service does not parse.
    InvalidCron { index: usize, name: Option<String>, expr: String },
    /// A dependency names neither a program nor an entry of the stack.
    UnknownDependency { program: String, dependency: String },
    /// The stack would close a cycle of dependencies.
    DependencyCycle { program: String },
    /// A randomly drawn id was already in use (nothing was changed).
    IdCollision,
}

/// Check that no two entries of the stack get the same program name. When
/// some do, the error names the first entry's name that occurs twice and
/// how many times it occurs.
pub fn validate_stack_service_names(services: &Vec<CreateRequest>) -> (r: Result<(), StackError>)
    ensures
        r is Ok <==> spec_distinct(spec_stack_names(services@)),
        r is Err ==> r matches Err(StackError::DuplicateName { .. }),
        r matches Err(StackError::DuplicateName { name, count }) ==> {
            &&& count == spec_occurrences(spec_stack_names(services@), name@)
            &&& count > 1
        },
{
    let configs = expand_stack(services, 0);
    let ghost names = spec_stack_names(services@);
    let n = configs.len();
    assert forall|a: int| 0 <= a < n implies #[trigger] configs@[a].name@ == names[a] by {
        assert(spec_copy(configs@[a], spec_stack_entries(services@)[a].0, spec_stack_entries(services@)[a].1, 0));
    }
    let mut i: usize = 0;
    while i < n
        invariant
            names == spec_stack_names(services@),
            n == configs@.len() == names.len(),
            i <= n,
            forall|a: int| 0 <= a < n ==> #[trigger] configs@[a].name@ == names[a],
            forall|a: int| 0 <= a < i ==> spec_occurrences(names, #[trigger] names[a]) <= 1,
        decreases n - i,
    {
        let mut count: usize = 0;
        let mut j: usize = 0;
        while j < n
            invariant
                n == configs@.len() == names.len(),
                i < n,
                j <= n,
                forall|a: int| 0 <= a < n ==> #[trigger] configs@[a].name@ == names[a],
                count == spec_occurrences(names.subrange(0, j as int), names[i as int]),
            decreases n - j,
        {
            proof {
                assert(names.subrange(0, j + 1) =~= names.subrange(0, j as int).push(names[j as int]));
                lemma_occurrences_push(names.subrange(0, j as int), names[j as int], names[i as int]);
                lemma_occurrences_bound(names.subrange(0, j as int), names[i as int]);
            }
            if configs[j].name == configs[i].name {
                count = count + 1;
            }
            j = j + 1;
        }
        assert(names.subrange(0, n as int) =~= names);
        if count > 1 {
            proof {
                if spec_distinct(names) {
                    lemma_occurrences_distinct(names, i as int);
                }
            }
            let name = configs[i].name.clone();
            assert(name@ == names[i as int]);
            return Err(StackError::DuplicateName { name, count });
        }
        i = i + 1;
    }
    assert forall|a: int, b: int| 0 <= a < b < names.len() implies names[a] != names[b] by {
        if names[a] == names[b] {
            lemma_occurrences_two(names, a, b);
        }
    }
    Ok(())
}

proof fn lemma_entry_service(services: Seq<CreateRequest>, a: int)
    requires
        0 <= a < spec_stack_entries(services).len(),
    ensures
        exists|i: int| 0 <= i < services.len() && services[i] == (#[trigger] spec_stack_entries(services)[a]).0,
    decreases services.len(),
{
    let d = services.drop_last();
    let head = spec_stack_entries(d);
    if a < head.len() {
        lemma_entry_service(d, a);
        let i = choose|i: int| 0 <= i < d.len() && d[i] == head[a].0;
        assert(services[i] == spec_stack_entries(services)[a].0);
    } else {
        assert(spec_stack_entries(services)[a].0 == services[services.len() - 1]);
    }
}

/// Text of a stack error.
pub open spec fn spec_stack_error_message(e: StackError) -> Seq<char> {
    match e {
        StackError::DuplicateName { name, count } => "Duplicate program name '"@ + name@
            + "' in stack (appears "@ + spec_dec(count as nat) + " times)"@,
        StackError::InvalidService { index, name, error } => spec_location(Some(index), name) + ": "@
            + spec_request_error_message(error),
        StackError::InvalidCron { index, name, expr } => spec_location(Some(index), name) + ": "@
            + spec_cron_error_message(expr@),
        StackError::UnknownDependency { program, dependency } => "depends_on: program '"@ + program@
            + "' depends on unknown program '"@ + dependency@ + "'"@,
        StackError::DependencyCycle { program } => "depends_on: dependency cycle involving program '"@
            + program@ + "'"@,
        StackError::IdCollision => "Generated program id is already in use"@,
    }
}

impl StackError {
    pub fn message(&self) -> (r: String)
        ensures
            r@ == spec_stack_error_message(*self),
    {
        match self {
            StackError::DuplicateName { name, count } => {
                let a = concat3("Duplicate program name '", name.as_str(), "' in stack (appears ");
                let c = fmt_u64(*count as u64);
                concat3(a.as_str(), c.as_str(), " times)")
            },
            StackError::InvalidService { index, name, error } => located_message(Some(*index), name, *error),
            StackError::InvalidCron { index, name, expr } => located_cron_message(
                Some(*index),
                name,
                expr.as_str(),
            ),
            StackError::UnknownDependency { program, dependency } => {
                let a = concat3("depends_on: program '", program.as_str(), "' depends on unknown program '");
                concat3(a.as_str(), dependency.as_str(), "'")
            },
            StackError::DependencyCycle { program } => {
                concat3("depends_on: dependency cycle involving program '", program.as_str(), "'")
            },
            StackError::IdCollision => "Generated program id is already in use".to_owned(),
        }
    }
}

/// A service is valid in itself and its cron expression, if any, parses.
pub open spec fn spec_service_ok(req: CreateRequest) -> bool {
    spec_request_ok(req) && spec_cron_ok(req)
}

/// The services before the `n`th are valid.
pub open spec fn spec_services_ok_before(services: Seq<CreateRequest>, n: int) -> bool {
    forall|i: int| 0 <= i < n ==> spec_service_ok(#[trigger] services[i])
}

/// Why a stack is refused before anything is drawn or changed, in the
/// order of the checks: `0` two entries get the same name; `1` the first
/// service that fails is invalid in itself; `2` it is valid in itself but
/// its cron expression does not parse; `3` a dependency names neither a
/// program nor an entry; `4` the dependencies close a cycle.
pub open spec fn spec_stack_refusal(before: Map<u128, ProgramConfig>, services: Seq<CreateRequest>) -> Option<u8> {
    if !spec_distinct(spec_stack_names(services)) {
        Some(0u8)
    } else if exists|i: int|
        0 <= i < services.len() && spec_services_ok_before(services, i) && !spec_request_ok(
            #[trigger] services[i],
        ) {
        Some(1u8)
    } else if !spec_services_ok_before(services, services.len() as int) {
        Some(2u8)
    } else if !spec_stack_deps_known(before, services) {
        Some(3u8)
    } else if spec_stack_cycle(before, services) {
        Some(4u8)
    } else {
        None
    }
}

/// The limits are refused by an update, for the reason `e`.
pub open spec fn spec_refuses_limits(l: Option<ResourceLimits>, e: LimitsError) -> bool {
    l matches Some(p) && spec_limits_refusal(p) == Some(e)
}

/// Every entry that updates an existing program carries resource limits
/// that an update accepts.
pub open spec fn spec_stack_limits_ok(before: Map<u128, ProgramConfig>, services: Seq<CreateRequest>) -> bool {
    forall|a: int|
        0 <= a < spec_stack_entries(services).len() && spec_has_name(
            before,
            #[trigger] spec_stack_names(services)[a],
        ) ==> spec_limits_ok(spec_stack_entries(services)[a].0.resource_limits)
}

/// The update a stack sends to an existing program of the same name: every
/// field of the entry's configuration but its environment file.
pub open spec fn spec_stack_update(c: ProgramConfig) -> UpdateRequest {
    UpdateRequest {
        name: Some(c.name),
        command: Some(c.command),
        args: Some(c.args),
        env: Some(c.env),
        env_file: None,
        cwd: c.cwd,
        user: c.user,
        group: c.group,
        cron: c.cron,
        on_overlap: c.on_overlap,
        catchup: c.catchup,
        jitter_sec: c.jitter_sec,
        max_concurrent: c.max_concurrent,
        max_queued: c.max_queued,
        autostart: Some(c.autostart),
        retry_limit: Some(c.retry_limit),
        autorestart: Some(c.autorestart),
        exitcodes: Some(c.exitcodes),
        startsecs: Some(c.startsecs),
        stopsecs: c.stopsecs,
        priority: Some(c.priority),
        stdout_logfile: c.stdout_logfile,
        stderr_logfile: c.stderr_logfile,
        depends_on: Some(c.depends_on),
        health_check: c.health_check,
        hooks: Some(c.hooks),
        artifact: c.artifact,
        resource_limits: c.resource_limits,
    }
}

fn stack_update(c: ProgramConfig) -> (r: UpdateRequest)
    ensures
        r == spec_stack_update(c),
{
    UpdateRequest {
        name: Some(c.name),
        command: Some(c.command),
        args: Some(c.args),
        env: Some(c.env),
        env_file: None,
        cwd: c.cwd,
        user: c.user,
        group: c.group,
        cron: c.cron,
        on_overlap: c.on_overlap,
        catchup: c.catchup,
        jitter_sec: c.jitter_sec,
        max_concurrent: c.max_concurrent,
        max_queued: c.max_queued,
        autostart: Some(c.autostart),
        retry_limit: Some(c.retry_limit),
        autorestart: Some(c.autorestart),
        exitcodes: Some(c.exitcodes),
        startsecs: Some(c.startsecs),
        stopsecs: c.stopsecs,
        priority: Some(c.priority),
        stdout_logfile: c.stdout_logfile,
        stderr_logfile: c.stderr_logfile,
        depends_on: Some(c.depends_on),
        health_check: c.health_check,
        hooks: Some(c.hooks),
        artifact: c.artifact,
        resource_limits: c.resource_limits,
    }
}

/// What happened to one entry of an applied stack.
#[derive(Debug)]
pub struct StackEntry {
    /// Program of the entry.
    pub id: u128,
    /// The program was created (no program had the entry's name).
    pub created: bool,
    /// The caller starts the program now.
    pub start: bool,
    /// For an existing program, the accepted update (what the caller does next).
    pub update: Option<UpdateOutcome>,
    /// For an existing program whose update was refused, why: the program is
    /// left as it was and the stack goes on.
    pub refused: Option<LimitsError>,
}

/// What happened to one pruned program.
#[derive(Debug)]
pub struct PruneResult {
    pub id: u128,
    pub name: String,
    /// The removed configuration; `None` when the program was running and stayed.
    pub removed: Option<ProgramConfig>,
}

/// Result of an applied stack.
#[derive(Debug)]
pub struct StackOutcome {
    pub logs: Vec<String>,
    /// One per stack entry, in entry order.
    pub entries: Vec<StackEntry>,
    /// Programs not named by the stack, when pruning.
    pub pruned: Vec<PruneResult>,
}

/// Log line of a stack entry.
pub open spec fn spec_entry_log(name: Seq<char>, created: bool) -> Seq<char> {
    if created {
        "Creating service: "@ + name
    } else {
        "Updating service: "@ + name
    }
}

/// Log lines of one entry: what was done, and for a refused update why.
pub open spec fn spec_entry_lines(name: Seq<char>, e: StackEntry) -> Seq<Seq<char>> {
    match e.refused {
        Some(l) => seq![
            spec_entry_log(name, e.created),
            "Failed to update "@ + name + ": "@ + spec_limits_error_message(l),
        ],
        None => seq![spec_entry_log(name, e.created)],
    }
}

/// Log lines of the entries, in entry order (`names[a]` names entry `a`).
pub open spec fn spec_entries_logs(names: Seq<Seq<char>>, es: Seq<StackEntry>) -> Seq<Seq<char>>
    decreases es.len(),
{
    if es.len() == 0 {
        Seq::empty()
    } else {
        spec_entries_logs(names, es.drop_last()) + spec_entry_lines(names[es.len() - 1], es.last())
    }
}

/// Log lines of the pruned programs.
pub open spec fn spec_prune_logs(p: Seq<PruneResult>) -> Seq<Seq<char>>
    decreases p.len(),
{
    if p.len() == 0 {
        Seq::empty()
    } else {
        let r = p.last();
        spec_prune_logs(p.drop_last()) + seq![
            "Pruning service: "@ + r.name@ + " ("@ + spec_uuid_text(r.id) + ")"@,
        ] + if r.removed is None {
            seq!["Failed to prune "@ + r.name@ + ": "@ + "Cannot remove running program"@]
        } else {
            Seq::<Seq<char>>::empty()
        }
    }
}

/// The configuration's cron expression, if any, parses.
pub open spec fn spec_cron_valid(c: ProgramConfig) -> bool {
    c.cron matches Some(e) ==> spec_cron_parses(e@)
}

/// Texts of log lines.
pub open spec fn spec_texts(v: Seq<String>) -> Seq<Seq<char>> {
    v.map_values(|s: String| s@)
}

impl ManagerState {
    /// For each configuration (of distinct names), the program it applies
    /// to: the existing program of that name, or a new random id.
    fn stack_targets(&self, configs: &Vec<ProgramConfig>) -> (r: Result<(Vec<u128>, Vec<bool>), StackError>)
        requires
            forall|a: int, b: int|
                0 <= a < b < configs@.len() ==> configs@[a].name@ != configs@[b].name@,
        ensures
            r is Err ==> r matches Err(StackError::IdCollision),
            r is Err ==> exists|a: int|
                0 <= a < configs@.len() && !spec_has_name(self.registry.programs@, #[trigger] configs@[a].name@),
            r matches Ok((tg, cr)) ==> {
                &&& tg@.len() == configs@.len()
                &&& cr@.len() == configs@.len()
                &&& forall|a: int, b: int| 0 <= a < b < tg@.len() ==> tg@[a] != tg@[b]
                &&& forall|a: int|
                    0 <= a < tg@.len() ==> {
                        &&& #[trigger] cr@[a] == !spec_has_name(self.registry.programs@, configs@[a].name@)
                        &&& cr@[a] ==> !self.registry.programs@.contains_key(tg@[a])
                            && !self.scheduler@.contains_key(tg@[a])
                        &&& !cr@[a] ==> self.registry.programs@.contains_key(tg@[a])
                            && self.registry.programs@[tg@[a]].name@ == configs@[a].name@
                    }
            },
    {
        let n = configs.len();
        let mut tg: Vec<u128> = Vec::new();
        let mut cr: Vec<bool> = Vec::new();
        let mut a: usize = 0;
        while a < n
            invariant
                n == configs@.len(),
                a <= n,
                tg@.len() == a,
                cr@.len() == a,
                forall|x: int, y: int|
                    0 <= x < y < configs@.len() ==> configs@[x].name@ != configs@[y].name@,
                forall|x: int, y: int| 0 <= x < y < tg@.len() ==> tg@[x] != tg@[y],
                forall|x: int|
                    0 <= x < tg@.len() ==> {
                        &&& #[trigger] cr@[x] == !spec_has_name(self.registry.programs@, configs@[x].name@)
                        &&& cr@[x] ==> !self.registry.programs@.contains_key(tg@[x])
                            && !self.scheduler@.contains_key(tg@[x])
                        &&& !cr@[x] ==> self.registry.programs@.contains_key(tg@[x])
                            && self.registry.programs@[tg@[x]].name@ == configs@[x].name@
                    },
            decreases n - a,
        {
            match self.registry.find_program_id_by_name(&configs[a].name) {
                Some(k) => {
                    proof {
                        assert forall|x: int| 0 <= x < a implies tg@[x] != k by {
                            if !cr@[x] {
                                assert(configs@[x].name@ != configs@[a as int].name@);
                            }
                        }
                    }
                    tg.push(k);
                    cr.push(false);
                },
                None => {
                    let id = new_program_id();
                    if self.registry.get_config(&id).is_some() || self.scheduler.get_next_run(&id).is_some() {
                        return Err(StackError::IdCollision);
                    }
                    let mut j: usize = 0;
                    while j < tg.len()
                        invariant
                            j <= tg@.len(),
                            forall|x: int| 0 <= x < j ==> tg@[x] != id,
                            a < configs@.len(),
                            !spec_has_name(self.registry.programs@, configs@[a as int].name@),
                        decreases tg.len() - j,
                    {
                        if tg[j] == id {
                            return Err(StackError::IdCollision);
                        }
                        j = j + 1;
                    }
                    tg.push(id);
                    cr.push(true);
                },
            }
            a = a + 1;
        }
        Ok((tg, cr))
    }
}

/// Names of a list of configurations.
pub open spec fn spec_config_names(cs: Seq<ProgramConfig>) -> Seq<Seq<char>> {
    cs.map_values(|c: ProgramConfig| c.name@)
}

/// Entry `e` of a stack updated a program from `before` to `after` with
/// configuration `c`: the update is applied when its resource limits are
/// accepted; otherwise the program stays as it was and `e` says why.
pub open spec fn spec_entry_updated(
    before: ProgramConfig,
    after: ProgramConfig,
    c: ProgramConfig,
    e: StackEntry,
    now: u64,
) -> bool {
    &&& !e.start
    &&& e.refused is None <==> spec_limits_ok(c.resource_limits)
    &&& e.refused is None ==> after == spec_patched(before, spec_stack_update(c), now) && e.update is Some
    &&& e.refused matches Some(l) ==> after == before && e.update is None && spec_refuses_limits(
        c.resource_limits,
        l,
    )
}

impl ManagerState {
    /// Apply each configuration to its target program `tg[a]`: update the
    /// existing one (`cr[a]` false), or create the new one under the id drawn
    /// for it (`cr[a]` true). Returns the log lines and one entry per
    /// configuration.
    pub fn apply_entries(
        &mut self,
        configs: Vec<ProgramConfig>,
        tg: &Vec<u128>,
        cr: &Vec<bool>,
        now: u64,
    ) -> (r: (Vec<String>, Vec<StackEntry>))
        requires
            old(self).wf(),
            tg@.len() == configs@.len(),
            cr@.len() == configs@.len(),
            forall|a: int, b: int| 0 <= a < b < tg@.len() ==> tg@[a] != tg@[b],
            forall|a: int|
                0 <= a < tg@.len() ==> {
                    &&& #[trigger] cr@[a] ==> !old(self).registry.programs@.contains_key(tg@[a])
                    &&& !cr@[a] ==> old(self).registry.programs@.contains_key(tg@[a])
                        && old(self).registry.programs@[tg@[a]].name@ == configs@[a].name@
                        && spec_jitter(old(self).registry.programs@[tg@[a]]) <= MAX_JITTER_SECS
                },
            forall|a: int|
                0 <= a < configs@.len() ==> spec_cron_valid(#[trigger] configs@[a]),
            forall|a: int| 0 <= a < configs@.len() ==> spec_jitter(#[trigger] configs@[a]) <= MAX_JITTER_SECS,
        ensures
            final(self).wf(),
            r.1@.len() == configs@.len(),
            spec_texts(r.0@) == spec_entries_logs(spec_config_names(configs@), r.1@),
            forall|a: int|
                0 <= a < configs@.len() ==> {
                    let e = #[trigger] r.1@[a];
                    let t = tg@[a];
                    &&& e.id == t
                    &&& e.created == cr@[a]
                    &&& cr@[a] ==> final(self).registry.programs@[t] == configs@[a] && e.start == (
                    configs@[a].autostart && configs@[a].cron is None) && e.update is None && e.refused is None
                    &&& !cr@[a] ==> spec_entry_updated(
                        old(self).registry.programs@[t],
                        final(self).registry.programs@[t],
                        configs@[a],
                        e,
                        now,
                    )
                },
            forall|k: u128|
                #[trigger] final(self).registry.programs@.contains_key(k) <==> (old(self).registry.programs@.contains_key(k)
                    || tg@.contains(k)),
            forall|k: u128|
                #[trigger] old(self).registry.programs@.contains_key(k) && !tg@.contains(k) ==> final(self).registry.programs@[k]
                    == old(self).registry.programs@[k],
            final(self).registry.running@ == old(self).registry.running@,
    {
        let ghost cs = configs@;
        let ghost s0 = *self;
        let mut configs = configs;
        let n = tg.len();
        let mut logs: Vec<String> = Vec::new();
        let mut entries: Vec<StackEntry> = Vec::new();
        let mut i: usize = 0;
        while i < n
            invariant
                n == tg@.len() == cr@.len() == cs.len(),
                i <= n,
                configs@ == cs.subrange(i as int, n as int),
                self.wf(),
                entries@.len() == i,
                forall|a: int, b: int| 0 <= a < b < tg@.len() ==> tg@[a] != tg@[b],
                forall|a: int|
                    0 <= a < tg@.len() ==> {
                        &&& #[trigger] cr@[a] ==> !s0.registry.programs@.contains_key(tg@[a])
                        &&& !cr@[a] ==> s0.registry.programs@.contains_key(tg@[a])
                            && s0.registry.programs@[tg@[a]].name@ == cs[a].name@
                            && spec_jitter(s0.registry.programs@[tg@[a]]) <= MAX_JITTER_SECS
                    },
                forall|a: int| 0 <= a < cs.len() ==> spec_cron_valid(#[trigger] cs[a]),
                forall|a: int| 0 <= a < cs.len() ==> spec_jitter(#[trigger] cs[a]) <= MAX_JITTER_SECS,
                spec_texts(logs@) == spec_entries_logs(spec_config_names(cs), entries@),
                forall|a: int|
                    0 <= a < i ==> {
                        let e = #[trigger] entries@[a];
                        let t = tg@[a];
                        &&& e.id == t
                        &&& e.created == cr@[a]
                        &&& cr@[a] ==> self.registry.programs@[t] == cs[a] && e.start == (
                        cs[a].autostart && cs[a].cron is None) && e.update is None && e.refused is None
                        &&& !cr@[a] ==> spec_entry_updated(
                            s0.registry.programs@[t],
                            self.registry.programs@[t],
                            cs[a],
                            e,
                            now,
                        )
                    },
                forall|k: u128|
                    #[trigger] self.registry.programs@.contains_key(k) <==> (s0.registry.programs@.contains_key(k)
                        || tg@.subrange(0, i as int).contains(k)),
                forall|k: u128|
                    #[trigger] s0.registry.programs@.contains_key(k) && !tg@.subrange(0, i as int).contains(k)
                        ==> self.registry.programs@[k] == s0.registry.programs@[k],
                self.registry.running@ == s0.registry.running@,
            decreases n - i,
        {
            let config = configs.remove(0);
            assert(config == cs[i as int]);
            let id = tg[i];
            let ghost prev = tg@.subrange(0, i as int);
            let ghost nxt = tg@.subrange(0, i + 1);
            proof {
                assert forall|k: u128| nxt.contains(k) <==> (prev.contains(k) || k == id) by {
                    if nxt.contains(k) {
                        let x = choose|x: int| 0 <= x < nxt.len() && nxt[x] == k;
                        if x < i {
                            assert(prev[x] == k);
                        }
                    }
                    if prev.contains(k) {
                        let x = choose|x: int| 0 <= x < prev.len() && prev[x] == k;
                        assert(nxt[x] == k);
                    }
                    if k == id {
                        assert(nxt[i as int] == k);
                    }
                }
                assert(!prev.contains(id)) by {
                    if prev.contains(id) {
                        let x = choose|x: int| 0 <= x < prev.len() && prev[x] == id;
                        assert(tg@[x] == tg@[i as int]);
                    }
                }
                assert forall|x: int| 0 <= x < i implies tg@[x] != id by {}
            }
            let ghost progs0 = self.registry.programs@;
            let ghost ent0 = entries@;
            let ghost logs0 = logs@;
            let name = config.name.clone();
            if !cr[i] {
                logs.push(concat2("Updating service: ", name.as_str()));
                proof {
                    assert(progs0[id] == s0.registry.programs@[id]);
                }
                let upd = stack_update(config);
                let ghost cfg_i = cs[i as int];
                match self.apply_update(id, upd, now) {
                    Ok(o) => {
                        entries.push(StackEntry { id, created: false, start: false, update: Some(o), refused: None });
                    },
                    Err(UpdateError::ResourceLimits(le)) => {
                        let m = le.message();
                        let a = concat3("Failed to update ", name.as_str(), ": ");
                        logs.push(concat2(a.as_str(), m.as_str()));
                        entries.push(StackEntry { id, created: false, start: false, update: None, refused: Some(le) });
                    },
                    Err(_) => {
                        proof {
                            assert(false);
                        }
                        entries.push(StackEntry { id, created: false, start: false, update: None, refused: None });
                    },
                }
            } else {
                logs.push(concat2("Creating service: ", name.as_str()));
                let mut start = config.autostart;
                let jitter: u64 = match config.jitter_sec {
                    Some(j) => j,
                    None => 0,
                };
                if let Some(expr) = &config.cron {
                    start = false;
                    self.scheduler.upsert(id, expr.as_str(), jitter, None);
                }
                self.registry.programs.insert(id, config);
                self.registry.dirty = true;
                entries.push(StackEntry { id, created: true, start, update: None, refused: None });
            }
            proof {
                assert(entries@.drop_last() == ent0);
                assert(spec_texts(logs@) =~= spec_entries_logs(spec_config_names(cs), entries@));
                assert forall|a: int| 0 <= a < i + 1 implies {
                    let e = #[trigger] entries@[a];
                    let t = tg@[a];
                    &&& e.id == t
                    &&& e.created == cr@[a]
                    &&& cr@[a] ==> self.registry.programs@[t] == cs[a] && e.start == (
                    cs[a].autostart && cs[a].cron is None) && e.update is None && e.refused is None
                    &&& !cr@[a] ==> spec_entry_updated(
                        s0.registry.programs@[t],
                        self.registry.programs@[t],
                        cs[a],
                        e,
                        now,
                    )
                } by {
                    if a < i {
                        assert(entries@[a] == ent0[a]);
                        assert(tg@[a] != id);
                    }
                }
            }
            i = i + 1;
        }
        assert(tg@.subrange(0, n as int) =~= tg@);
        (logs, entries)
    }
}

/// Whether `name` is one of `names`.
fn name_in(names: &Vec<String>, name: &String) -> (r: bool)
    ensures
        r == spec_texts(names@).contains(name@),
{
    let mut i: usize = 0;
    while i < names.len()
        invariant
            i <= names@.len(),
            forall|x: int| 0 <= x < i ==> names@[x]@ != name@,
        decreases names.len() - i,
    {
        if names[i] == *name {
            assert(spec_texts(names@)[i as int] == name@);
            return true;
        }
        i = i + 1;
    }
    proof {
        if spec_texts(names@).contains(name@) {
            let x = choose|x: int| 0 <= x < names@.len() && spec_texts(names@)[x] == name@;
            assert(names@[x]@ == name@);
        }
    }
    false
}

impl ManagerState {
    /// Programs whose names are not among `names`, each once.
    fn unnamed_programs(&self, names: &Vec<String>) -> (r: Vec<u128>)
        ensures
            forall|a: int, b: int| 0 <= a < b < r@.len() ==> r@[a] != r@[b],
            forall|k: u128|
                r@.contains(k) <==> (#[trigger] self.registry.programs@.contains_key(k) && !spec_texts(
                    names@,
                ).contains(self.registry.programs@[k].name@)),
    {
        let ghost m = self.registry.programs@;
        let ghost items = vstd::std_specs::hash::spec_hash_map_iter(&self.registry.programs).remaining();
        proof {
            vstd::std_specs::hash::axiom_spec_hash_map_iter(&self.registry.programs);
        }
        let mut out: Vec<u128> = Vec::new();
        for pair in it: self.registry.programs.iter()
            invariant
                m == self.registry.programs@,
                it.seq() == items,
                it.seq().len() == m.dom().len(),
                forall|i: int|
                    0 <= i < it.seq().len() ==> m.contains_key(*(#[trigger] it.seq()[i]).0) && m[*it.seq()[i].0]
                        == *it.seq()[i].1,
                forall|k: u128| #[trigger] m.contains_key(k) ==> it.seq().contains((&k, &m[k])),
                forall|a: int, b: int| 0 <= a < b < out@.len() ==> out@[a] != out@[b],
                forall|k: u128|
                    #[trigger] out@.contains(k) ==> (m.contains_key(k) && !spec_texts(names@).contains(m[k].name@)),
                forall|i: int|
                    0 <= i < it.index() ==> (!spec_texts(names@).contains((#[trigger] it.seq()[i]).1.name@)
                        ==> out@.contains(*it.seq()[i].0)),
        {
            let (k, v) = pair;
            let ghost o0 = out@;
            proof {
                assert(m.contains_key(*k) && m[*k] == *v) by {
                    assert(it.seq()[it.index() as int] == (k, v));
                }
            }
            if !name_in(names, &v.name) {
                let mut seen = false;
                let mut j: usize = 0;
                while j < out.len()
                    invariant
                        j <= out@.len(),
                        seen == exists|x: int| 0 <= x < j && out@[x] == *k,
                    decreases out.len() - j,
                {
                    if out[j] == *k {
                        seen = true;
                    }
                    j = j + 1;
                }
                if !seen {
                    out.push(*k);
                    proof {
                        assert forall|kk: u128| #[trigger] out@.contains(kk) implies (m.contains_key(kk)
                            && !spec_texts(names@).contains(m[kk].name@)) by {
                            if kk != *k {
                                let x = choose|x: int| 0 <= x < out@.len() && out@[x] == kk;
                                assert(o0[x] == kk);
                                assert(o0.contains(kk));
                            }
                        }
                        assert(out@[out@.len() - 1] == *k);
                    }
                } else {
                    proof {
                        let x = choose|x: int| 0 <= x < out@.len() && out@[x] == *k;
                        assert(out@.contains(*k));
                    }
                }
            }
            proof {
                assert forall|kk: u128| o0.contains(kk) implies out@.contains(kk) by {
                    let x = choose|x: int| 0 <= x < o0.len() && o0[x] == kk;
                    assert(out@[x] == kk);
                }
            }
        }
        proof {
            assert forall|k: u128| (#[trigger] m.contains_key(k) && !spec_texts(names@).contains(m[k].name@))
                implies out@.contains(k) by {
                let i = choose|i: int| 0 <= i < items.len() && items[i] == (&k, &m[k]);
                assert(!spec_texts(names@).contains(items[i].1.name@));
            }
        }
        out
    }

    /// Remove the programs not named by the stack; running ones stay.
    fn prune_unnamed(&mut self, names: &Vec<String>) -> (r: (Vec<String>, Vec<PruneResult>))
        requires
            old(self).wf(),
        ensures
            final(self).wf(),
            forall|a: int, b: int| 0 <= a < b < r.1@.len() ==> r.1@[a].id != r.1@[b].id,
            forall|a: int|
                0 <= a < r.1@.len() ==> {
                    let p = #[trigger] r.1@[a];
                    &&& old(self).registry.programs@.contains_key(p.id)
                    &&& !spec_texts(names@).contains(old(self).registry.programs@[p.id].name@)
                    &&& p.name@ == old(self).registry.programs@[p.id].name@
                    &&& p.removed is None <==> old(self).registry.instances(p.id).len() > 0
                    &&& p.removed matches Some(c) ==> c == old(self).registry.programs@[p.id]
                },
            forall|k: u128|
                #[trigger] old(self).registry.programs@.contains_key(k) && !spec_texts(names@).contains(
                    old(self).registry.programs@[k].name@,
                ) ==> exists|a: int| 0 <= a < r.1@.len() && r.1@[a].id == k,
            forall|k: u128|
                #[trigger] final(self).registry.programs@.contains_key(k) <==> (old(self).registry.programs@.contains_key(k)
                    && (spec_texts(names@).contains(old(self).registry.programs@[k].name@)
                    || old(self).registry.instances(k).len() > 0)),
            forall|k: u128|
                #[trigger] final(self).registry.programs@.contains_key(k) ==> final(self).registry.programs@[k]
                    == old(self).registry.programs@[k],
            spec_texts(r.0@) == spec_prune_logs(r.1@),
            final(self).registry.running@ == old(self).registry.running@,
    {
        let cands = self.unnamed_programs(names);
        let ghost s0 = *self;
        let mut logs: Vec<String> = Vec::new();
        let mut pruned: Vec<PruneResult> = Vec::new();
        let mut j: usize = 0;
        while j < cands.len()
            invariant
                j <= cands@.len(),
                self.wf(),
                forall|a: int, b: int| 0 <= a < b < cands@.len() ==> cands@[a] != cands@[b],
                forall|k: u128|
                    cands@.contains(k) <==> (#[trigger] s0.registry.programs@.contains_key(k) && !spec_texts(
                        names@,
                    ).contains(s0.registry.programs@[k].name@)),
                pruned@.len() == j,
                forall|a: int| 0 <= a < j ==> (#[trigger] pruned@[a]).id == cands@[a],
                forall|a: int|
                    0 <= a < j ==> {
                        let p = #[trigger] pruned@[a];
                        &&& s0.registry.programs@.contains_key(p.id)
                        &&& !spec_texts(names@).contains(s0.registry.programs@[p.id].name@)
                        &&& p.name@ == s0.registry.programs@[p.id].name@
                        &&& p.removed is None <==> s0.registry.instances(p.id).len() > 0
                        &&& p.removed matches Some(c) ==> c == s0.registry.programs@[p.id]
                    },
                forall|k: u128|
                    #[trigger] self.registry.programs@.contains_key(k) <==> (s0.registry.programs@.contains_key(k)
                        && !(cands@.subrange(0, j as int).contains(k) && s0.registry.instances(k).len() == 0)),
                forall|k: u128|
                    #[trigger] self.registry.programs@.contains_key(k) ==> self.registry.programs@[k]
                        == s0.registry.programs@[k],
                spec_texts(logs@) == spec_prune_logs(pruned@),
                self.registry.running@ == s0.registry.running@,
            decreases cands.len() - j,
        {
            let id = cands[j];
            let ghost prev = cands@.subrange(0, j as int);
            let ghost nxt = cands@.subrange(0, j + 1);
            proof {
                assert forall|k: u128| nxt.contains(k) <==> (prev.contains(k) || k == id) by {
                    if nxt.contains(k) {
                        let x = choose|x: int| 0 <= x < nxt.len() && nxt[x] == k;
                        if x < j {
                            assert(prev[x] == k);
                        }
                    }
                    if prev.contains(k) {
                        let x = choose|x: int| 0 <= x < prev.len() && prev[x] == k;
                        assert(nxt[x] == k);
                    }
                    if k == id {
                        assert(nxt[j as int] == k);
                    }
                }
                assert(!prev.contains(id)) by {
                    if prev.contains(id) {
                        let x = choose|x: int| 0 <= x < prev.len() && prev[x] == id;
                        assert(cands@[x] == cands@[j as int]);
                    }
                }
                assert(cands@.contains(id)) by {
                    assert(cands@[j as int] == id);
                }
            }
            let ghost p0 = pruned@;
            let ghost l0 = logs@;
            let name: String = match self.registry.get_config(&id) {
                Some(c) => c.name.clone(),
                None => String::new(),
            };
            assert(name@ == s0.registry.programs@[id].name@);
            let u = uuid_text(id);
            let a = concat3("Pruning service: ", name.as_str(), " (");
            logs.push(concat3(a.as_str(), u.as_str(), ")"));
            let ghost l1 = logs@;
            assert(self.registry.programs@.contains_key(id));
            let res = match self.handle_remove(id) {
                Ok(c) => PruneResult { id, name, removed: Some(c) },
                Err(e) => {
                    assert(e is Running);
                    let b = concat3("Failed to prune ", name.as_str(), ": ");
                    logs.push(concat2(b.as_str(), e.message()));
                    PruneResult { id, name, removed: None }
                },
            };
            pruned.push(res);
            proof {
                assert(pruned@.drop_last() =~= p0);
                assert(spec_texts(l1) =~= spec_texts(l0).push(l1[l1.len() - 1]@));
                if res.removed is None {
                    assert(spec_texts(logs@) =~= spec_texts(l1).push(logs@[logs@.len() - 1]@));
                } else {
                    assert(logs@ == l1);
                }
                let r = pruned@[pruned@.len() - 1];
                assert(spec_prune_logs(pruned@) == spec_prune_logs(p0) + seq![
                    "Pruning service: "@ + r.name@ + " ("@ + spec_uuid_text(r.id) + ")"@,
                ] + if r.removed is None {
                    seq!["Failed to prune "@ + r.name@ + ": "@ + "Cannot remove running program"@]
                } else {
                    Seq::<Seq<char>>::empty()
                });
                assert(spec_texts(logs@) =~= spec_prune_logs(pruned@));
                assert forall|x: int| 0 <= x < j + 1 implies (#[trigger] pruned@[x]).id == cands@[x] by {
                    if x < j {
                        assert(pruned@[x] == p0[x]);
                    }
                }
                assert forall|x: int| 0 <= x < j + 1 implies {
                    let p = #[trigger] pruned@[x];
                    &&& s0.registry.programs@.contains_key(p.id)
                    &&& !spec_texts(names@).contains(s0.registry.programs@[p.id].name@)
                    &&& p.name@ == s0.registry.programs@[p.id].name@
                    &&& p.removed is None <==> s0.registry.instances(p.id).len() > 0
                    &&& p.removed matches Some(c) ==> c == s0.registry.programs@[p.id]
                } by {
                    if x < j {
                        assert(pruned@[x] == p0[x]);
                    }
                }
            }
            j = j + 1;
        }
        proof {
            assert(cands@.subrange(0, cands@.len() as int) =~= cands@);
            assert forall|k: u128|
                #[trigger] s0.registry.programs@.contains_key(k) && !spec_texts(names@).contains(
                    s0.registry.programs@[k].name@,
                ) implies exists|a: int| 0 <= a < pruned@.len() && pruned@[a].id == k by {
                let x = choose|x: int| 0 <= x < cands@.len() && cands@[x] == k;
                assert(pruned@[x].id == k);
            }
            assert forall|a: int, b: int| 0 <= a < b < pruned@.len() implies pruned@[a].id != pruned@[b].id by {
                assert(cands@[a] != cands@[b]);
            }
        }
        (logs, pruned)
    }
}

impl ManagerState {
    /// Apply a stack at `now` (Unix seconds): each entry (see
    /// [`spec_stack_entries`]) updates the program of its name or, when
    /// none has it, creates one under a new random id; with `prune`, the
    /// programs that no entry names are then removed, but for running ones.
    ///
    /// Refused, with nothing changed: two entries with the same name; an
    /// invalid service or one whose cron expression does not parse (the
    /// first one); a dependency on no program; a dependency cycle; a new id
    /// already in use. An entry whose update is refused for its resource
    /// limits leaves its program as it was, is logged, and the stack goes
    /// on. The caller starts the entries marked `start`, acts on the
    /// updates' outcomes and cleans up after pruned programs.
    #[verifier::rlimit(40)]
    pub fn apply_stack(&mut self, services: Vec<CreateRequest>, prune: bool, now: u64) -> (r: Result<
        StackOutcome,
        StackError,
    >)
        requires
            old(self).wf(),
            forall|i: int| 0 <= i < services@.len() ==> spec_or(#[trigger] services@[i].jitter_sec, 0u64) <= MAX_JITTER_SECS,
            forall|k: u128|
                #[trigger] old(self).registry.programs@.contains_key(k) ==> spec_jitter(old(self).registry.programs@[k])
                    <= MAX_JITTER_SECS,
        ensures
            final(self).wf(),
            r is Err ==> *final(self) == *old(self),
            (r matches Err(StackError::DuplicateName { .. })) <==> spec_stack_refusal(
                old(self).registry.programs@,
                services@,
            ) == Some(0u8),
            (r matches Err(StackError::InvalidService { .. })) <==> spec_stack_refusal(
                old(self).registry.programs@,
                services@,
            ) == Some(1u8),
            (r matches Err(StackError::InvalidCron { .. })) <==> spec_stack_refusal(
                old(self).registry.programs@,
                services@,
            ) == Some(2u8),
            (r matches Err(StackError::UnknownDependency { .. })) <==> spec_stack_refusal(
                old(self).registry.programs@,
                services@,
            ) == Some(3u8),
            (r matches Err(StackError::DependencyCycle { .. })) <==> spec_stack_refusal(
                old(self).registry.programs@,
                services@,
            ) == Some(4u8),
            r matches Err(StackError::IdCollision) ==> {
                &&& spec_stack_refusal(old(self).registry.programs@, services@) is None
                &&& exists|a: int|
                    0 <= a < spec_stack_names(services@).len() && !spec_has_name(
                        old(self).registry.programs@,
                        #[trigger] spec_stack_names(services@)[a],
                    )
            },
            spec_stack_refusal(old(self).registry.programs@, services@) is None ==> (r is Ok || r matches Err(
                StackError::IdCollision,
            )),
            r matches Err(StackError::InvalidService { index, name, error }) ==> {
                &&& index < services@.len()
                &&& spec_services_ok_before(services@, index as int)
                &&& !spec_request_ok(services@[index as int])
                &&& name == services@[index as int].name
                &&& error == RequestError::EmptyCommand
            },
            r matches Err(StackError::DuplicateName { name, count }) ==> {
                &&& !spec_distinct(spec_stack_names(services@))
                &&& count == spec_occurrences(spec_stack_names(services@), name@)
                &&& count > 1
            },
            r matches Err(StackError::InvalidCron { index, name, expr }) ==> {
                &&& spec_distinct(spec_stack_names(services@))
                &&& index < services@.len()
                &&& name == services@[index as int].name
                &&& services@[index as int].cron == Some(expr)
                &&& !spec_cron_parses(expr@)
                &&& forall|i: int| 0 <= i < index ==> spec_service_ok(#[trigger] services@[i])
            },
            r matches Err(StackError::UnknownDependency { program, dependency }) ==> {
                &&& spec_distinct(spec_stack_names(services@))
                &&& forall|i: int| 0 <= i < services@.len() ==> spec_service_ok(#[trigger] services@[i])
                &&& exists|a: int|
                    0 <= a < spec_stack_entries(services@).len() && program@ == spec_stack_names(services@)[a]
                        && spec_stack_entries(services@)[a].0.depends_on@.contains(dependency)
                        && !spec_has_name(old(self).registry.programs@, dependency@)
                        && !spec_stack_names(services@).contains(dependency@)
            },
            r matches Err(StackError::DependencyCycle { .. }) ==> {
                &&& spec_distinct(spec_stack_names(services@))
                &&& forall|i: int| 0 <= i < services@.len() ==> spec_service_ok(#[trigger] services@[i])
                &&& spec_stack_deps_known(old(self).registry.programs@, services@)
                &&& spec_stack_cycle(old(self).registry.programs@, services@)
            },
            r matches Err(StackError::IdCollision) ==> spec_distinct(spec_stack_names(services@))
                && (forall|i: int| 0 <= i < services@.len() ==> spec_service_ok(#[trigger] services@[i]))
                && spec_stack_deps_known(old(self).registry.programs@, services@) && !spec_stack_cycle(
                old(self).registry.programs@,
                services@,
            ),
            (spec_distinct(spec_stack_names(services@)) && (forall|i: int|
                0 <= i < services@.len() ==> spec_service_ok(#[trigger] services@[i])) && spec_stack_deps_known(
                old(self).registry.programs@,
                services@,
            ) && !spec_stack_cycle(old(self).registry.programs@, services@)) ==> (r is Ok || r matches Err(
                StackError::IdCollision,
            )),
            r matches Ok(out) ==> {
                let ents = spec_stack_entries(services@);
                let names = spec_stack_names(services@);
                let before = old(self).registry.programs@;
                let after = final(self).registry.programs@;
                &&& spec_distinct(names)
                &&& forall|i: int| 0 <= i < services@.len() ==> spec_service_ok(#[trigger] services@[i])
                &&& spec_stack_deps_known(before, services@)
                &&& !spec_stack_cycle(before, services@)
                &&& spec_unique_names(before) && spec_stack_limits_ok(before, services@)
                    ==> crate::shutdown::spec_acyclic(after)
                &&& out.entries@.len() == ents.len()
                &&& forall|a: int, b: int| 0 <= a < b < out.entries@.len() ==> out.entries@[a].id != out.entries@[b].id
                &&& forall|a: int|
                    0 <= a < out.entries@.len() ==> {
                        let e = #[trigger] out.entries@[a];
                        &&& e.created == !spec_has_name(before, names[a])
                        &&& after.contains_key(e.id)
                        &&& e.created ==> {
                            &&& !before.contains_key(e.id)
                            &&& !old(self).scheduler@.contains_key(e.id)
                            &&& spec_copy(after[e.id], ents[a].0, ents[a].1, now)
                            &&& e.start == (ents[a].0.autostart && ents[a].0.cron is None)
                            &&& e.update is None
                            &&& e.refused is None
                        }
                        &&& !e.created ==> {
                            &&& before.contains_key(e.id)
                            &&& before[e.id].name@ == names[a]
                            &&& exists|c: ProgramConfig|
                                spec_copy(c, ents[a].0, ents[a].1, now) && spec_entry_updated(
                                    before[e.id],
                                    after[e.id],
                                    c,
                                    e,
                                    now,
                                )
                        }
                    }
                &&& forall|k: u128|
                    #[trigger] after.contains_key(k) <==> ((before.contains_key(k) && (!prune
                        || names.contains(before[k].name@) || old(self).registry.instances(k).len() > 0))
                        || exists|a: int| 0 <= a < out.entries@.len() && out.entries@[a].id == k)
                &&& forall|k: u128|
                    #[trigger] after.contains_key(k) && before.contains_key(k) && !(exists|a: int|
                        0 <= a < out.entries@.len() && out.entries@[a].id == k) ==> after[k] == before[k]
                &&& !prune ==> out.pruned@.len() == 0
                &&& forall|a: int, b: int| 0 <= a < b < out.pruned@.len() ==> out.pruned@[a].id != out.pruned@[b].id
                &&& forall|a: int|
                    0 <= a < out.pruned@.len() ==> {
                        let p = #[trigger] out.pruned@[a];
                        &&& before.contains_key(p.id)
                        &&& !names.contains(before[p.id].name@)
                        &&& p.name@ == before[p.id].name@
                        &&& p.removed is None <==> old(self).registry.instances(p.id).len() > 0
                        &&& p.removed matches Some(c) ==> c == before[p.id]
                    }
                &&& prune ==> forall|k: u128|
                    #[trigger] before.contains_key(k) && !names.contains(before[k].name@) ==> exists|a: int|
                        0 <= a < out.pruned@.len() && out.pruned@[a].id == k
                &&& spec_texts(out.logs@) == spec_entries_logs(names, out.entries@) + spec_prune_logs(
                    out.pruned@,
                )
                &&& final(self).registry.running@ == old(self).registry.running@
                &&& final(self).registry.dirty
            },
    {
        let ghost s0 = *self;
        let ghost ents = spec_stack_entries(services@);
        let ghost nms = spec_stack_names(services@);
        validate_stack_service_names(&services)?;
        let mut i: usize = 0;
        while i < services.len()
            invariant
                i <= services@.len(),
                *self == s0,
                s0.wf(),
                ents == spec_stack_entries(services@),
                nms == spec_stack_names(services@),
                spec_distinct(nms),
                forall|x: int| 0 <= x < i ==> spec_service_ok(#[trigger] services@[x]),
            decreases services.len() - i,
        {
            match validate_create_request(&services[i]) {
                Ok(()) => {},
                Err(error) => {
                    proof {
                        assert(spec_services_ok_before(services@, i as int));
                        assert(!spec_request_ok(services@[i as int]));
                    }
                    return Err(StackError::InvalidService { index: i, name: clone_opt_string(&services[i].name), error });
                },
            }
            if let Some(c) = &services[i].cron {
                if parse_schedule(c.as_str()).is_none() {
                    proof {
                        assert(!spec_service_ok(services@[i as int]));
                        assert forall|idx: int|
                            0 <= idx < services@.len() && spec_services_ok_before(services@, idx) implies spec_request_ok(
                            #[trigger] services@[idx],
                        ) by {
                            if idx < i {
                                assert(spec_service_ok(services@[idx]));
                            } else if idx > i {
                                assert(spec_service_ok(services@[i as int]));
                            }
                        }
                        assert(!spec_services_ok_before(services@, services@.len() as int));
                    }
                    return Err(StackError::InvalidCron { index: i, name: clone_opt_string(&services[i].name), expr: c.clone() });
                }
            }
            i = i + 1;
        }
        proof {
            assert(spec_services_ok_before(services@, services@.len() as int));
            assert forall|idx: int|
                0 <= idx < services@.len() && spec_services_ok_before(services@, idx) implies spec_request_ok(
                #[trigger] services@[idx],
            ) by {
                assert(spec_service_ok(services@[idx]));
            }
        }
        let configs = expand_stack(&services, now);
        let ghost cs = configs@;
        let n = configs.len();
        proof {
            assert forall|a: int| 0 <= a < n implies {
                &&& #[trigger] cs[a].name@ == nms[a]
                &&& spec_cron_valid(cs[a])
                &&& spec_jitter(cs[a]) <= MAX_JITTER_SECS
            } by {
                assert(spec_copy(cs[a], ents[a].0, ents[a].1, now));
                lemma_entry_service(services@, a);
                let x = choose|x: int| 0 <= x < services@.len() && services@[x] == ents[a].0;
                assert(spec_cron_ok(services@[x]));
                assert(spec_or(services@[x].jitter_sec, 0u64) <= MAX_JITTER_SECS);
            }
        }
        let mut names: Vec<String> = Vec::new();
        let mut j: usize = 0;
        while j < n
            invariant
                n == configs@.len(),
                configs@ == cs,
                j <= n,
                names@.len() == j,
                forall|a: int| 0 <= a < j ==> (#[trigger] names@[a])@ == cs[a].name@,
            decreases n - j,
        {
            names.push(configs[j].name.clone());
            j = j + 1;
        }
        proof {
            assert(spec_texts(names@) =~= nms);
            assert(texts(names@) =~= nms);
            assert forall|a: int| 0 <= a < configs@.len() implies spec_copy(
                #[trigger] configs@[a],
                ents[a].0,
                ents[a].1,
                now,
            ) by {}
        }
        let order = match self.check_stack_deps(&configs, &names, Ghost(services@), Ghost(now)) {
            Ok(o) => o,
            Err(e) => {
                proof {
                    if e is UnknownDependency {
                        let program = e->UnknownDependency_program;
                        let dependency = e->UnknownDependency_dependency;
                        let a = choose|a: int|
                            0 <= a < ents.len() && program@ == nms[a] && ents[a].0.depends_on@.contains(dependency)
                                && !spec_has_name(s0.registry.programs@, dependency@) && !nms.contains(dependency@);
                        let x = choose|x: int| 0 <= x < ents[a].0.depends_on@.len() && ents[a].0.depends_on@[x] == dependency;
                        let sds = spec_stack_deps(services@);
                        assert(sds[a] == texts(ents[a].0.depends_on@));
                        assert(sds[a][x] == dependency@);
                        assert(!(spec_has_name(s0.registry.programs@, sds[a][x]) || nms.contains(sds[a][x])));
                    }
                }
                return Err(e);
            },
        };
        proof {
            if spec_stack_cycle(s0.registry.programs@, services@) {
                let o2 = choose|o2: Seq<u128>| #[trigger] spec_lists_unnamed(s0.registry.programs@, nms, o2)
                    && !spec_stack_acyclic_with(s0.registry.programs@, o2, services@);
                assert forall|k: u128| order@.contains(k) <==> o2.contains(k) by {}
                lemma_reorder_acyclic(s0.registry.programs@, order@, o2, nms, spec_stack_deps(services@));
            }
        }
        let (tg, cr) = match self.stack_targets(&configs) {
            Ok(x) => x,
            Err(e) => {
                return Err(e);
            },
        };
        let (mut logs, entries) = self.apply_entries(configs, &tg, &cr, now);
        let ghost mid = *self;
        let ghost elogs = logs@;
        let ghost bp = s0.registry.programs@;
        let ghost mp = mid.registry.programs@;
        proof {
            assert forall|k: u128| #[trigger] tg@.contains(k) implies mp.contains_key(k) && nms.contains(mp[k].name@) by {
                let a = choose|a: int| 0 <= a < tg@.len() && tg@[a] == k;
                assert(entries@[a].id == k);
                assert(mp[k].name@ == cs[a].name@);
                assert(nms[a] == cs[a].name@);
            }
            assert forall|k: u128| #[trigger] bp.contains_key(k) && !nms.contains(bp[k].name@) implies !tg@.contains(k) by {
                if tg@.contains(k) {
                    let a = choose|a: int| 0 <= a < tg@.len() && tg@[a] == k;
                    assert(cr@[a] == !spec_has_name(bp, cs[a].name@));
                    assert(nms[a] == cs[a].name@);
                }
            }
        }
        let mut pruned: Vec<PruneResult> = Vec::new();
        if prune {
            let (mut plogs, p) = self.prune_unnamed(&names);
            proof {
                assert forall|k: u128| #[trigger] tg@.contains(k) implies self.registry.programs@.contains_key(k)
                    && self.registry.programs@[k] == mp[k] by {
                    assert(mp.contains_key(k) && nms.contains(mp[k].name@));
                    assert(spec_texts(names@) == nms);
                }
            }
            logs.append(&mut plogs);
            pruned = p;
        } else {
            assert(spec_prune_logs(pruned@) =~= Seq::<Seq<char>>::empty());
        }
        self.registry.dirty = true;
        proof {
            let ap = self.registry.programs@;
            assert forall|k: u128| #[trigger] tg@.contains(k) <==> exists|a: int|
                0 <= a < entries@.len() && entries@[a].id == k by {
                if tg@.contains(k) {
                    let a = choose|a: int| 0 <= a < tg@.len() && tg@[a] == k;
                    assert(entries@[a].id == k);
                }
                if exists|a: int| 0 <= a < entries@.len() && entries@[a].id == k {
                    let a = choose|a: int| 0 <= a < entries@.len() && entries@[a].id == k;
                    assert(tg@[a] == k);
                }
            }
            assert forall|k: u128| #[trigger] tg@.contains(k) implies ap.contains_key(k) && ap[k] == mp[k] by {
                if !prune {
                    assert(ap == mp);
                }
            }
            assert forall|k: u128| #[trigger] ap.contains_key(k) <==> ((bp.contains_key(k) && (!prune
                || nms.contains(bp[k].name@) || s0.registry.instances(k).len() > 0))
                || tg@.contains(k)) by {
                if !tg@.contains(k) && bp.contains_key(k) {
                    assert(mp.contains_key(k) && mp[k] == bp[k]);
                }
            }
            assert forall|a: int| 0 <= a < entries@.len() implies {
                let e = #[trigger] entries@[a];
                &&& e.created == !spec_has_name(bp, nms[a])
                &&& ap.contains_key(e.id)
                &&& e.created ==> {
                    &&& !bp.contains_key(e.id)
                    &&& !s0.scheduler@.contains_key(e.id)
                    &&& spec_copy(ap[e.id], ents[a].0, ents[a].1, now)
                    &&& e.start == (ents[a].0.autostart && ents[a].0.cron is None)
                    &&& e.update is None
                    &&& e.refused is None
                }
                &&& !e.created ==> {
                    &&& bp.contains_key(e.id)
                    &&& bp[e.id].name@ == nms[a]
                    &&& exists|c: ProgramConfig|
                        spec_copy(c, ents[a].0, ents[a].1, now) && spec_entry_updated(
                            bp[e.id],
                            ap[e.id],
                            c,
                            e,
                            now,
                        )
                }
            } by {
                let t = tg@[a];
                assert(tg@.contains(t));
                assert(cs[a].name@ == nms[a]);
                assert(spec_copy(cs[a], ents[a].0, ents[a].1, now));
            }
            assert forall|a: int| 0 <= a < pruned@.len() implies {
                let p = #[trigger] pruned@[a];
                &&& bp.contains_key(p.id)
                &&& !nms.contains(bp[p.id].name@)
                &&& p.name@ == bp[p.id].name@
                &&& p.removed is None <==> s0.registry.instances(p.id).len() > 0
                &&& p.removed matches Some(c) ==> c == bp[p.id]
            } by {
                let p = pruned@[a];
                assert(!tg@.contains(p.id));
            }
            if prune {
                assert forall|k: u128| #[trigger] bp.contains_key(k) && !nms.contains(bp[k].name@) implies exists|a: int|
                    0 <= a < pruned@.len() && pruned@[a].id == k by {
                    assert(!tg@.contains(k));
                    assert(mp.contains_key(k) && mp[k] == bp[k]);
                }
            }
            assert(spec_config_names(cs) =~= nms);
            assert(spec_texts(logs@) =~= spec_texts(elogs) + spec_prune_logs(pruned@));
            if spec_unique_names(bp) && spec_stack_limits_ok(bp, services@) {
                assert forall|a: int| 0 <= a < tg@.len() implies #[trigger] mp[tg@[a]].name@ == nms[a] && texts(
                    mp[tg@[a]].depends_on@,
                ) == spec_stack_deps(services@)[a] by {
                    assert(spec_copy(cs[a], ents[a].0, ents[a].1, now));
                    assert(cs[a].name@ == nms[a]);
                    assert(entries@[a].id == tg@[a]);
                    if cr@[a] {
                        assert(mp[tg@[a]] == cs[a]);
                    } else {
                        assert(spec_has_name(bp, nms[a]));
                        assert(spec_limits_ok(cs[a].resource_limits));
                        assert(mp[tg@[a]] == spec_patched(bp[tg@[a]], spec_stack_update(cs[a]), now));
                    }
                    assert(spec_stack_deps(services@)[a] == texts(ents[a].0.depends_on@));
                }
                lemma_stack_acyclic(bp, mp, ap, order@, tg@, cr@, services@);
            }
        }
        Ok(StackOutcome { logs, entries, pruned })
    }
}

/// Whether a path is relative (`std::path::Path::is_relative` on Unix,
/// where a path is absolute exactly when it starts with `/`).
pub open spec fn spec_path_is_relative(p: Seq<char>) -> bool {
    !(p.len() > 0 && p[0] == '/')
}

/// Whether `std::path::Path::starts_with` holds (component-wise prefix),
/// with Unix path semantics.
pub uninterp spec fn spec_path_starts_with(p: Seq<char>, base: Seq<char>) -> bool;

/// `Path::new(base).join(p)`, lossily as text, with Unix path semantics.
pub uninterp spec fn spec_path_join(base: Seq<char>, p: Seq<char>) -> Seq<char>;

/// Whether a path is relative (see [`spec_path_is_relative`]).
fn path_is_relative(p: &str) -> (r: bool)
    ensures
        r == spec_path_is_relative(p@),
{
    let cs = chars_of(p);
    !(cs.len() > 0 && cs[0] == '/')
}

/// `std::path::Path::starts_with`; the contract names its result as a
/// function of the two texts.
#[verifier::external_body]
fn path_starts_with(p: &str, base: &str) -> (r: bool)
    ensures
        r == spec_path_starts_with(p@, base@),
{
    std::path::Path::new(p).starts_with(base)
}

/// `std::path::Path::join` (then `to_string_lossy`); the contract names its
/// result as a function of the two texts.
#[verifier::external_body]
fn path_join(base: &str, p: &str) -> (r: String)
    ensures
        r@ == spec_path_join(base@, p@),
{
    std::path::Path::new(base).join(p).to_string_lossy().to_string()
}

/// The glob pattern of an include entry under the root directory: a
/// relative pattern is taken under the root, an absolute one only when it
/// lies under the root (otherwise the entry is skipped).
pub fn include_pattern(root: &str, pattern: &str) -> (r: Option<String>)
    ensures
        match r {
            Some(p) => if spec_path_is_relative(pattern@) {
                p@ == spec_path_join(root@, pattern@)
            } else {
                spec_path_starts_with(pattern@, root@) && p@ == pattern@
            },
            None => !spec_path_is_relative(pattern@) && !spec_path_starts_with(pattern@, root@),
        },
{
    if path_is_relative(pattern) {
        Some(path_join(root, pattern))
    } else if path_starts_with(pattern, root) {
        Some(pattern.to_owned())
    } else {
        None
    }
}

/// Dependencies of the stack's entries.
pub open spec fn spec_stack_deps(services: Seq<CreateRequest>) -> Seq<Seq<Seq<char>>> {
    spec_stack_entries(services).map_values(|e: (CreateRequest, nat)| texts(e.0.depends_on@))
}

/// Every dependency of an entry names a program or an entry of the stack.
pub open spec fn spec_stack_deps_known(m: Map<u128, ProgramConfig>, services: Seq<CreateRequest>) -> bool {
    let names = spec_stack_names(services);
    let ds = spec_stack_deps(services);
    forall|a: int, x: int|
        0 <= a < ds.len() && 0 <= x < ds[a].len() ==> (spec_has_name(m, #[trigger] ds[a][x]) || names.contains(
            ds[a][x],
        ))
}

/// `o` lists, each once, the programs whose names no entry of the stack has.
pub open spec fn spec_lists_unnamed(m: Map<u128, ProgramConfig>, names: Seq<Seq<char>>, o: Seq<u128>) -> bool {
    &&& o.no_duplicates()
    &&& forall|k: u128| #[trigger] o.contains(k) <==> (m.contains_key(k) && !names.contains(m[k].name@))
}

/// The programs listed by `o` together with the stack's entries have no
/// dependency cycle.
pub open spec fn spec_stack_acyclic_with(m: Map<u128, ProgramConfig>, o: Seq<u128>, services: Seq<CreateRequest>) -> bool {
    spec_seq_acyclic(
        spec_names_of(spec_values(m, o)) + spec_stack_names(services),
        spec_deps_of(spec_values(m, o)) + spec_stack_deps(services),
    )
}

/// The stack's entries, replacing the programs of their names, close a
/// dependency cycle.
pub open spec fn spec_stack_cycle(m: Map<u128, ProgramConfig>, services: Seq<CreateRequest>) -> bool {
    exists|o: Seq<u128>| #[trigger] spec_lists_unnamed(m, spec_stack_names(services), o)
        && !spec_stack_acyclic_with(m, o, services)
}

/// Under unique names, the programs after a stack is applied have no
/// dependency cycle when the stack's entries with the programs they do not
/// name have none; pruning removes programs only.
proof fn lemma_stack_acyclic(
    b: Map<u128, ProgramConfig>,
    mid: Map<u128, ProgramConfig>,
    f: Map<u128, ProgramConfig>,
    o: Seq<u128>,
    tg: Seq<u128>,
    cr: Seq<bool>,
    services: Seq<CreateRequest>,
)
    requires
        spec_unique_names(b),
        spec_lists_unnamed(b, spec_stack_names(services), o),
        spec_stack_acyclic_with(b, o, services),
        tg.len() == cr.len() == spec_stack_entries(services).len(),
        forall|x: int, y: int| 0 <= x < y < tg.len() ==> tg[x] != tg[y],
        forall|a: int|
            0 <= a < tg.len() ==> {
                &&& #[trigger] cr[a] == !spec_has_name(b, spec_stack_names(services)[a])
                &&& cr[a] ==> !b.contains_key(tg[a])
                &&& !cr[a] ==> b.contains_key(tg[a]) && b[tg[a]].name@ == spec_stack_names(services)[a]
            },
        forall|k: u128| #[trigger] mid.contains_key(k) <==> (b.contains_key(k) || tg.contains(k)),
        forall|k: u128| #[trigger] b.contains_key(k) && !tg.contains(k) ==> mid[k] == b[k],
        forall|a: int|
            0 <= a < tg.len() ==> #[trigger] mid[tg[a]].name@ == spec_stack_names(services)[a] && texts(
                mid[tg[a]].depends_on@,
            ) == spec_stack_deps(services)[a],
        forall|k: u128| #[trigger] f.contains_key(k) ==> mid.contains_key(k) && f[k] == mid[k],
    ensures
        crate::shutdown::spec_acyclic(f),
{
    let nms = spec_stack_names(services);
    let l = o + tg;
    assert forall|k: u128| #[trigger] o.contains(k) implies !tg.contains(k) by {
        if tg.contains(k) {
            let a = choose|a: int| 0 <= a < tg.len() && tg[a] == k;
            assert(cr[a] == !spec_has_name(b, nms[a]));
            if !cr[a] {
                assert(nms.contains(nms[a]));
            }
        }
    }
    assert forall|k: u128| #[trigger] l.contains(k) <==> mid.contains_key(k) by {
        if l.contains(k) {
            let x = choose|x: int| 0 <= x < l.len() && l[x] == k;
            if x < o.len() {
                assert(o.contains(k));
            } else {
                assert(tg[x - o.len()] == k);
                assert(tg.contains(k));
            }
        }
        if mid.contains_key(k) {
            if tg.contains(k) {
                let x = choose|x: int| 0 <= x < tg.len() && tg[x] == k;
                assert(l[o.len() + x] == k);
            } else {
                assert(b.contains_key(k));
                if nms.contains(b[k].name@) {
                    let a = choose|a: int| 0 <= a < nms.len() && nms[a] == b[k].name@;
                    assert(spec_has_name(b, nms[a]));
                    assert(cr[a] == !spec_has_name(b, nms[a]));
                    assert(b[tg[a]].name@ == b[k].name@);
                    assert(tg[a] == k);
                    assert(tg.contains(k));
                }
                assert(o.contains(k));
                let x = choose|x: int| 0 <= x < o.len() && o[x] == k;
                assert(l[x] == k);
            }
        }
    }
    assert forall|x: int, y: int| 0 <= x < l.len() && 0 <= y < l.len() && x != y implies l[x] != l[y] by {
        if x < o.len() && y < o.len() {
        } else if x >= o.len() && y >= o.len() {
            if x < y {
                assert(tg[x - o.len()] != tg[y - o.len()]);
            } else {
                assert(tg[y - o.len()] != tg[x - o.len()]);
            }
        } else if x < o.len() {
            assert(o.contains(l[x]));
            assert(tg.contains(l[y]));
        } else {
            assert(o.contains(l[y]));
            assert(tg.contains(l[x]));
        }
    }
    assert(spec_lists(mid, l));
    let v0 = spec_values(b, o);
    let v1 = spec_values(mid, l);
    assert forall|x: int| 0 <= x < o.len() implies v1[x] == v0[x] by {
        assert(o.contains(o[x]));
        assert(!tg.contains(o[x]));
    }
    assert(spec_names_of(v1) =~= spec_names_of(v0) + nms) by {
        assert forall|x: int| o.len() <= x < v1.len() implies spec_names_of(v1)[x] == nms[x - o.len()] by {
            assert(v1[x] == mid[tg[x - o.len()]]);
        }
    }
    assert(spec_deps_of(v1) =~= spec_deps_of(v0) + spec_stack_deps(services)) by {
        assert forall|x: int| o.len() <= x < v1.len() implies spec_deps_of(v1)[x] == spec_stack_deps(services)[x - o.len()] by {
            assert(v1[x] == mid[tg[x - o.len()]]);
            assert(mid[tg[x - o.len()]].name@ == nms[x - o.len()]);
        }
    }
    lemma_lists_acyclic(mid, l);
    lemma_sub_acyclic(mid, f);
}

/// The first unknown dependency of the configurations, by entry.
fn first_unknown_dep(r: &ProcessRegistry, configs: &Vec<ProgramConfig>, names: &Vec<String>) -> (res: Option<(usize, usize)>)
    ensures
        match res {
            Some((a, x)) => {
                &&& a < configs@.len()
                &&& x < configs@[a as int].depends_on@.len()
                &&& !spec_has_name(r.programs@, configs@[a as int].depends_on@[x as int]@)
                &&& !texts(names@).contains(configs@[a as int].depends_on@[x as int]@)
            },
            None => forall|a: int, x: int|
                0 <= a < configs@.len() && 0 <= x < configs@[a].depends_on@.len() ==> (spec_has_name(
                    r.programs@,
                    #[trigger] configs@[a].depends_on@[x]@,
                ) || texts(names@).contains(configs@[a].depends_on@[x]@)),
        },
{
    let mut a: usize = 0;
    while a < configs.len()
        invariant
            a <= configs@.len(),
            forall|b: int, x: int|
                0 <= b < a && 0 <= x < configs@[b].depends_on@.len() ==> (spec_has_name(
                    r.programs@,
                    #[trigger] configs@[b].depends_on@[x]@,
                ) || texts(names@).contains(configs@[b].depends_on@[x]@)),
        decreases configs.len() - a,
    {
        let mut x: usize = 0;
        while x < configs[a].depends_on.len()
            invariant
                a < configs@.len(),
                x <= configs@[a as int].depends_on@.len(),
                forall|y: int|
                    0 <= y < x ==> (spec_has_name(r.programs@, #[trigger] configs@[a as int].depends_on@[y]@)
                        || texts(names@).contains(configs@[a as int].depends_on@[y]@)),
            decreases configs@[a as int].depends_on@.len() - x,
        {
            let d = &configs[a].depends_on[x];
            if r.find_program_id_by_name(d).is_none() && !name_in(names, d) {
                return Some((a, x));
            }
            x = x + 1;
        }
        a = a + 1;
    }
    None
}

impl ManagerState {
    /// The dependency checks of a stack whose entries are `configs` (with
    /// their `names`). Returns the listing of the programs no entry names.
    fn check_stack_deps(
        &self,
        configs: &Vec<ProgramConfig>,
        names: &Vec<String>,
        Ghost(services): Ghost<Seq<CreateRequest>>,
        Ghost(now): Ghost<u64>,
    ) -> (r: Result<Ghost<Seq<u128>>, StackError>)
        requires
            configs@.len() == spec_stack_entries(services).len(),
            forall|a: int|
                0 <= a < configs@.len() ==> spec_copy(
                    #[trigger] configs@[a],
                    spec_stack_entries(services)[a].0,
                    spec_stack_entries(services)[a].1,
                    now,
                ),
            texts(names@) == spec_stack_names(services),
        ensures
            match r {
                Ok(o) => {
                    &&& spec_stack_deps_known(self.registry.programs@, services)
                    &&& spec_lists_unnamed(self.registry.programs@, spec_stack_names(services), o@)
                    &&& spec_stack_acyclic_with(self.registry.programs@, o@, services)
                },
                Err(StackError::UnknownDependency { program, dependency }) => exists|a: int|
                    0 <= a < spec_stack_entries(services).len() && program@ == spec_stack_names(services)[a]
                        && spec_stack_entries(services)[a].0.depends_on@.contains(dependency)
                        && !spec_has_name(self.registry.programs@, dependency@) && !spec_stack_names(
                        services,
                    ).contains(dependency@),
                Err(StackError::DependencyCycle { .. }) => {
                    &&& spec_stack_deps_known(self.registry.programs@, services)
                    &&& spec_stack_cycle(self.registry.programs@, services)
                },
                Err(_) => false,
            },
    {
        let ghost ents = spec_stack_entries(services);
        let ghost nms = spec_stack_names(services);
        let ghost sds = spec_stack_deps(services);
        proof {
            assert forall|a: int| 0 <= a < configs@.len() implies #[trigger] texts(configs@[a].depends_on@) == sds[a]
                && configs@[a].name@ == nms[a] && configs@[a].depends_on@ == ents[a].0.depends_on@ by {
                assert(spec_copy(configs@[a], ents[a].0, ents[a].1, now));
            }
        }
        match first_unknown_dep(&self.registry, configs, names) {
            Some((a, x)) => {
                let dependency = configs[a].depends_on[x].clone();
                let program = configs[a].name.clone();
                proof {
                    assert(texts(configs@[a as int].depends_on@) == sds[a as int]);
                    assert(program@ == nms[a as int]);
                    assert(ents[a as int].0.depends_on@[x as int] == dependency);
                    assert(ents[a as int].0.depends_on@.contains(dependency));
                    assert(!nms.contains(dependency@));
                }
                return Err(StackError::UnknownDependency { program, dependency });
            },
            None => {},
        }
        proof {
            assert forall|a: int, x: int| 0 <= a < sds.len() && 0 <= x < sds[a].len() implies (spec_has_name(
                self.registry.programs@,
                #[trigger] sds[a][x],
            ) || nms.contains(sds[a][x])) by {
                assert(texts(configs@[a].depends_on@) == sds[a]);
                assert(sds[a][x] == configs@[a].depends_on@[x]@);
            }
        }
        let order = self.unnamed_programs(names);
        proof {
            assert(spec_texts(names@) =~= texts(names@));
            assert forall|x: int, y: int| 0 <= x < order@.len() && 0 <= y < order@.len() && x != y implies order@[x]
                != order@[y] by {
                if x < y {
                    assert(order@[x] != order@[y]);
                } else {
                    assert(order@[y] != order@[x]);
                }
            }
            assert(spec_lists_unnamed(self.registry.programs@, nms, order@));
        }
        let (mut ns, mut ds) = self.registry.names_and_deps_of(&order);
        let (mut ns1, mut ds1) = names_and_deps(configs);
        let ghost n0 = ns@;
        let ghost d0 = ds@;
        let ghost n1 = ns1@;
        let ghost d1 = ds1@;
        proof {
            assert(spec_names_of(configs@) =~= nms);
            assert(spec_deps_of(configs@) =~= sds);
        }
        ns.append(&mut ns1);
        ds.append(&mut ds1);
        assert(texts(ns@) =~= texts(n0) + texts(n1));
        assert(texts2(ds@) =~= texts2(d0) + texts2(d1));
        match find_cycle(&ns, &ds) {
            Some(i) => Err(StackError::DependencyCycle { program: ns[i].clone() }),
            None => Ok(Ghost(order@)),
        }
    }
}

} // verus!
