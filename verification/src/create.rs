//! Creation of programs from requests: expansion of `numprocs` copies
//! with their names and environment, and the defaults of a new program.

use vstd::prelude::*;
use crate::model::{
    clone_env, clone_i32s, clone_opt_string, clone_strings, ArtifactConfig, AutoRestart, CronCatchup,
    CronOverlap, HealthTuning, Hooks, ProgramConfig, ResourceLimits,
};
use crate::deps::{
    find_cycle, first_unknown, lemma_lists_acyclic, names_and_deps, spec_deps_of, spec_lists, spec_names_of,
    spec_seq_acyclic, spec_values, texts, texts2,
};
use crate::lifecycle::spec_has_name;
use crate::manager::{ManagerState, NameError};
use crate::scheduler::{parse_schedule, spec_cron_parses, MAX_JITTER_SECS};
use crate::text::{
    chars_of, concat2, concat3, debug_str, fmt_u64, is_blank, spec_debug_str, spec_dec, spec_trim, string_of,
};

verus! {

/// `str::replace` with a non-empty pattern: every non-overlapping
/// occurrence of `from`, left to right, becomes `to`.
pub open spec fn spec_replace(s: Seq<char>, from: Seq<char>, to: Seq<char>) -> Seq<char>
    decreases s.len(),
{
    if s.len() == 0 {
        Seq::empty()
    } else if from.len() > 0 && from.is_prefix_of(s) {
        to + spec_replace(s.subrange(from.len() as int, s.len() as int), from, to)
    } else {
        seq![s[0]] + spec_replace(s.drop_first(), from, to)
    }
}

pub(crate) fn matches_at(cs: &Vec<char>, at: usize, fs: &Vec<char>) -> (r: bool)
    requires
        at <= cs@.len(),
    ensures
        r == fs@.is_prefix_of(cs@.subrange(at as int, cs@.len() as int)),
{
    if fs.len() > cs.len() - at {
        return false;
    }
    let mut i: usize = 0;
    while i < fs.len()
        invariant
            at <= cs@.len(),
            cs@.len() == cs.len(),
            fs@.len() <= cs@.len() - at,
            i <= fs@.len(),
            forall|k: int| 0 <= k < i ==> fs@[k] == cs@[at + k],
        decreases fs.len() - i,
    {
        if fs[i] != cs[at + i] {
            assert(cs@.subrange(at as int, cs@.len() as int)[i as int] == cs@[at + i]);
            return false;
        }
        i = i + 1;
    }
    assert(fs@ =~= cs@.subrange(at as int, cs@.len() as int).subrange(0, fs@.len() as int));
    true
}

/// `str::replace` (`from` not empty).
pub fn replace(s: &str, from: &str, to: &str) -> (r: String)
    requires
        from@.len() > 0,
    ensures
        r@ == spec_replace(s@, from@, to@),
{
    let cs = chars_of(s);
    let fs = chars_of(from);
    let ts = chars_of(to);
    let n = cs.len();
    let mut out: Vec<char> = Vec::new();
    let mut i: usize = 0;
    assert(cs@.subrange(0, n as int) == cs@);
    while i < n
        invariant
            i <= n == cs@.len(),
            cs@ == s@,
            fs@ == from@,
            ts@ == to@,
            fs@.len() > 0,
            out@ + spec_replace(cs@.subrange(i as int, n as int), fs@, ts@) == spec_replace(
                s@,
                from@,
                to@,
            ),
        decreases n - i,
    {
        let ghost rest = cs@.subrange(i as int, n as int);
        if matches_at(&cs, i, &fs) {
            let mut k: usize = 0;
            let ghost o = out@;
            while k < ts.len()
                invariant
                    k <= ts@.len(),
                    out@ == o + ts@.subrange(0, k as int),
                decreases ts.len() - k,
            {
                out.push(ts[k]);
                assert(ts@.subrange(0, k + 1) == ts@.subrange(0, k as int).push(ts@[k as int]));
                k = k + 1;
            }
            assert(ts@.subrange(0, ts@.len() as int) == ts@);
            assert(rest.subrange(fs@.len() as int, rest.len() as int) == cs@.subrange(
                i + fs@.len(),
                n as int,
            ));
            i = i + fs.len();
        } else {
            out.push(cs[i]);
            assert(rest.drop_first() == cs@.subrange(i + 1, n as int));
            assert(rest[0] == cs@[i as int]);
            i = i + 1;
        }
    }
    assert(cs@.subrange(n as int, n as int).len() == 0);
    string_of(out.as_slice())
}

/// Views of environment entries.
pub open spec fn env_view(v: Seq<(String, String)>) -> Seq<(Seq<char>, Seq<char>)> {
    v.map_values(|p: (String, String)| (p.0@, p.1@))
}

/// An environment with `k` set to `v`: the first entry of `k` is
/// replaced, or the entry is added.
pub open spec fn spec_env_set(env: Seq<(Seq<char>, Seq<char>)>, k: Seq<char>, v: Seq<char>) -> Seq<
    (Seq<char>, Seq<char>),
>
    decreases env.len(),
{
    if env.len() == 0 {
        seq![(k, v)]
    } else if env[0].0 == k {
        env.update(0, (k, v))
    } else {
        seq![env[0]] + spec_env_set(env.drop_first(), k, v)
    }
}

proof fn lemma_env_set_at(env: Seq<(Seq<char>, Seq<char>)>, k: Seq<char>, v: Seq<char>, i: int)
    requires
        0 <= i <= env.len(),
        forall|j: int| 0 <= j < i ==> env[j].0 != k,
        i < env.len() ==> env[i].0 == k,
    ensures
        spec_env_set(env, k, v) == if i < env.len() {
            env.update(i, (k, v))
        } else {
            env.push((k, v))
        },
    decreases env.len(),
{
    if env.len() > 0 && i > 0 {
        lemma_env_set_at(env.drop_first(), k, v, i - 1);
        if i < env.len() {
            assert(seq![env[0]] + env.drop_first().update(i - 1, (k, v)) =~= env.update(i, (k, v)));
        } else {
            assert(seq![env[0]] + env.drop_first().push((k, v)) =~= env.push((k, v)));
        }
    } else if env.len() == 0 {
        assert(seq![(k, v)] =~= env.push((k, v)));
    }
}

/// Set an environment variable (as inserting into a map of variables).
pub fn env_set(env: &mut Vec<(String, String)>, k: &str, v: String)
    ensures
        env_view(final(env)@) == spec_env_set(env_view(old(env)@), k@, v@),
{
    let ghost e0 = env_view(env@);
    let mut i: usize = 0;
    while i < env.len() && !crate::text::str_eq(env[i].0.as_str(), k)
        invariant
            i <= env@.len(),
            e0 == env_view(env@),
            forall|j: int| 0 <= j < i ==> e0[j].0 != k@,
        decreases env.len() - i,
    {
        i = i + 1;
    }
    proof {
        lemma_env_set_at(e0, k@, v@, i as int);
    }
    if i < env.len() {
        env.set(i, (k.to_owned(), v));
        assert(env_view(env@) =~= e0.update(i as int, (k@, v@)));
    } else {
        env.push((k.to_owned(), v));
        assert(env_view(env@) =~= e0.push((k@, v@)));
    }
}

/// A request to create a program (or `numprocs` copies of it).
#[derive(Debug)]
pub struct CreateRequest {
    /// Name; the command when absent.
    pub name: Option<String>,
    pub command: String,
    pub args: Vec<String>,
    pub env: Vec<(String, String)>,
    pub env_file: Option<String>,
    pub cwd: Option<String>,
    pub user: Option<String>,
    pub autostart: bool,
    pub retry_limit: u32,
    pub autorestart: AutoRestart,
    /// Expected exit codes; `[0]` when empty.
    pub exitcodes: Vec<i32>,
    /// Seconds a start must last to count; 10 when 0.
    pub startsecs: u32,
    pub stopsecs: Option<u32>,
    pub priority: i32,
    pub stdout_logfile: Option<String>,
    pub stderr_logfile: Option<String>,
    pub group: Option<String>,
    pub depends_on: Vec<String>,
    pub health_check: Option<Option<HealthTuning>>,
    pub hooks: Hooks,
    pub artifact: Option<ArtifactConfig>,
    pub cron: Option<String>,
    pub on_overlap: Option<CronOverlap>,
    pub catchup: Option<CronCatchup>,
    pub jitter_sec: Option<u64>,
    pub max_concurrent: Option<u32>,
    pub max_queued: Option<u32>,
    pub resource_limits: Option<ResourceLimits>,
    /// Number of copies (0 means 1).
    pub numprocs: u32,
    /// Name template of the copies (`{name}`, `{num}`); `{name}-{num}` when absent.
    pub process_name: Option<String>,
}

/// Number of copies a request creates.
pub open spec fn spec_copies(req: CreateRequest) -> nat {
    if req.numprocs == 0 {
        1
    } else {
        req.numprocs as nat
    }
}

/// Base name of the copies.
pub open spec fn spec_base_name(req: CreateRequest) -> Seq<char> {
    match req.name {
        Some(n) => n@,
        None => req.command@,
    }
}

/// Name of copy `i`.
pub open spec fn spec_copy_name(req: CreateRequest, i: nat) -> Seq<char> {
    if spec_copies(req) > 1 {
        let template = match req.process_name {
            Some(t) => t@,
            None => "{name}-{num}"@,
        };
        spec_replace(spec_replace(template, "{name}"@, spec_base_name(req)), "{num}"@, spec_dec(i))
    } else {
        spec_base_name(req)
    }
}

/// Environment of copy `i`: copies are told their number and the total.
pub open spec fn spec_copy_env(req: CreateRequest, i: nat) -> Seq<(Seq<char>, Seq<char>)> {
    if spec_copies(req) > 1 {
        spec_env_set(
            spec_env_set(env_view(req.env@), "SUPER_PROCESS_NUM"@, spec_dec(i)),
            "SUPER_PROCESS_TOTAL"@,
            spec_dec(spec_copies(req)),
        )
    } else {
        env_view(req.env@)
    }
}

/// Configuration of copy `i` of a request created at `now`.
pub open spec fn spec_copy(c: ProgramConfig, req: CreateRequest, i: nat, now: u64) -> bool {
    &&& c.name@ == spec_copy_name(req, i)
    &&& env_view(c.env@) == spec_copy_env(req, i)
    &&& c.command == req.command
    &&& c.args@ == req.args@
    &&& c.env_file == req.env_file
    &&& c.cwd == req.cwd
    &&& c.user == req.user
    &&& c.autostart == req.autostart
    &&& c.retry_limit == req.retry_limit
    &&& c.autorestart == req.autorestart
    &&& c.exitcodes@ == (if req.exitcodes@.len() == 0 {
        seq![0i32]
    } else {
        req.exitcodes@
    })
    &&& c.startsecs == (if req.startsecs == 0 {
        10
    } else {
        req.startsecs
    })
    &&& c.stopsecs == req.stopsecs
    &&& c.priority == req.priority
    &&& c.stdout_logfile == req.stdout_logfile
    &&& c.stderr_logfile == req.stderr_logfile
    &&& c.group == req.group
    &&& c.depends_on@ == req.depends_on@
    &&& c.health_check == req.health_check
    &&& c.hooks == req.hooks
    &&& c.artifact == req.artifact
    &&& c.cron == req.cron
    &&& c.on_overlap == req.on_overlap
    &&& c.catchup == req.catchup
    &&& c.jitter_sec == req.jitter_sec
    &&& c.max_concurrent == req.max_concurrent
    &&& c.max_queued == req.max_queued
    &&& c.created_at == now
    &&& c.updated_at == now
    &&& c.restore_path is None
    &&& c.cron_last_run is None
    &&& c.resource_limits == req.resource_limits
}

fn copy_config(req: &CreateRequest, name: String, env: Vec<(String, String)>, now: u64) -> (r:
    ProgramConfig)
    ensures
        r.name == name,
        r.env == env,
        r.command == req.command,
        r.args@ == req.args@,
        r.env_file == req.env_file,
        r.cwd == req.cwd,
        r.user == req.user,
        r.autostart == req.autostart,
        r.retry_limit == req.retry_limit,
        r.autorestart == req.autorestart,
        r.exitcodes@ == (if req.exitcodes@.len() == 0 {
            seq![0i32]
        } else {
            req.exitcodes@
        }),
        r.startsecs == (if req.startsecs == 0 {
            10
        } else {
            req.startsecs
        }),
        r.stopsecs == req.stopsecs,
        r.priority == req.priority,
        r.stdout_logfile == req.stdout_logfile,
        r.stderr_logfile == req.stderr_logfile,
        r.group == req.group,
        r.depends_on@ == req.depends_on@,
        r.health_check == req.health_check,
        r.hooks == req.hooks,
        r.artifact == req.artifact,
        r.cron == req.cron,
        r.on_overlap == req.on_overlap,
        r.catchup == req.catchup,
        r.jitter_sec == req.jitter_sec,
        r.max_concurrent == req.max_concurrent,
        r.max_queued == req.max_queued,
        r.created_at == now,
        r.updated_at == now,
        r.restore_path is None,
        r.cron_last_run is None,
        r.resource_limits == req.resource_limits,
{
    let exitcodes = if req.exitcodes.len() == 0 {
        let mut v: Vec<i32> = Vec::new();
        v.push(0);
        assert(v@ =~= seq![0i32]);
        v
    } else {
        clone_i32s(&req.exitcodes)
    };
    ProgramConfig {
        name,
        command: req.command.clone(),
        args: clone_strings(&req.args),
        env,
        env_file: clone_opt_string(&req.env_file),
        cwd: clone_opt_string(&req.cwd),
        user: clone_opt_string(&req.user),
        autostart: req.autostart,
        retry_limit: req.retry_limit,
        autorestart: req.autorestart,
        exitcodes,
        startsecs: if req.startsecs == 0 {
            10
        } else {
            req.startsecs
        },
        stopsecs: req.stopsecs,
        priority: req.priority,
        stdout_logfile: clone_opt_string(&req.stdout_logfile),
        stderr_logfile: clone_opt_string(&req.stderr_logfile),
        group: clone_opt_string(&req.group),
        depends_on: clone_strings(&req.depends_on),
        health_check: req.health_check,
        hooks: req.hooks.clone(),
        artifact: match &req.artifact {
            Some(a) => Some(a.clone()),
            None => None,
        },
        cron: clone_opt_string(&req.cron),
        on_overlap: req.on_overlap,
        catchup: req.catchup,
        jitter_sec: req.jitter_sec,
        max_concurrent: req.max_concurrent,
        max_queued: req.max_queued,
        created_at: now,
        updated_at: now,
        restore_path: None,
        cron_last_run: None,
        resource_limits: req.resource_limits,
    }
}

/// The configurations a request creates at `now` (Unix seconds): one per
/// copy, in copy order.
pub fn expand_request(req: &CreateRequest, now: u64) -> (r: Vec<ProgramConfig>)
    ensures
        r@.len() == spec_copies(*req),
        forall|i: int| 0 <= i < r@.len() ==> spec_copy(#[trigger] r@[i], *req, i as nat, now),
{
    let count: u32 = if req.numprocs == 0 {
        1
    } else {
        req.numprocs
    };
    let base: String = match &req.name {
        Some(n) => n.clone(),
        None => req.command.clone(),
    };
    let mut out: Vec<ProgramConfig> = Vec::new();
    let mut i: u32 = 0;
    while i < count
        invariant
            count as nat == spec_copies(*req),
            base@ == spec_base_name(*req),
            i <= count,
            out@.len() == i,
            forall|j: int| 0 <= j < out@.len() ==> spec_copy(#[trigger] out@[j], *req, j as nat, now),
        decreases count - i,
    {
        let name = if count > 1 {
            let template: String = match &req.process_name {
                Some(t) => t.clone(),
                None => "{name}-{num}".to_owned(),
            };
            proof {
                reveal_strlit("{name}");
                reveal_strlit("{num}");
            }
            let a = replace(template.as_str(), "{name}", base.as_str());
            let d = fmt_u64(i as u64);
            replace(a.as_str(), "{num}", d.as_str())
        } else {
            base.clone()
        };
        let mut env = clone_env(&req.env);
        if count > 1 {
            env_set(&mut env, "SUPER_PROCESS_NUM", fmt_u64(i as u64));
            env_set(&mut env, "SUPER_PROCESS_TOTAL", fmt_u64(count as u64));
        }
        let c = copy_config(req, name, env, now);
        out.push(c);
        i = i + 1;
    }
    out
}

/// A fresh program id: `uuid::Uuid::new_v4()` as a 128-bit number.
/// Nothing is claimed of the value (it is random).
#[verifier::external_body]
pub(crate) fn new_program_id() -> (r: u128) {
    uuid::Uuid::new_v4().as_u128()
}

/// What is wrong with a request in itself.
#[derive(Clone, Copy, Debug, PartialEq, Eq, Structural)]
pub enum RequestError {
    /// The command is blank.
    EmptyCommand,
}

/// Text of a request error, prefixed by the field it concerns.
pub open spec fn spec_request_error_message(e: RequestError) -> Seq<char> {
    match e {
        RequestError::EmptyCommand => "command: must not be empty"@,
    }
}

impl RequestError {
    pub fn message(&self) -> (r: String)
        ensures
            r@ == spec_request_error_message(*self),
    {
        proof {
            reveal_strlit("command: must not be empty");
        }
        match self {
            RequestError::EmptyCommand => "command: must not be empty".to_owned(),
        }
    }
}

/// A request is valid in itself: its command is not blank.
pub open spec fn spec_request_ok(req: CreateRequest) -> bool {
    spec_trim(req.command@).len() > 0
}

/// Checks of a request in itself, made before anything else.
pub fn validate_create_request(req: &CreateRequest) -> (r: Result<(), RequestError>)
    ensures
        r is Ok <==> spec_request_ok(*req),
        r is Err ==> r == Err::<(), RequestError>(RequestError::EmptyCommand),
{
    if is_blank(req.command.as_str()) {
        Err(RequestError::EmptyCommand)
    } else {
        Ok(())
    }
}

/// Where an invalid request stands: the stack entry `services[i]` and its
/// name, or the program's name.
pub open spec fn spec_location(index: Option<usize>, name: Option<String>) -> Seq<char> {
    match index {
        Some(i) => match name {
            Some(n) => "services["@ + spec_dec(i as nat) + "] (name="@ + n@ + ")"@,
            None => "services["@ + spec_dec(i as nat) + "]"@,
        },
        None => match name {
            Some(n) => "program '"@ + n@ + "'"@,
            None => "program"@,
        },
    }
}

/// Text of the location of an invalid request (see [`spec_location`]).
pub fn location_text(index: Option<usize>, name: &Option<String>) -> (r: String)
    ensures
        r@ == spec_location(index, *name),
{
    match index {
        Some(i) => {
            let d = fmt_u64(i as u64);
            match name {
                Some(n) => {
                    let a = concat3("services[", d.as_str(), "] (name=");
                    concat3(a.as_str(), n.as_str(), ")")
                },
                None => concat3("services[", d.as_str(), "]"),
            }
        },
        None => match name {
            Some(n) => concat3("program '", n.as_str(), "'"),
            None => {
                proof {
                    reveal_strlit("program");
                }
                "program".to_owned()
            },
        },
    }
}

/// `location: message` of an invalid request.
pub fn located_message(index: Option<usize>, name: &Option<String>, e: RequestError) -> (r: String)
    ensures
        r@ == spec_location(index, *name) + ": "@ + spec_request_error_message(e),
{
    let loc = location_text(index, name);
    let m = e.message();
    concat3(loc.as_str(), ": ", m.as_str())
}

/// Text of a cron expression that does not parse.
pub open spec fn spec_cron_error_message(expr: Seq<char>) -> Seq<char> {
    "cron: invalid expression "@ + spec_debug_str(expr)
}

/// `location: cron: invalid expression "expr"`.
pub fn located_cron_message(index: Option<usize>, name: &Option<String>, expr: &str) -> (r: String)
    ensures
        r@ == spec_location(index, *name) + ": "@ + spec_cron_error_message(expr@),
{
    let loc = location_text(index, name);
    let d = debug_str(expr);
    let m = concat2("cron: invalid expression ", d.as_str());
    concat3(loc.as_str(), ": ", m.as_str())
}

/// Why a create request was refused.
#[derive(Debug)]
pub enum CreateError {
    /// The request is invalid in itself.
    InvalidRequest { name: Option<String>, error: RequestError },
    /// The request's cron expression does not parse.
    InvalidCron { name: Option<String>, expr: String },
    /// The name of one of the copies cannot be used.
    Name(NameError),
    /// A dependency names no program.
    UnknownDependency { program: String, dependency: String },
    /// The new programs would close a cycle of dependencies.
    DependencyCycle { program: String },
    /// A randomly drawn id was already in use (nothing was created).
    IdCollision,
}

/// Text of a create error.
pub open spec fn spec_create_error_message(e: CreateError) -> Seq<char> {
    match e {
        CreateError::InvalidRequest { name, error } => spec_location(None, name) + ": "@
            + spec_request_error_message(error),
        CreateError::InvalidCron { name, expr } => spec_location(None, name) + ": "@
            + spec_cron_error_message(expr@),
        CreateError::Name(n) => crate::manager::spec_name_error_message(n),
        CreateError::UnknownDependency { program, dependency } => "depends_on: program '"@ + program@
            + "' depends on unknown program '"@ + dependency@ + "'"@,
        CreateError::DependencyCycle { program } => "depends_on: dependency cycle involving program '"@
            + program@ + "'"@,
        CreateError::IdCollision => "Generated program id is already in use"@,
    }
}

impl CreateError {
    pub fn message(&self) -> (r: String)
        ensures
            r@ == spec_create_error_message(*self),
    {
        match self {
            CreateError::InvalidRequest { name, error } => located_message(None, name, *error),
            CreateError::InvalidCron { name, expr } => located_cron_message(None, name, expr.as_str()),
            CreateError::Name(n) => n.message(),
            CreateError::UnknownDependency { program, dependency } => {
                let a = concat3("depends_on: program '", program.as_str(), "' depends on unknown program '");
                concat3(a.as_str(), dependency.as_str(), "'")
            },
            CreateError::DependencyCycle { program } => {
                concat3("depends_on: dependency cycle involving program '", program.as_str(), "'")
            },
            CreateError::IdCollision => "Generated program id is already in use".to_owned(),
        }
    }
}

/// One created program: its id and whether the caller starts it now.
#[derive(Clone, Copy, Debug, PartialEq, Eq, Structural)]
pub struct CreatedProgram {
    pub id: u128,
    pub start: bool,
}

/// The request's cron expression, if any, parses.
pub open spec fn spec_cron_ok(req: CreateRequest) -> bool {
    req.cron matches Some(e) ==> spec_cron_parses(e@)
}

/// A new program may take `name`: it is not blank and no program has it.
pub open spec fn spec_name_free(programs: Map<u128, ProgramConfig>, name: Seq<char>) -> bool {
    spec_trim(name).len() > 0 && !spec_has_name(programs, name)
}

/// Every copy of the request may take its name.
pub open spec fn spec_names_free(programs: Map<u128, ProgramConfig>, req: CreateRequest) -> bool {
    forall|i: nat| i < spec_copies(req) ==> #[trigger] spec_name_free(programs, spec_copy_name(req, i))
}

/// Jitter of a configuration (0 when unset).
pub open spec fn spec_jitter(c: ProgramConfig) -> u64 {
    match c.jitter_sec {
        Some(j) => j,
        None => 0,
    }
}

/// Every dependency of the request names an existing program (a single
/// request makes no forward references).
pub open spec fn spec_deps_known(programs: Map<u128, ProgramConfig>, req: CreateRequest) -> bool {
    forall|x: int| 0 <= x < req.depends_on@.len() ==> spec_has_name(programs, #[trigger] req.depends_on@[x]@)
}

/// Names of the copies of a request.
pub open spec fn spec_copy_names(req: CreateRequest) -> Seq<Seq<char>> {
    Seq::new(spec_copies(req), |i: int| spec_copy_name(req, i as nat))
}

/// Dependencies of the copies of a request.
pub open spec fn spec_copy_deps(req: CreateRequest) -> Seq<Seq<Seq<char>>> {
    Seq::new(spec_copies(req), |i: int| texts(req.depends_on@))
}

/// The programs listed by `order` together with the request's copies have
/// no dependency cycle.
pub open spec fn spec_create_acyclic_with(m: Map<u128, ProgramConfig>, order: Seq<u128>, req: CreateRequest) -> bool {
    spec_seq_acyclic(
        spec_names_of(spec_values(m, order)) + spec_copy_names(req),
        spec_deps_of(spec_values(m, order)) + spec_copy_deps(req),
    )
}

/// Adding the request's copies to the programs closes a dependency cycle.
pub open spec fn spec_create_cycle(m: Map<u128, ProgramConfig>, req: CreateRequest) -> bool {
    exists|order: Seq<u128>| #[trigger] spec_lists(m, order) && !spec_create_acyclic_with(m, order, req)
}

/// Whether the request's copies close a cycle does not depend on the
/// listing of the programs.
proof fn lemma_listing_independent(m: Map<u128, ProgramConfig>, o1: Seq<u128>, o2: Seq<u128>, req: CreateRequest)
    requires
        spec_lists(m, o1),
        spec_lists(m, o2),
        spec_create_acyclic_with(m, o1, req),
    ensures
        spec_create_acyclic_with(m, o2, req),
{
    crate::deps::lemma_reorder_acyclic(m, o1, o2, spec_copy_names(req), spec_copy_deps(req));
}

/// Programs created from a request under fresh ids keep the dependencies
/// acyclic when the request's copies added to a listing of the programs do.
proof fn lemma_create_acyclic(
    m0: Map<u128, ProgramConfig>,
    m1: Map<u128, ProgramConfig>,
    order: Seq<u128>,
    idv: Seq<u128>,
    cs: Seq<ProgramConfig>,
    req: CreateRequest,
)
    requires
        spec_lists(m0, order),
        idv.no_duplicates(),
        forall|a: int| 0 <= a < idv.len() ==> !m0.contains_key(#[trigger] idv[a]),
        idv.len() == cs.len(),
        forall|k: u128| #[trigger] m1.contains_key(k) <==> (m0.contains_key(k) || idv.contains(k)),
        forall|k: u128| #[trigger] m0.contains_key(k) ==> m1[k] == m0[k],
        forall|a: int| 0 <= a < idv.len() ==> m1[#[trigger] idv[a]] == cs[a],
        spec_names_of(cs) == spec_copy_names(req),
        spec_deps_of(cs) == spec_copy_deps(req),
        spec_create_acyclic_with(m0, order, req),
    ensures
        crate::shutdown::spec_acyclic(m1),
{
    let order2 = order + idv;
    assert forall|k: u128| #[trigger] order2.contains(k) <==> m1.contains_key(k) by {
        if order2.contains(k) {
            let x = choose|x: int| 0 <= x < order2.len() && order2[x] == k;
            if x < order.len() {
                assert(order.contains(k));
            } else {
                assert(idv[x - order.len()] == k);
                assert(idv.contains(k));
            }
        }
        if m1.contains_key(k) {
            if m0.contains_key(k) {
                assert(order.contains(k));
                let x = choose|x: int| 0 <= x < order.len() && order[x] == k;
                assert(order2[x] == k);
            } else {
                assert(idv.contains(k));
                let x = choose|x: int| 0 <= x < idv.len() && idv[x] == k;
                assert(order2[order.len() + x] == k);
            }
        }
    }
    assert forall|a: int, b: int| 0 <= a < order2.len() && 0 <= b < order2.len() && a != b implies order2[a]
        != order2[b] by {
        if a < order.len() && b < order.len() {
        } else if a >= order.len() && b >= order.len() {
            assert(idv[a - order.len()] != idv[b - order.len()]);
        } else if a < order.len() {
            assert(order.contains(order[a]));
            assert(!m0.contains_key(idv[b - order.len()]));
        } else {
            assert(order.contains(order[b]));
            assert(!m0.contains_key(idv[a - order.len()]));
        }
    }
    assert(spec_lists(m1, order2));
    let v0 = spec_values(m0, order);
    let v1 = spec_values(m1, order2);
    assert forall|a: int| 0 <= a < order.len() implies v1[a] == v0[a] by {
        assert(order.contains(order[a]));
    }
    assert(v1 =~= v0 + cs);
    assert(spec_names_of(v1) =~= spec_names_of(v0) + spec_copy_names(req));
    assert(spec_deps_of(v1) =~= spec_deps_of(v0) + spec_copy_deps(req));
    lemma_lists_acyclic(m1, order2);
}

impl ManagerState {
    /// The dependency checks of a create request whose copies are
    /// `configs`: every dependency names an existing program, and the new
    /// programs close no cycle. Returns the listing of the programs used.
    fn check_create_deps(&self, req: &CreateRequest, configs: &Vec<ProgramConfig>, Ghost(now): Ghost<u64>) -> (r: Result<
        Ghost<Seq<u128>>,
        CreateError,
    >)
        requires
            configs@.len() == spec_copies(*req),
            forall|a: int| 0 <= a < configs@.len() ==> spec_copy(#[trigger] configs@[a], *req, a as nat, now),
        ensures
            match r {
                Ok(order) => {
                    &&& spec_deps_known(self.registry.programs@, *req)
                    &&& spec_lists(self.registry.programs@, order@)
                    &&& spec_create_acyclic_with(self.registry.programs@, order@, *req)
                },
                Err(CreateError::UnknownDependency { program, dependency }) => {
                    &&& program@ == spec_copy_name(*req, 0)
                    &&& exists|x: int| 0 <= x < req.depends_on@.len() && req.depends_on@[x] == dependency
                    &&& !spec_has_name(self.registry.programs@, dependency@)
                },
                Err(CreateError::DependencyCycle { .. }) => {
                    &&& spec_deps_known(self.registry.programs@, *req)
                    &&& spec_create_cycle(self.registry.programs@, *req)
                },
                Err(_) => false,
            },
    {
        match first_unknown(&self.registry, &req.depends_on) {
            Some(k) => {
                assert(spec_copy(configs@[0], *req, 0, now));
                return Err(
                    CreateError::UnknownDependency {
                        program: configs[0].name.clone(),
                        dependency: req.depends_on[k].clone(),
                    },
                );
            },
            None => {},
        }
        let order = self.registry.program_ids();
        proof {
            assert forall|k: u128| #[trigger] order@.contains(k) <==> self.registry.programs@.contains_key(k) by {}
            assert(spec_lists(self.registry.programs@, order@));
        }
        let (mut names, mut deps) = self.registry.names_and_deps_of(&order);
        let (mut ns1, mut ds1) = names_and_deps(configs);
        let ghost n0 = names@;
        let ghost d0 = deps@;
        proof {
            assert(spec_names_of(configs@) =~= spec_copy_names(*req)) by {
                assert forall|a: int| 0 <= a < configs@.len() implies #[trigger] spec_names_of(configs@)[a]
                    == spec_copy_names(*req)[a] by {
                    assert(spec_copy(configs@[a], *req, a as nat, now));
                }
            }
            assert(spec_deps_of(configs@) =~= spec_copy_deps(*req)) by {
                assert forall|a: int| 0 <= a < configs@.len() implies #[trigger] spec_deps_of(configs@)[a]
                    == spec_copy_deps(*req)[a] by {
                    assert(spec_copy(configs@[a], *req, a as nat, now));
                }
            }
        }
        let ghost n1 = ns1@;
        let ghost d1 = ds1@;
        names.append(&mut ns1);
        deps.append(&mut ds1);
        assert(texts(names@) =~= texts(n0) + texts(n1));
        assert(texts2(deps@) =~= texts2(d0) + texts2(d1));
        match find_cycle(&names, &deps) {
            Some(i) => Err(CreateError::DependencyCycle { program: names[i].clone() }),
            None => Ok(Ghost(order@)),
        }
    }

    /// Register new programs under the given ids, which are fresh and
    /// distinct: each configuration is stored, its cron task (if any) is
    /// registered, and the program is to be started now when it autostarts
    /// and has no cron task.
    pub fn create_programs(&mut self, configs: Vec<ProgramConfig>, ids: Vec<u128>) -> (r: Vec<
        CreatedProgram,
    >)
        requires
            old(self).wf(),
            ids@.len() == configs@.len(),
            forall|i: int, j: int| 0 <= i < j < ids@.len() ==> ids@[i] != ids@[j],
            forall|i: int|
                0 <= i < ids@.len() ==> !old(self).registry.programs@.contains_key(#[trigger] ids@[i])
                    && !old(self).scheduler@.contains_key(ids@[i]),
            forall|i: int| 0 <= i < configs@.len() ==> spec_jitter(#[trigger] configs@[i]) <= MAX_JITTER_SECS,
        ensures
            final(self).wf(),
            r@.len() == ids@.len(),
            forall|k: u128|
                #[trigger] final(self).registry.programs@.contains_key(k) <==> (old(self).registry.programs@.contains_key(k) || ids@.contains(k)),
            forall|k: u128|
                #[trigger] old(self).registry.programs@.contains_key(k) ==> final(self).registry.programs@[k] == old(self).registry.programs@[k],
            forall|i: int|
                0 <= i < ids@.len() ==> {
                    let id = #[trigger] ids@[i];
                    &&& r@[i].id == id
                    &&& final(self).registry.programs@[id] == configs@[i]
                    &&& r@[i].start == (configs@[i].autostart && !final(self).scheduler@.contains_key(id))
                    &&& configs@[i].cron is None ==> !final(self).scheduler@.contains_key(id)
                    &&& final(self).scheduler@.contains_key(id) ==> (configs@[i].cron matches Some(
                        e,
                    ) && final(self).scheduler@[id].expr == e@ && final(self).scheduler@[id].jitter_sec
                        == spec_jitter(configs@[i]))
                },
            forall|k: u128|
                !ids@.contains(k) ==> (#[trigger] final(self).scheduler@.contains_key(k) == old(self).scheduler@.contains_key(k)),
            forall|k: u128|
                !ids@.contains(k) && #[trigger] old(self).scheduler@.contains_key(k) ==> final(self).scheduler@[k] == old(self).scheduler@[k],
            final(self).registry.running@ == old(self).registry.running@,
            final(self).registry.events@ == old(self).registry.events@,
            final(self).registry.dirty,
            final(self).pending_cron == old(self).pending_cron,
    {
        let ghost cs = configs@;
        let ghost s0 = *self;
        let mut configs = configs;
        let n = ids.len();
        let mut out: Vec<CreatedProgram> = Vec::new();
        let mut i: usize = 0;
        while i < n
            invariant
                n == ids@.len() == cs.len(),
                i <= n,
                configs@ == cs.subrange(i as int, n as int),
                self.wf(),
                out@.len() == i,
                forall|a: int, b: int| 0 <= a < b < ids@.len() ==> ids@[a] != ids@[b],
                forall|a: int|
                    0 <= a < ids@.len() ==> !s0.registry.programs@.contains_key(#[trigger] ids@[a])
                        && !s0.scheduler@.contains_key(ids@[a]),
                forall|a: int| 0 <= a < cs.len() ==> spec_jitter(#[trigger] cs[a]) <= MAX_JITTER_SECS,
                forall|k: u128|
                    #[trigger] self.registry.programs@.contains_key(k) <==> (
                    s0.registry.programs@.contains_key(k) || ids@.subrange(0, i as int).contains(k)),
                forall|k: u128|
                    #[trigger] s0.registry.programs@.contains_key(k) ==> self.registry.programs@[k]
                        == s0.registry.programs@[k],
                forall|a: int|
                    0 <= a < i ==> {
                        let id = #[trigger] ids@[a];
                        &&& out@[a].id == id
                        &&& self.registry.programs@[id] == cs[a]
                        &&& out@[a].start == (cs[a].autostart && !self.scheduler@.contains_key(id))
                        &&& cs[a].cron is None ==> !self.scheduler@.contains_key(id)
                        &&& self.scheduler@.contains_key(id) ==> (cs[a].cron matches Some(e)
                            && self.scheduler@[id].expr == e@ && self.scheduler@[id].jitter_sec
                            == spec_jitter(cs[a]))
                    },
                forall|k: u128|
                    !ids@.subrange(0, i as int).contains(k) ==> (#[trigger] self.scheduler@.contains_key(k)
                        == s0.scheduler@.contains_key(k)),
                forall|k: u128|
                    !ids@.subrange(0, i as int).contains(k) && #[trigger] s0.scheduler@.contains_key(k)
                        ==> self.scheduler@[k] == s0.scheduler@[k],
                self.registry.running@ == s0.registry.running@,
                self.registry.events@ == s0.registry.events@,
                self.pending_cron == s0.pending_cron,
            decreases n - i,
        {
            let config = configs.remove(0);
            assert(config == cs[i as int]);
            let id = ids[i];
            let ghost prev = ids@.subrange(0, i as int);
            let ghost nxt = ids@.subrange(0, i + 1);
            proof {
                assert forall|k: u128| nxt.contains(k) <==> (prev.contains(k) || k == id) by {
                    if nxt.contains(k) {
                        let a = choose|a: int| 0 <= a < nxt.len() && nxt[a] == k;
                        if a < i {
                            assert(prev[a] == k);
                        }
                    }
                    if prev.contains(k) {
                        let a = choose|a: int| 0 <= a < prev.len() && prev[a] == k;
                        assert(nxt[a] == k);
                    }
                    if k == id {
                        assert(nxt[i as int] == k);
                    }
                }
                assert(!prev.contains(id)) by {
                    if prev.contains(id) {
                        let a = choose|a: int| 0 <= a < prev.len() && prev[a] == id;
                        assert(ids@[a] == ids@[i as int]);
                    }
                }
            }
            let ghost sched0 = self.scheduler@;
            let ghost progs0 = self.registry.programs@;
            let jitter: u64 = match config.jitter_sec {
                Some(j) => j,
                None => 0,
            };
            if let Some(expr) = &config.cron {
                self.scheduler.upsert(id, expr.as_str(), jitter, None);
            }
            let start = config.autostart && self.scheduler.get_next_run(&id).is_none();
            self.registry.programs.insert(id, config);
            self.registry.dirty = true;
            let ghost out0 = out@;
            out.push(CreatedProgram { id, start });
            proof {
                assert forall|a: int| 0 <= a < i implies ids@[a] != id by {}
                assert(!sched0.contains_key(id));
                assert(self.registry.programs@ == progs0.insert(id, cs[i as int]));
                assert(self.registry.programs@[id] == cs[i as int]);
                assert(out@[i as int].id == id);
                assert(cs[i as int].cron is None ==> !self.scheduler@.contains_key(id));
                assert(self.scheduler@.contains_key(id) ==> (cs[i as int].cron matches Some(e)
                    && self.scheduler@[id].expr == e@ && self.scheduler@[id].jitter_sec
                    == spec_jitter(cs[i as int])));
                assert forall|a: int| 0 <= a < i + 1 implies {
                    let id2 = #[trigger] ids@[a];
                    &&& out@[a].id == id2
                    &&& self.registry.programs@[id2] == cs[a]
                    &&& out@[a].start == (cs[a].autostart && !self.scheduler@.contains_key(id2))
                    &&& cs[a].cron is None ==> !self.scheduler@.contains_key(id2)
                    &&& self.scheduler@.contains_key(id2) ==> (cs[a].cron matches Some(e)
                        && self.scheduler@[id2].expr == e@ && self.scheduler@[id2].jitter_sec
                        == spec_jitter(cs[a]))
                } by {
                    if a < i {
                        assert(out@[a] == out0[a]);
                        assert(ids@[a] != id);
                    }
                }
                assert(forall|k: u128| k != id ==> self.scheduler@.contains_key(k) == sched0.contains_key(k));
                assert(forall|k: u128| k != id && sched0.contains_key(k) ==> self.scheduler@[k] == sched0[k]);
            }
            i = i + 1;
        }
        self.registry.dirty = true;
        assert(ids@.subrange(0, n as int) == ids@);
        out
    }

    /// Create the programs of a request at `now` (Unix seconds): one per
    /// copy (see [`expand_request`]), each under a new random id.
    ///
    /// Refused, with nothing changed: an invalid cron expression; a copy
    /// whose name is blank or already taken (the first such copy); an id
    /// already in use. The returned programs are in copy order; the caller
    /// starts those marked `start`.
    pub fn handle_create(&mut self, req: &CreateRequest, now: u64) -> (r: Result<
        Vec<CreatedProgram>,
        CreateError,
    >)
        requires
            old(self).wf(),
            match req.jitter_sec {
                Some(j) => j <= MAX_JITTER_SECS,
                None => true,
            },
        ensures
            final(self).wf(),
            r is Err ==> *final(self) == *old(self),
            (r matches Err(CreateError::InvalidRequest { .. })) <==> !spec_request_ok(*req),
            r matches Err(CreateError::InvalidRequest { name, error }) ==> name == req.name
                && error == RequestError::EmptyCommand,
            (r matches Err(CreateError::InvalidCron { .. })) <==> (spec_request_ok(*req) && !spec_cron_ok(
                *req,
            )),
            r matches Err(CreateError::InvalidCron { name, expr }) ==> name == req.name && req.cron == Some(
                expr,
            ),
            (r is Err && !(r matches Err(CreateError::InvalidCron { .. })) && !(r matches Err(
                CreateError::InvalidRequest { .. },
            ))) ==> spec_request_ok(*req) && spec_cron_ok(*req),
            r matches Err(CreateError::Name(e)) ==> {
                &&& !spec_names_free(old(self).registry.programs@, *req)
                &&& match e {
                    NameError::Empty => exists|i: nat|
                        i < spec_copies(*req) && spec_trim(#[trigger] spec_copy_name(*req, i)).len()
                            == 0,
                    NameError::Taken { name, id } => {
                        &&& old(self).registry.programs@.contains_key(id)
                        &&& old(self).registry.programs@[id].name@ == name@
                        &&& exists|i: nat|
                            i < spec_copies(*req) && #[trigger] spec_copy_name(*req, i) == name@
                    },
                }
            },
            r matches Err(CreateError::UnknownDependency { program, dependency }) ==> {
                &&& spec_names_free(old(self).registry.programs@, *req)
                &&& program@ == spec_copy_name(*req, 0)
                &&& exists|x: int| 0 <= x < req.depends_on@.len() && req.depends_on@[x] == dependency
                &&& !spec_has_name(old(self).registry.programs@, dependency@)
            },
            r matches Err(CreateError::DependencyCycle { .. }) ==> {
                &&& spec_names_free(old(self).registry.programs@, *req)
                &&& spec_deps_known(old(self).registry.programs@, *req)
                &&& spec_create_cycle(old(self).registry.programs@, *req)
            },
            r matches Err(CreateError::IdCollision) ==> spec_names_free(old(self).registry.programs@, *req)
                && spec_deps_known(old(self).registry.programs@, *req) && !spec_create_cycle(
                old(self).registry.programs@,
                *req,
            ),
            (spec_request_ok(*req) && spec_cron_ok(*req) && spec_names_free(old(self).registry.programs@, *req) && spec_deps_known(
                old(self).registry.programs@,
                *req,
            ) && !spec_create_cycle(old(self).registry.programs@, *req)) ==> (r is Ok || r matches Err(
                CreateError::IdCollision,
            )),
            r matches Ok(v) ==> {
                &&& spec_request_ok(*req)
                &&& spec_cron_ok(*req)
                &&& spec_names_free(old(self).registry.programs@, *req)
                &&& spec_deps_known(old(self).registry.programs@, *req)
                &&& crate::shutdown::spec_acyclic(final(self).registry.programs@)
                &&& v@.len() == spec_copies(*req)
                &&& forall|i: int, j: int| 0 <= i < j < v@.len() ==> v@[i].id != v@[j].id
                &&& forall|k: u128|
                    #[trigger] final(self).registry.programs@.contains_key(k) <==> (old(self).registry.programs@.contains_key(k) || exists|i: int|
                        0 <= i < v@.len() && v@[i].id == k)
                &&& forall|k: u128|
                    #[trigger] old(self).registry.programs@.contains_key(k) ==> final(self).registry.programs@[k] == old(self).registry.programs@[k]
                &&& forall|i: int|
                    0 <= i < v@.len() ==> {
                        let id = (#[trigger] v@[i]).id;
                        &&& !old(self).registry.programs@.contains_key(id)
                        &&& !old(self).scheduler@.contains_key(id)
                        &&& spec_copy(final(self).registry.programs@[id], *req, i as nat, now)
                        &&& v@[i].start == (req.autostart && !final(self).scheduler@.contains_key(
                            id,
                        ))
                        &&& req.cron is None ==> !final(self).scheduler@.contains_key(id)
                        &&& final(self).scheduler@.contains_key(id) ==> (req.cron matches Some(e)
                            && final(self).scheduler@[id].expr == e@
                            && final(self).scheduler@[id].jitter_sec == crate::manager::spec_or(req.jitter_sec, 0u64))
                    }
                &&& forall|k: u128|
                    #[trigger] old(self).scheduler@.contains_key(k) ==> final(self).scheduler@.contains_key(
                        k,
                    ) && final(self).scheduler@[k] == old(self).scheduler@[k]
                &&& forall|k: u128|
                    #[trigger] final(self).scheduler@.contains_key(k) ==> (old(self).scheduler@.contains_key(k) || exists|i: int| 0 <= i < v@.len() && v@[i].id == k)
                &&& final(self).registry.running@ == old(self).registry.running@
                &&& final(self).registry.events@ == old(self).registry.events@
                &&& final(self).registry.dirty
                &&& final(self).pending_cron == old(self).pending_cron
            },
    {
        let ghost s0 = *self;
        match validate_create_request(req) {
            Ok(()) => {},
            Err(error) => {
                return Err(CreateError::InvalidRequest { name: clone_opt_string(&req.name), error });
            },
        }
        if let Some(c) = &req.cron {
            if parse_schedule(c.as_str()).is_none() {
                return Err(CreateError::InvalidCron { name: clone_opt_string(&req.name), expr: c.clone() });
            }
        }
        assert(spec_cron_ok(*req));
        let configs = expand_request(req, now);
        let n = configs.len();
        let mut i: usize = 0;
        while i < n
            invariant
                *self == s0,
                s0.wf(),
                spec_cron_ok(*req),
                spec_request_ok(*req),
                n == configs@.len() == spec_copies(*req),
                i <= n,
                forall|a: int|
                    0 <= a < configs@.len() ==> spec_copy(#[trigger] configs@[a], *req, a as nat, now),
                forall|a: nat| a < i ==> #[trigger] spec_name_free(
                    self.registry.programs@,
                    spec_copy_name(*req, a),
                ),
            decreases n - i,
        {
            assert(spec_copy(configs@[i as int], *req, i as nat, now));
            match self.registry.ensure_name_available(&configs[i].name, None) {
                Ok(()) => {},
                Err(e) => {
                    proof {
                        assert(!spec_name_free(self.registry.programs@, spec_copy_name(*req, i as nat)));
                    }
                    return Err(CreateError::Name(e));
                },
            }
            assert(spec_name_free(self.registry.programs@, spec_copy_name(*req, i as nat)));
            i = i + 1;
        }
        assert(spec_names_free(s0.registry.programs@, *req));
        let order = match self.check_create_deps(req, &configs, Ghost(now)) {
            Ok(o) => o,
            Err(e) => {
                return Err(e);
            },
        };
        proof {
            if spec_create_cycle(s0.registry.programs@, *req) {
                let o2 = choose|o2: Seq<u128>| #[trigger] spec_lists(s0.registry.programs@, o2) && !spec_create_acyclic_with(s0.registry.programs@, o2, *req);
                lemma_listing_independent(s0.registry.programs@, order@, o2, *req);
            }
        }
        let mut ids: Vec<u128> = Vec::new();
        let mut k: usize = 0;
        while k < n
            invariant
                *self == s0,
                s0.wf(),
                spec_cron_ok(*req),
                spec_request_ok(*req),
                spec_names_free(s0.registry.programs@, *req),
                spec_deps_known(s0.registry.programs@, *req),
                !spec_create_cycle(s0.registry.programs@, *req),
                spec_lists(s0.registry.programs@, order@),
                spec_create_acyclic_with(s0.registry.programs@, order@, *req),
                k <= n,
                ids@.len() == k,
                forall|a: int, b: int| 0 <= a < b < ids@.len() ==> ids@[a] != ids@[b],
                forall|a: int|
                    0 <= a < ids@.len() ==> !self.registry.programs@.contains_key(#[trigger] ids@[a])
                        && !self.scheduler@.contains_key(ids@[a]),
            decreases n - k,
        {
            let id = new_program_id();
            if self.registry.get_config(&id).is_some() || self.scheduler.get_next_run(&id).is_some() {
                return Err(CreateError::IdCollision);
            }
            let mut j: usize = 0;
            while j < ids.len()
                invariant
                    *self == s0,
                    s0.wf(),
                    spec_cron_ok(*req),
                    spec_request_ok(*req),
                    spec_names_free(s0.registry.programs@, *req),
                    spec_deps_known(s0.registry.programs@, *req),
                    !spec_create_cycle(s0.registry.programs@, *req),
                    j <= ids@.len(),
                    forall|a: int| 0 <= a < j ==> ids@[a] != id,
                decreases ids.len() - j,
            {
                if ids[j] == id {
                    return Err(CreateError::IdCollision);
                }
                j = j + 1;
            }
            ids.push(id);
            k = k + 1;
        }
        let ghost cs = configs@;
        let ghost idv = ids@;
        proof {
            assert forall|a: int| 0 <= a < cs.len() implies spec_jitter(#[trigger] cs[a]) <= MAX_JITTER_SECS by {
                assert(spec_copy(cs[a], *req, a as nat, now));
            }
        }
        proof {
            assert(spec_names_of(cs) =~= spec_copy_names(*req)) by {
                assert forall|a: int| 0 <= a < cs.len() implies #[trigger] spec_names_of(cs)[a]
                    == spec_copy_names(*req)[a] by {
                    assert(spec_copy(cs[a], *req, a as nat, now));
                }
            }
            assert(spec_deps_of(cs) =~= spec_copy_deps(*req)) by {
                assert forall|a: int| 0 <= a < cs.len() implies #[trigger] spec_deps_of(cs)[a]
                    == spec_copy_deps(*req)[a] by {
                    assert(spec_copy(cs[a], *req, a as nat, now));
                }
            }
        }
        let created = self.create_programs(configs, ids);
        proof {
            assert forall|a: int| 0 <= a < idv.len() implies self.registry.programs@[#[trigger] idv[a]] == cs[a] by {}
            assert forall|kk: u128| #[trigger] self.registry.programs@.contains_key(kk) <==> (
            s0.registry.programs@.contains_key(kk) || idv.contains(kk)) by {}
            lemma_create_acyclic(s0.registry.programs@, self.registry.programs@, order@, idv, cs, *req);
        }
        proof {
            assert forall|a: int| 0 <= a < created@.len() implies {
                let id = (#[trigger] created@[a]).id;
                &&& !s0.registry.programs@.contains_key(id)
                &&& !s0.scheduler@.contains_key(id)
                &&& spec_copy(self.registry.programs@[id], *req, a as nat, now)
                &&& created@[a].start == (req.autostart && !self.scheduler@.contains_key(id))
                &&& req.cron is None ==> !self.scheduler@.contains_key(id)
                &&& self.scheduler@.contains_key(id) ==> (req.cron matches Some(e)
                    && self.scheduler@[id].expr == e@
                    && self.scheduler@[id].jitter_sec == crate::manager::spec_or(req.jitter_sec, 0u64))
            } by {
                assert(spec_copy(cs[a], *req, a as nat, now));
                assert(idv[a] == created@[a].id);
            }
            assert forall|kk: u128| idv.contains(kk) <==> exists|a: int|
                0 <= a < created@.len() && created@[a].id == kk by {
                if idv.contains(kk) {
                    let a = choose|a: int| 0 <= a < idv.len() && idv[a] == kk;
                    assert(created@[a].id == kk);
                }
                if exists|a: int| 0 <= a < created@.len() && created@[a].id == kk {
                    let a = choose|a: int| 0 <= a < created@.len() && created@[a].id == kk;
                    assert(idv[a] == kk);
                }
            }
            assert forall|a: int, b: int| 0 <= a < b < created@.len() implies created@[a].id != created@[b].id by {
                assert(idv[a] != idv[b]);
            }
            assert forall|kk: u128| #[trigger] s0.scheduler@.contains_key(kk) implies self.scheduler@.contains_key(
                kk,
            ) && self.scheduler@[kk] == s0.scheduler@[kk] by {
                if idv.contains(kk) {
                    let a = choose|a: int| 0 <= a < idv.len() && idv[a] == kk;
                    assert(!s0.scheduler@.contains_key(idv[a]));
                }
            }
            assert forall|kk: u128| #[trigger] self.scheduler@.contains_key(kk) implies (
            s0.scheduler@.contains_key(kk) || exists|a: int| 0 <= a < created@.len() && created@[a].id == kk) by {
                if !idv.contains(kk) {
                    assert(self.scheduler@.contains_key(kk) == s0.scheduler@.contains_key(kk));
                }
            }
        }
        Ok(created)
    }
}

} // verus!
