//! System events and the configured event hooks: which hooks an event
//! triggers, the JSON document a hook receives, and the environment a hook
//! command runs with.

use vstd::prelude::*;
use crate::licensing::{list_has, spec_mentions};
use crate::text::{
    chars_of, fmt_i64, fmt_u64, spec_dec, spec_dec_int, spec_uuid_text, uuid_text,
};

verus! {

/// A lifecycle or system event.
#[derive(Debug)]
pub enum SystemEvent {
    ProcessFatal {
        program_id: u128,
        program_name: String,
        pid: Option<u32>,
        uptime_secs: u64,
        exit_code: Option<i32>,
        signal: Option<i32>,
        msg: String,
        log_tail: Option<String>,
    },
    ProcessBackoff {
        program_id: u128,
        program_name: String,
        pid: Option<u32>,
        uptime_secs: u64,
        exit_code: Option<i32>,
        signal: Option<i32>,
        retry_count: u32,
    },
    ProcessStarted { program_id: u128, program_name: String, pid: u32 },
    ProcessRecovered { program_id: u128, program_name: String, pid: Option<u32>, uptime_sec: u64 },
    SystemStartup { hostname: String },
    SystemShutdown,
    MemoryPressure {
        program_id: u128,
        program_name: String,
        pid: Option<u32>,
        usage_bytes: u64,
        limit_bytes: u64,
        warn_bytes: u64,
    },
    MemoryOomKill {
        program_id: u128,
        program_name: String,
        pid: Option<u32>,
        anon_bytes: u64,
        limit_bytes: u64,
        usage_bytes: u64,
    },
}

/// Type name of an event, as hooks filter on it.
pub open spec fn spec_event_type(e: SystemEvent) -> Seq<char> {
    match e {
        SystemEvent::ProcessFatal { .. } => "process_fatal"@,
        SystemEvent::ProcessBackoff { .. } => "process_backoff"@,
        SystemEvent::ProcessStarted { .. } => "process_started"@,
        SystemEvent::ProcessRecovered { .. } => "process_recovered"@,
        SystemEvent::SystemStartup { .. } => "system_startup"@,
        SystemEvent::SystemShutdown => "system_shutdown"@,
        SystemEvent::MemoryPressure { .. } => "memory_pressure"@,
        SystemEvent::MemoryOomKill { .. } => "memory_oom_kill"@,
    }
}

/// Program an event is about, if any.
pub open spec fn spec_event_program(e: SystemEvent) -> Option<(u128, Seq<char>)> {
    match e {
        SystemEvent::ProcessFatal { program_id, program_name, .. } => Some(
            (program_id, program_name@),
        ),
        SystemEvent::ProcessBackoff { program_id, program_name, .. } => Some(
            (program_id, program_name@),
        ),
        SystemEvent::ProcessStarted { program_id, program_name, .. } => Some(
            (program_id, program_name@),
        ),
        SystemEvent::ProcessRecovered { program_id, program_name, .. } => Some(
            (program_id, program_name@),
        ),
        SystemEvent::MemoryPressure { program_id, program_name, .. } => Some(
            (program_id, program_name@),
        ),
        SystemEvent::MemoryOomKill { program_id, program_name, .. } => Some(
            (program_id, program_name@),
        ),
        _ => None,
    }
}

impl SystemEvent {
    pub fn event_type(&self) -> (r: &'static str)
        ensures
            r@ == spec_event_type(*self),
    {
        match self {
            SystemEvent::ProcessFatal { .. } => "process_fatal",
            SystemEvent::ProcessBackoff { .. } => "process_backoff",
            SystemEvent::ProcessStarted { .. } => "process_started",
            SystemEvent::ProcessRecovered { .. } => "process_recovered",
            SystemEvent::SystemStartup { .. } => "system_startup",
            SystemEvent::SystemShutdown => "system_shutdown",
            SystemEvent::MemoryPressure { .. } => "memory_pressure",
            SystemEvent::MemoryOomKill { .. } => "memory_oom_kill",
        }
    }

    pub fn program_name(&self) -> (r: Option<&String>)
        ensures
            match spec_event_program(*self) {
                Some((_, n)) => r matches Some(s) && s@ == n,
                None => r is None,
            },
    {
        match self {
            SystemEvent::ProcessFatal { program_name, .. } => Some(program_name),
            SystemEvent::ProcessBackoff { program_name, .. } => Some(program_name),
            SystemEvent::ProcessStarted { program_name, .. } => Some(program_name),
            SystemEvent::ProcessRecovered { program_name, .. } => Some(program_name),
            SystemEvent::MemoryPressure { program_name, .. } => Some(program_name),
            SystemEvent::MemoryOomKill { program_name, .. } => Some(program_name),
            _ => None,
        }
    }
}

/// A configured event hook: a command fed the event on its stdin, or a
/// webhook the event is posted to.
#[derive(Debug)]
pub struct EventHook {
    pub command: String,
    pub url: Option<String>,
    pub headers: Vec<(String, String)>,
    /// Event types, or `*`.
    pub events: Vec<String>,
    /// Program names, or `*`.
    pub programs: Vec<String>,
    /// Run without waiting for completion.
    pub run_async: bool,
    pub timeout_secs: u64,
    pub id: Option<String>,
}

/// Whether a hook fires for an event: its events name the event's type
/// (or `*`), and its programs are `*` or name the event's program.
pub open spec fn spec_matches_hook(hook: EventHook, e: SystemEvent) -> bool {
    &&& (spec_mentions(hook.events@, "*"@) || spec_mentions(hook.events@, spec_event_type(e)))
    &&& (spec_mentions(hook.programs@, "*"@) || match spec_event_program(e) {
        Some((_, n)) => spec_mentions(hook.programs@, n),
        None => false,
    })
}

/// Hook filters: a hook fires for an event whose type it lists (or `*`)
/// and, for a program event, whose program it lists (or `*`). Every
/// program event — fatal, backoff, started, recovered, memory pressure and
/// OOM kill — names its program, so a hook listing that program fires for
/// it; a system event fires only hooks for every program (`*`).
pub proof fn law_hook_filters(hook: EventHook, e: SystemEvent)
    ensures
        ({
            let ev = |t: Seq<char>| spec_mentions(hook.events@, "*"@) || spec_mentions(hook.events@, t);
            let pr = |n: Seq<char>| spec_mentions(hook.programs@, "*"@) || spec_mentions(hook.programs@, n);
            &&& (e matches SystemEvent::ProcessFatal { program_name, .. } ==> (spec_matches_hook(hook, e)
                <==> ev("process_fatal"@) && pr(program_name@)))
            &&& (e matches SystemEvent::ProcessBackoff { program_name, .. } ==> (spec_matches_hook(hook, e)
                <==> ev("process_backoff"@) && pr(program_name@)))
            &&& (e matches SystemEvent::ProcessStarted { program_name, .. } ==> (spec_matches_hook(hook, e)
                <==> ev("process_started"@) && pr(program_name@)))
            &&& (e matches SystemEvent::ProcessRecovered { program_name, .. } ==> (spec_matches_hook(hook, e)
                <==> ev("process_recovered"@) && pr(program_name@)))
            &&& (e matches SystemEvent::MemoryPressure { program_name, .. } ==> (spec_matches_hook(hook, e)
                <==> ev("memory_pressure"@) && pr(program_name@)))
            &&& (e matches SystemEvent::MemoryOomKill { program_name, .. } ==> (spec_matches_hook(hook, e)
                <==> ev("memory_oom_kill"@) && pr(program_name@)))
            &&& (e matches SystemEvent::SystemStartup { .. } ==> (spec_matches_hook(hook, e) <==> ev(
                "system_startup"@,
            ) && spec_mentions(hook.programs@, "*"@)))
            &&& (e is SystemShutdown ==> (spec_matches_hook(hook, e) <==> ev("system_shutdown"@)
                && spec_mentions(hook.programs@, "*"@)))
        }),
{
}

pub fn matches_hook(hook: &EventHook, event: &SystemEvent) -> (r: bool)
    ensures
        r == spec_matches_hook(*hook, *event),
{
    let t = event.event_type();
    if !(list_has(&hook.events, "*") || list_has(&hook.events, t)) {
        return false;
    }
    if list_has(&hook.programs, "*") {
        return true;
    }
    match event.program_name() {
        Some(name) => list_has(&hook.programs, name.as_str()),
        None => false,
    }
}

/// The hooks an event fires, by index, in configuration order.
pub fn matching_hooks(hooks: &Vec<EventHook>, event: &SystemEvent) -> (r: Vec<usize>)
    ensures
        r@.len() <= hooks@.len(),
        forall|i: int, j: int| 0 <= i < j < r@.len() ==> r@[i] < r@[j],
        forall|k: int|
            0 <= k < hooks@.len() ==> (spec_matches_hook(hooks@[k], *event) <==> r@.contains(
                k as usize,
            )),
{
    let mut r: Vec<usize> = Vec::new();
    let mut i: usize = 0;
    while i < hooks.len()
        invariant
            i <= hooks@.len(),
            r@.len() <= i,
            forall|a: int| 0 <= a < r@.len() ==> r@[a] < i,
            forall|a: int, b: int| 0 <= a < b < r@.len() ==> r@[a] < r@[b],
            forall|k: int|
                0 <= k < i ==> (spec_matches_hook(hooks@[k], *event) <==> r@.contains(k as usize)),
        decreases hooks.len() - i,
    {
        let ghost before = r@;
        if matches_hook(&hooks[i], event) {
            r.push(i);
            assert(r@[r@.len() - 1] == i);
        }
        assert forall|k: int| 0 <= k < i + 1 implies (spec_matches_hook(hooks@[k], *event)
            <==> r@.contains(k as usize)) by {
            if k < i {
                if before.contains(k as usize) {
                    let a = choose|a: int| 0 <= a < before.len() && before[a] == k as usize;
                    assert(r@[a] == k as usize);
                }
                if r@.contains(k as usize) {
                    let a = choose|a: int| 0 <= a < r@.len() && r@[a] == k as usize;
                    if a == before.len() {
                        assert(r@[a] == i);
                    } else {
                        assert(before[a] == k as usize);
                    }
                }
            } else {
                if r@.contains(k as usize) && !spec_matches_hook(hooks@[k], *event) {
                    let a = choose|a: int| 0 <= a < r@.len() && r@[a] == k as usize;
                    assert(before[a] < i);
                }
            }
        }
        i = i + 1;
    }
    r
}

/// JSON string literal of a text, as `serde_json` writes a string.
pub uninterp spec fn spec_json_str(s: Seq<char>) -> Seq<char>;

/// `serde_json::to_string` of a string: the contract claims that the
/// literal is a function of the text alone. Writing a string cannot fail
/// in serde_json; the empty text stands for its error.
#[verifier::external_body]
fn json_str(s: &str) -> (r: String)
    ensures
        r@ == spec_json_str(s@),
{
    serde_json::to_string(s).unwrap_or_default()
}

/// Append the JSON string literal of `s`.
fn push_json_str(out: &mut Vec<char>, s: &str)
    ensures
        final(out)@ == old(out)@ + spec_json_str(s@),
{
    let j = json_str(s);
    push_str(out, j.as_str());
}

fn push_str(out: &mut Vec<char>, s: &str)
    ensures
        final(out)@ == old(out)@ + s@,
{
    let cs = chars_of(s);
    let ghost o = out@;
    let mut i: usize = 0;
    while i < cs.len()
        invariant
            i <= cs@.len(),
            cs@ == s@,
            out@ == o + cs@.subrange(0, i as int),
        decreases cs.len() - i,
    {
        out.push(cs[i]);
        assert(cs@.subrange(0, i + 1) == cs@.subrange(0, i as int).push(cs@[i as int]));
        i = i + 1;
    }
    assert(cs@.subrange(0, cs@.len() as int) == cs@);
}

/// JSON of an optional number: the number, or `null`.
pub open spec fn spec_json_opt(v: Option<int>) -> Seq<char> {
    match v {
        Some(n) => spec_dec_int(n),
        None => "null"@,
    }
}

/// JSON of an optional text.
pub open spec fn spec_json_opt_str(v: Option<Seq<char>>) -> Seq<char> {
    match v {
        Some(s) => spec_json_str(s),
        None => "null"@,
    }
}

pub open spec fn opt_u32(v: Option<u32>) -> Option<int> {
    match v {
        Some(n) => Some(n as int),
        None => None,
    }
}

pub open spec fn opt_i32(v: Option<i32>) -> Option<int> {
    match v {
        Some(n) => Some(n as int),
        None => None,
    }
}

pub open spec fn opt_string(v: Option<String>) -> Option<Seq<char>> {
    match v {
        Some(s) => Some(s@),
        None => None,
    }
}

fn push_opt(out: &mut Vec<char>, v: Option<i64>)
    ensures
        final(out)@ == old(out)@ + spec_json_opt(
            match v {
                Some(n) => Some(n as int),
                None => None,
            },
        ),
{
    match v {
        Some(n) => {
            let d = fmt_i64(n);
            push_str(out, d.as_str());
        },
        None => {
            push_str(out, "null");
        },
    }
}

fn push_uint(out: &mut Vec<char>, n: u64)
    ensures
        final(out)@ == old(out)@ + spec_dec(n as nat),
{
    let d = fmt_u64(n);
    push_str(out, d.as_str());
}

/// `{"id":…,"name":…,"pid":…` of a program.
pub open spec fn spec_program_head(id: u128, name: Seq<char>, pid: Option<int>) -> Seq<char> {
    "{\"id\":\""@ + spec_uuid_text(id) + "\",\"name\":"@ + spec_json_str(name) + ",\"pid\":"@
        + spec_json_opt(pid)
}

/// A program with its uptime.
pub open spec fn spec_program_full(id: u128, name: Seq<char>, pid: Option<int>, uptime: nat) -> Seq<
    char,
> {
    spec_program_head(id, name, pid) + ",\"uptime_secs\":"@ + spec_dec(uptime) + "}"@
}

/// A program without uptime.
pub open spec fn spec_program_short(id: u128, name: Seq<char>, pid: Option<int>) -> Seq<char> {
    spec_program_head(id, name, pid) + "}"@
}

/// The `program` member of a hook document: the program's id, name, pid
/// and uptime (memory events: id, name, pid).
pub open spec fn spec_program_json(e: SystemEvent) -> Seq<char> {
    match e {
        SystemEvent::ProcessFatal { program_id, program_name, pid, uptime_secs, .. } => spec_program_full(
            program_id,
            program_name@,
            opt_u32(pid),
            uptime_secs as nat,
        ),
        SystemEvent::ProcessBackoff { program_id, program_name, pid, uptime_secs, .. } => spec_program_full(
            program_id,
            program_name@,
            opt_u32(pid),
            uptime_secs as nat,
        ),
        SystemEvent::ProcessStarted { program_id, program_name, pid } => spec_program_full(
            program_id,
            program_name@,
            Some(pid as int),
            0,
        ),
        SystemEvent::ProcessRecovered { program_id, program_name, pid, uptime_sec } => spec_program_full(
            program_id,
            program_name@,
            opt_u32(pid),
            uptime_sec as nat,
        ),
        SystemEvent::MemoryPressure { program_id, program_name, pid, .. } => spec_program_short(
            program_id,
            program_name@,
            opt_u32(pid),
        ),
        SystemEvent::MemoryOomKill { program_id, program_name, pid, .. } => spec_program_short(
            program_id,
            program_name@,
            opt_u32(pid),
        ),
        _ => "null"@,
    }
}

/// The `payload` member of a hook document: the event's own fields.
pub open spec fn spec_payload_json(e: SystemEvent) -> Seq<char> {
    match e {
        SystemEvent::ProcessFatal { exit_code, signal, msg, log_tail, .. } => "{\"exit_code\":"@
            + spec_json_opt(opt_i32(exit_code)) + ",\"log_tail\":"@ + spec_json_opt_str(
            opt_string(log_tail),
        ) + ",\"msg\":"@ + spec_json_str(msg@) + ",\"signal\":"@ + spec_json_opt(opt_i32(signal))
            + "}"@,
        SystemEvent::ProcessBackoff { exit_code, signal, retry_count, .. } => "{\"exit_code\":"@
            + spec_json_opt(opt_i32(exit_code)) + ",\"retry_count\":"@ + spec_dec(
            retry_count as nat,
        ) + ",\"signal\":"@ + spec_json_opt(opt_i32(signal)) + "}"@,
        SystemEvent::ProcessStarted { .. } => "{}"@,
        SystemEvent::ProcessRecovered { uptime_sec, .. } => "{\"uptime_sec\":"@ + spec_dec(
            uptime_sec as nat,
        ) + "}"@,
        SystemEvent::SystemStartup { hostname } => "{\"hostname\":"@ + spec_json_str(hostname@)
            + "}"@,
        SystemEvent::SystemShutdown => "{}"@,
        SystemEvent::MemoryPressure { usage_bytes, limit_bytes, warn_bytes, .. } => "{\"limit_bytes\":"@
            + spec_dec(limit_bytes as nat) + ",\"usage_bytes\":"@ + spec_dec(usage_bytes as nat)
            + ",\"warn_bytes\":"@ + spec_dec(warn_bytes as nat) + "}"@,
        SystemEvent::MemoryOomKill { anon_bytes, limit_bytes, usage_bytes, .. } => "{\"anon_bytes\":"@
            + spec_dec(anon_bytes as nat) + ",\"limit_bytes\":"@ + spec_dec(limit_bytes as nat)
            + ",\"usage_bytes\":"@ + spec_dec(usage_bytes as nat) + "}"@,
    }
}

/// The JSON document a hook receives, compact and with the members in
/// key order (as `serde_json` writes a `json!` object).
pub open spec fn spec_hook_document(
    e: SystemEvent,
    hostname: Seq<char>,
    timestamp: Seq<char>,
    version: Seq<char>,
) -> Seq<char> {
    "{\"event\":"@ + spec_json_str(spec_event_type(e)) + ",\"hostname\":"@ + spec_json_str(hostname)
        + ",\"payload\":"@ + spec_payload_json(e) + ",\"program\":"@ + spec_program_json(e)
        + ",\"timestamp\":"@ + spec_json_str(timestamp) + ",\"version\":"@ + spec_json_str(version)
        + "}"@
}

fn opt_u32_i64(v: Option<u32>) -> (r: Option<i64>)
    ensures
        match r {
            Some(n) => Some(n as int) == opt_u32(v),
            None => opt_u32(v) is None,
        },
{
    match v {
        Some(n) => Some(n as i64),
        None => None,
    }
}

fn opt_i32_i64(v: Option<i32>) -> (r: Option<i64>)
    ensures
        match r {
            Some(n) => Some(n as int) == opt_i32(v),
            None => opt_i32(v) is None,
        },
{
    match v {
        Some(n) => Some(n as i64),
        None => None,
    }
}

fn push_program_head(out: &mut Vec<char>, program_id: u128, program_name: &str, pid: Option<i64>)
    ensures
        final(out)@ == old(out)@ + spec_program_head(
            program_id,
            program_name@,
            match pid {
                Some(n) => Some(n as int),
                None => None,
            },
        ),
{
    let ghost o = out@;
    push_str(out, "{\"id\":\"");
    let u = uuid_text(program_id);
    push_str(out, u.as_str());
    push_str(out, "\",\"name\":");
    push_json_str(out, program_name);
    push_str(out, ",\"pid\":");
    push_opt(out, pid);
    assert(out@ =~= o + spec_program_head(
        program_id,
        program_name@,
        match pid {
            Some(n) => Some(n as int),
            None => None,
        },
    ));
}

fn push_program_full(out: &mut Vec<char>, program_id: u128, program_name: &str, pid: Option<i64>, uptime: u64)
    ensures
        final(out)@ == old(out)@ + spec_program_full(
            program_id,
            program_name@,
            match pid {
                Some(n) => Some(n as int),
                None => None,
            },
            uptime as nat,
        ),
{
    let ghost o = out@;
    push_program_head(out, program_id, program_name, pid);
    push_str(out, ",\"uptime_secs\":");
    push_uint(out, uptime);
    push_str(out, "}");
    assert(out@ =~= o + spec_program_full(
        program_id,
        program_name@,
        match pid {
            Some(n) => Some(n as int),
            None => None,
        },
        uptime as nat,
    ));
}

fn push_program_short(out: &mut Vec<char>, program_id: u128, program_name: &str, pid: Option<i64>)
    ensures
        final(out)@ == old(out)@ + spec_program_short(
            program_id,
            program_name@,
            match pid {
                Some(n) => Some(n as int),
                None => None,
            },
        ),
{
    let ghost o = out@;
    push_program_head(out, program_id, program_name, pid);
    push_str(out, "}");
    assert(out@ =~= o + spec_program_short(
        program_id,
        program_name@,
        match pid {
            Some(n) => Some(n as int),
            None => None,
        },
    ));
}

fn push_program_json(out: &mut Vec<char>, e: &SystemEvent)
    ensures
        final(out)@ == old(out)@ + spec_program_json(*e),
{
    match e {
        SystemEvent::ProcessFatal { program_id, program_name, pid, uptime_secs, .. } => {
            push_program_full(out, *program_id, program_name.as_str(), opt_u32_i64(*pid), *uptime_secs);
        },
        SystemEvent::ProcessBackoff { program_id, program_name, pid, uptime_secs, .. } => {
            push_program_full(out, *program_id, program_name.as_str(), opt_u32_i64(*pid), *uptime_secs);
        },
        SystemEvent::ProcessStarted { program_id, program_name, pid } => {
            push_program_full(out, *program_id, program_name.as_str(), Some(*pid as i64), 0);
        },
        SystemEvent::ProcessRecovered { program_id, program_name, pid, uptime_sec } => {
            push_program_full(out, *program_id, program_name.as_str(), opt_u32_i64(*pid), *uptime_sec);
        },
        SystemEvent::MemoryPressure { program_id, program_name, pid, .. } => {
            push_program_short(out, *program_id, program_name.as_str(), opt_u32_i64(*pid));
        },
        SystemEvent::MemoryOomKill { program_id, program_name, pid, .. } => {
            push_program_short(out, *program_id, program_name.as_str(), opt_u32_i64(*pid));
        },
        _ => {
            push_str(out, "null");
        },
    }
}

#[verifier::rlimit(40)]
fn push_payload_json(out: &mut Vec<char>, e: &SystemEvent)
    ensures
        final(out)@ == old(out)@ + spec_payload_json(*e),
{
    let ghost o = out@;
    match e {
        SystemEvent::ProcessFatal { exit_code, signal, msg, log_tail, .. } => {
            push_str(out, "{\"exit_code\":");
            push_opt(out, opt_i32_i64(*exit_code));
            push_str(out, ",\"log_tail\":");
            match log_tail {
                Some(t) => push_json_str(out, t.as_str()),
                None => push_str(out, "null"),
            }
            push_str(out, ",\"msg\":");
            push_json_str(out, msg.as_str());
            push_str(out, ",\"signal\":");
            push_opt(out, opt_i32_i64(*signal));
            push_str(out, "}");
            assert(out@ =~= o + spec_payload_json(*e));
        },
        SystemEvent::ProcessBackoff { exit_code, signal, retry_count, .. } => {
            push_str(out, "{\"exit_code\":");
            push_opt(out, opt_i32_i64(*exit_code));
            push_str(out, ",\"retry_count\":");
            push_uint(out, *retry_count as u64);
            push_str(out, ",\"signal\":");
            push_opt(out, opt_i32_i64(*signal));
            push_str(out, "}");
            assert(out@ =~= o + spec_payload_json(*e));
        },
        SystemEvent::ProcessStarted { .. } => {
            push_str(out, "{}");
            assert(out@ =~= o + spec_payload_json(*e));
        },
        SystemEvent::ProcessRecovered { uptime_sec, .. } => {
            push_str(out, "{\"uptime_sec\":");
            push_uint(out, *uptime_sec);
            push_str(out, "}");
            assert(out@ =~= o + spec_payload_json(*e));
        },
        SystemEvent::SystemStartup { hostname } => {
            push_str(out, "{\"hostname\":");
            push_json_str(out, hostname.as_str());
            push_str(out, "}");
            assert(out@ =~= o + spec_payload_json(*e));
        },
        SystemEvent::SystemShutdown => {
            push_str(out, "{}");
            assert(out@ =~= o + spec_payload_json(*e));
        },
        SystemEvent::MemoryPressure { usage_bytes, limit_bytes, warn_bytes, .. } => {
            push_str(out, "{\"limit_bytes\":");
            push_uint(out, *limit_bytes);
            push_str(out, ",\"usage_bytes\":");
            push_uint(out, *usage_bytes);
            push_str(out, ",\"warn_bytes\":");
            push_uint(out, *warn_bytes);
            push_str(out, "}");
            assert(out@ =~= o + spec_payload_json(*e));
        },
        SystemEvent::MemoryOomKill { anon_bytes, limit_bytes, usage_bytes, .. } => {
            push_str(out, "{\"anon_bytes\":");
            push_uint(out, *anon_bytes);
            push_str(out, ",\"limit_bytes\":");
            push_uint(out, *limit_bytes);
            push_str(out, ",\"usage_bytes\":");
            push_uint(out, *usage_bytes);
            push_str(out, "}");
            assert(out@ =~= o + spec_payload_json(*e));
        },
    }
}

/// The JSON document a hook receives for an event (see
/// [`spec_hook_document`]); `timestamp` is the RFC 3339 time of dispatch.
pub fn build_payload(event: &SystemEvent, hostname: &str, timestamp: &str, version: &str) -> (r:
    String)
    ensures
        r@ == spec_hook_document(*event, hostname@, timestamp@, version@),
{
    let mut out: Vec<char> = Vec::new();
    push_str(&mut out, "{\"event\":");
    push_json_str(&mut out, event.event_type());
    push_str(&mut out, ",\"hostname\":");
    push_json_str(&mut out, hostname);
    push_str(&mut out, ",\"payload\":");
    push_payload_json(&mut out, event);
    push_str(&mut out, ",\"program\":");
    push_program_json(&mut out, event);
    push_str(&mut out, ",\"timestamp\":");
    push_json_str(&mut out, timestamp);
    push_str(&mut out, ",\"version\":");
    push_json_str(&mut out, version);
    push_str(&mut out, "}");
    assert(out@ =~= spec_hook_document(*event, hostname@, timestamp@, version@));
    crate::text::string_of(out.as_slice())
}

/// Views of environment entries.
pub open spec fn env_view(v: Seq<(String, String)>) -> Seq<(Seq<char>, Seq<char>)> {
    v.map_values(|p: (String, String)| (p.0@, p.1@))
}

/// Entries of the program of an event: id, name, and pid when known.
pub open spec fn spec_program_env(id: u128, name: Seq<char>, pid: Option<u32>) -> Seq<
    (Seq<char>, Seq<char>),
> {
    seq![("SUPER_ID"@, spec_uuid_text(id)), ("SUPER_NAME"@, name)] + match pid {
        Some(p) => seq![("SUPER_PID"@, spec_dec(p as nat))],
        None => Seq::empty(),
    }
}

/// Environment of a hook command: `SUPER_EVENT`, `SUPER_HOSTNAME`, and the
/// event's own fields.
pub open spec fn spec_hook_env(e: SystemEvent, hostname: Seq<char>) -> Seq<(Seq<char>, Seq<char>)> {
    seq![("SUPER_EVENT"@, spec_event_type(e)), ("SUPER_HOSTNAME"@, hostname)] + match e {
        SystemEvent::ProcessFatal { program_id, program_name, pid, uptime_secs, exit_code, .. } => spec_program_env(
            program_id,
            program_name@,
            pid,
        ) + seq![("SUPER_UPTIME_SECS"@, spec_dec(uptime_secs as nat))] + match exit_code {
            Some(c) => seq![("SUPER_EXIT_CODE"@, spec_dec_int(c as int))],
            None => Seq::empty(),
        },
        SystemEvent::ProcessBackoff { program_id, program_name, pid, uptime_secs, exit_code, .. } => spec_program_env(
            program_id,
            program_name@,
            pid,
        ) + seq![("SUPER_UPTIME_SECS"@, spec_dec(uptime_secs as nat))] + match exit_code {
            Some(c) => seq![("SUPER_EXIT_CODE"@, spec_dec_int(c as int))],
            None => Seq::empty(),
        },
        SystemEvent::ProcessStarted { program_id, program_name, pid } => spec_program_env(
            program_id,
            program_name@,
            Some(pid),
        ),
        SystemEvent::ProcessRecovered { program_id, program_name, pid, uptime_sec } => spec_program_env(
            program_id,
            program_name@,
            pid,
        ) + seq![("SUPER_UPTIME_SECS"@, spec_dec(uptime_sec as nat))],
        SystemEvent::MemoryPressure { program_id, program_name, pid, usage_bytes, limit_bytes, warn_bytes } => spec_program_env(
            program_id,
            program_name@,
            pid,
        ) + seq![
            ("SUPER_USAGE_BYTES"@, spec_dec(usage_bytes as nat)),
            ("SUPER_LIMIT_BYTES"@, spec_dec(limit_bytes as nat)),
            ("SUPER_WARN_BYTES"@, spec_dec(warn_bytes as nat)),
        ],
        SystemEvent::MemoryOomKill { program_id, program_name, pid, usage_bytes, limit_bytes, .. } => spec_program_env(
            program_id,
            program_name@,
            pid,
        ) + seq![
            ("SUPER_USAGE_BYTES"@, spec_dec(usage_bytes as nat)),
            ("SUPER_LIMIT_BYTES"@, spec_dec(limit_bytes as nat)),
        ],
        _ => Seq::empty(),
    }
}

fn push_env(env: &mut Vec<(String, String)>, k: &str, v: String)
    ensures
        env_view(final(env)@) == env_view(old(env)@).push((k@, v@)),
{
    env.push((k.to_owned(), v));
    assert(env_view(env@) =~= env_view(old(env)@).push((k@, v@)));
}

fn push_program_env(env: &mut Vec<(String, String)>, id: u128, name: &String, pid: Option<u32>)
    ensures
        env_view(final(env)@) == env_view(old(env)@) + spec_program_env(id, name@, pid),
{
    let ghost o = env_view(env@);
    push_env(env, "SUPER_ID", uuid_text(id));
    push_env(env, "SUPER_NAME", name.clone());
    match pid {
        Some(p) => push_env(env, "SUPER_PID", fmt_u64(p as u64)),
        None => {},
    }
    assert(env_view(env@) =~= o + spec_program_env(id, name@, pid));
}

/// Environment of a hook command for an event.
pub fn build_env(event: &SystemEvent, hostname: &str) -> (r: Vec<(String, String)>)
    ensures
        env_view(r@) == spec_hook_env(*event, hostname@),
{
    let mut env: Vec<(String, String)> = Vec::new();
    push_env(&mut env, "SUPER_EVENT", event.event_type().to_owned());
    push_env(&mut env, "SUPER_HOSTNAME", hostname.to_owned());
    let ghost head = env_view(env@);
    match event {
        SystemEvent::ProcessFatal { program_id, program_name, pid, uptime_secs, exit_code, .. } => {
            push_program_env(&mut env, *program_id, program_name, *pid);
            push_env(&mut env, "SUPER_UPTIME_SECS", fmt_u64(*uptime_secs));
            match exit_code {
                Some(c) => push_env(&mut env, "SUPER_EXIT_CODE", fmt_i64(*c as i64)),
                None => {},
            }
        },
        SystemEvent::ProcessBackoff { program_id, program_name, pid, uptime_secs, exit_code, .. } => {
            push_program_env(&mut env, *program_id, program_name, *pid);
            push_env(&mut env, "SUPER_UPTIME_SECS", fmt_u64(*uptime_secs));
            match exit_code {
                Some(c) => push_env(&mut env, "SUPER_EXIT_CODE", fmt_i64(*c as i64)),
                None => {},
            }
        },
        SystemEvent::ProcessStarted { program_id, program_name, pid } => {
            push_program_env(&mut env, *program_id, program_name, Some(*pid));
        },
        SystemEvent::ProcessRecovered { program_id, program_name, pid, uptime_sec } => {
            push_program_env(&mut env, *program_id, program_name, *pid);
            push_env(&mut env, "SUPER_UPTIME_SECS", fmt_u64(*uptime_sec));
        },
        SystemEvent::MemoryPressure { program_id, program_name, pid, usage_bytes, limit_bytes, warn_bytes } => {
            push_program_env(&mut env, *program_id, program_name, *pid);
            push_env(&mut env, "SUPER_USAGE_BYTES", fmt_u64(*usage_bytes));
            push_env(&mut env, "SUPER_LIMIT_BYTES", fmt_u64(*limit_bytes));
            push_env(&mut env, "SUPER_WARN_BYTES", fmt_u64(*warn_bytes));
        },
        SystemEvent::MemoryOomKill { program_id, program_name, pid, usage_bytes, limit_bytes, .. } => {
            push_program_env(&mut env, *program_id, program_name, *pid);
            push_env(&mut env, "SUPER_USAGE_BYTES", fmt_u64(*usage_bytes));
            push_env(&mut env, "SUPER_LIMIT_BYTES", fmt_u64(*limit_bytes));
        },
        _ => {},
    }
    assert(env_view(env@) =~= spec_hook_env(*event, hostname@));
    env
}

/// Host name of the machine (`hostname::get`, lossily decoded); `None`
/// when it cannot be read. Nothing is claimed of the name.
#[verifier::external_body]
fn read_host_name() -> (r: Option<String>) {
    match hostname::get() {
        Ok(h) => Some(h.to_string_lossy().to_string()),
        Err(_) => None,
    }
}

/// The host name reported in events: the machine's name, or `unknown`
/// when it could not be read.
pub fn host_or_unknown(h: Option<String>) -> (r: String)
    ensures
        match h {
            Some(s) => r@ == s@,
            None => r@ == "unknown"@,
        },
{
    match h {
        Some(s) => s,
        None => {
            proof {
                reveal_strlit("unknown");
            }
            "unknown".to_owned()
        },
    }
}

/// Host name of the machine, or `unknown` when it cannot be read (see
/// [`host_or_unknown`]).
pub fn host_name() -> (r: String) {
    host_or_unknown(read_host_name())
}

/// What dispatching an event does: the hooks it fires (by index), the
/// document they receive and the environment of hook commands.
#[derive(Debug)]
pub struct Dispatch {
    pub hooks: Vec<usize>,
    pub body: String,
    pub env: Vec<(String, String)>,
}

/// Plan the dispatch of an event to the configured hooks: nothing when no
/// hook matches; else the matching hooks with the document and the
/// environment, built with this machine's host name.
pub fn plan_dispatch(hooks: &Vec<EventHook>, event: &SystemEvent, timestamp: &str, version: &str) -> (r:
    Option<Dispatch>)
    ensures
        match r {
            None => forall|k: int| 0 <= k < hooks@.len() ==> !spec_matches_hook(hooks@[k], *event),
            Some(d) => {
                &&& d.hooks@.len() > 0
                &&& forall|i: int, j: int| 0 <= i < j < d.hooks@.len() ==> d.hooks@[i] < d.hooks@[j]
                &&& forall|k: int|
                    0 <= k < hooks@.len() ==> (spec_matches_hook(hooks@[k], *event)
                        <==> d.hooks@.contains(k as usize))
                &&& exists|h: Seq<char>|
                    d.body@ == spec_hook_document(*event, h, timestamp@, version@)
                        && env_view(d.env@) == spec_hook_env(*event, h)
            },
        },
{
    let matching = matching_hooks(hooks, event);
    if matching.len() == 0 {
        assert forall|k: int| 0 <= k < hooks@.len() implies !spec_matches_hook(hooks@[k], *event) by {
            if spec_matches_hook(hooks@[k], *event) {
                assert(matching@.contains(k as usize));
            }
        }
        return None;
    }
    let host = host_name();
    let body = build_payload(event, host.as_str(), timestamp, version);
    let env = build_env(event, host.as_str());
    Some(Dispatch { hooks: matching, body, env })
}

} // verus!
