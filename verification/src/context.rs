//! The environment a program is started with: its environment file, its
//! own variables, then the variables that describe it to itself.

use vstd::prelude::*;
use crate::create::{env_set, env_view, spec_env_set};
use crate::model::ProgramConfig;
use crate::text::{fmt_i64, fmt_u64, spec_dec, spec_dec_int, spec_uuid_text, uuid_text};

verus! {

/// `env` with each pair of `pairs` set in turn (a later pair overrides an
/// earlier one of the same name).
pub open spec fn spec_env_fold(
    env: Seq<(Seq<char>, Seq<char>)>,
    pairs: Seq<(Seq<char>, Seq<char>)>,
) -> Seq<(Seq<char>, Seq<char>)>
    decreases pairs.len(),
{
    if pairs.len() == 0 {
        env
    } else {
        spec_env_set(spec_env_fold(env, pairs.drop_last()), pairs.last().0, pairs.last().1)
    }
}

/// `env` with `k` set to `v` when there is a value.
pub open spec fn spec_env_set_opt(env: Seq<(Seq<char>, Seq<char>)>, k: Seq<char>, v: Option<Seq<char>>) -> Seq<
    (Seq<char>, Seq<char>),
> {
    match v {
        Some(x) => spec_env_set(env, k, x),
        None => env,
    }
}

/// Environment of program `id` (configuration `c`) started on host
/// `hostname`: the pairs read from its environment file, overridden by its
/// own variables, then `SUPER_HOSTNAME`, `SUPER_ID`, `SUPER_NAME` and, when
/// known, `SUPER_GROUP`, `SUPER_PID`, `SUPER_EXIT_CODE`, `SUPER_UPTIME_SECS`.
pub open spec fn spec_context(
    file_env: Seq<(Seq<char>, Seq<char>)>,
    c: ProgramConfig,
    id: u128,
    hostname: Seq<char>,
    pid: Option<u32>,
    exit_code: Option<i32>,
    uptime_secs: Option<u64>,
) -> Seq<(Seq<char>, Seq<char>)> {
    let e0 = spec_env_fold(spec_env_fold(Seq::empty(), file_env), env_view(c.env@));
    let e1 = spec_env_set(
        spec_env_set(spec_env_set(e0, "SUPER_HOSTNAME"@, hostname), "SUPER_ID"@, spec_uuid_text(id)),
        "SUPER_NAME"@,
        c.name@,
    );
    let e2 = spec_env_set_opt(
        e1,
        "SUPER_GROUP"@,
        match c.group {
            Some(g) => Some(g@),
            None => None,
        },
    );
    let e3 = spec_env_set_opt(
        e2,
        "SUPER_PID"@,
        match pid {
            Some(p) => Some(spec_dec(p as nat)),
            None => None,
        },
    );
    let e4 = spec_env_set_opt(
        e3,
        "SUPER_EXIT_CODE"@,
        match exit_code {
            Some(x) => Some(spec_dec_int(x as int)),
            None => None,
        },
    );
    spec_env_set_opt(
        e4,
        "SUPER_UPTIME_SECS"@,
        match uptime_secs {
            Some(u) => Some(spec_dec(u as nat)),
            None => None,
        },
    )
}

/// Set every pair of `pairs` in `env`, in order.
fn env_set_all(env: &mut Vec<(String, String)>, pairs: &Vec<(String, String)>)
    ensures
        env_view(final(env)@) == spec_env_fold(env_view(old(env)@), env_view(pairs@)),
{
    let ghost e0 = env_view(env@);
    let mut i: usize = 0;
    while i < pairs.len()
        invariant
            i <= pairs@.len(),
            env_view(env@) == spec_env_fold(e0, env_view(pairs@.subrange(0, i as int))),
        decreases pairs.len() - i,
    {
        let ghost prev = pairs@.subrange(0, i as int);
        assert(env_view(pairs@.subrange(0, i + 1)).drop_last() =~= env_view(prev));
        assert(env_view(pairs@.subrange(0, i + 1)).last() == (pairs@[i as int].0@, pairs@[i as int].1@));
        env_set(env, pairs[i].0.as_str(), pairs[i].1.clone());
        i = i + 1;
    }
    assert(pairs@.subrange(0, pairs@.len() as int) =~= pairs@);
}

/// The environment of a program being started (see [`spec_context`]).
/// `file_env` holds the pairs read from its environment file, in order.
pub fn build_context(
    file_env: &Vec<(String, String)>,
    c: &ProgramConfig,
    id: u128,
    hostname: &str,
    pid: Option<u32>,
    exit_code: Option<i32>,
    uptime_secs: Option<u64>,
) -> (r: Vec<(String, String)>)
    ensures
        env_view(r@) == spec_context(env_view(file_env@), *c, id, hostname@, pid, exit_code, uptime_secs),
{
    let mut env: Vec<(String, String)> = Vec::new();
    assert(env_view(env@) =~= Seq::<(Seq<char>, Seq<char>)>::empty());
    env_set_all(&mut env, file_env);
    env_set_all(&mut env, &c.env);
    env_set(&mut env, "SUPER_HOSTNAME", hostname.to_owned());
    env_set(&mut env, "SUPER_ID", uuid_text(id));
    env_set(&mut env, "SUPER_NAME", c.name.clone());
    if let Some(g) = &c.group {
        env_set(&mut env, "SUPER_GROUP", g.clone());
    }
    if let Some(p) = pid {
        env_set(&mut env, "SUPER_PID", fmt_u64(p as u64));
    }
    if let Some(x) = exit_code {
        env_set(&mut env, "SUPER_EXIT_CODE", fmt_i64(x as i64));
    }
    if let Some(u) = uptime_secs {
        env_set(&mut env, "SUPER_UPTIME_SECS", fmt_u64(u));
    }
    env
}

} // verus!
