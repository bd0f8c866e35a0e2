//! Helpers of the benchmark runner that compares supervisors.

use vstd::prelude::*;
use crate::text::{concat2, fmt_u64, spec_dec};

verus! {

/// Supervisor under test.
#[derive(Clone, Copy, Debug, PartialEq, Eq, Structural)]
pub enum Target {
    SuperOss,
    SuperPro,
    Supervisord,
    Pm2,
}

impl Target {
    /// Name of the target on the command line and in reports.
    pub fn as_str(self) -> (r: &'static str)
        ensures
            r@ == (match self {
                Target::SuperOss => "super-oss"@,
                Target::SuperPro => "super-pro"@,
                Target::Supervisord => "supervisord"@,
                Target::Pm2 => "pm2"@,
            }),
    {
        match self {
            Target::SuperOss => "super-oss",
            Target::SuperPro => "super-pro",
            Target::Supervisord => "supervisord",
            Target::Pm2 => "pm2",
        }
    }
}

/// `/proc` entry of a process.
pub fn proc_dir(pid: u32) -> (r: String)
    ensures
        r@ == "/proc/"@ + spec_dec(pid as nat),
{
    let d = fmt_u64(pid as u64);
    concat2("/proc/", d.as_str())
}

/// Whether any of the daemon's processes is left after a stop; `alive[i]`
/// tells whether the `/proc` entry of `pids[i]` exists.
pub fn leftovers(pids: &[u32], alive: &[bool]) -> (r: bool)
    requires
        pids@.len() == alive@.len(),
    ensures
        r == exists|i: int| 0 <= i < alive@.len() && alive@[i],
{
    let mut i: usize = 0;
    while i < alive.len()
        invariant
            i <= alive@.len(),
            forall|k: int| 0 <= k < i ==> !alive@[k],
        decreases alive.len() - i,
    {
        if alive[i] {
            return true;
        }
        i = i + 1;
    }
    false
}

} // verus!
