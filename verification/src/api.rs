//! Decisions of the HTTP API that do not depend on the transport.

use vstd::prelude::*;
use crate::create::matches_at;
use crate::text::chars_of;
use crate::ui::default_reload_timeout;

verus! {

/// `sub` occurs in `s`.
pub open spec fn spec_contains(s: Seq<char>, sub: Seq<char>) -> bool {
    exists|i: int| 0 <= i <= s.len() - sub.len() && #[trigger] s.subrange(i, i + sub.len()) == sub
}

/// Whether `sub` occurs in `s` (`str::contains`).
pub fn contains_str(s: &str, sub: &str) -> (r: bool)
    ensures
        r == spec_contains(s@, sub@),
{
    let cs = chars_of(s);
    let fs = chars_of(sub);
    if fs.len() > cs.len() {
        proof {
            if spec_contains(s@, sub@) {
                let i = choose|i: int| 0 <= i <= s@.len() - sub@.len() && #[trigger] s@.subrange(i, i + sub@.len()) == sub@;
            }
        }
        return false;
    }
    let mut i: usize = 0;
    while i <= cs.len() - fs.len()
        invariant
            cs@ == s@,
            fs@ == sub@,
            fs@.len() <= cs@.len(),
            i <= cs@.len() - fs@.len() + 1,
            forall|j: int| 0 <= j < i ==> #[trigger] s@.subrange(j, j + sub@.len()) != sub@,
        decreases cs.len() - fs.len() + 1 - i,
    {
        if matches_at(&cs, i, &fs) {
            assert(cs@.subrange(i as int, cs@.len() as int).subrange(0, fs@.len() as int) =~= s@.subrange(
                i as int,
                i + sub@.len(),
            ));
            return true;
        }
        assert(!(s@.subrange(i as int, i + sub@.len()) == sub@)) by {
            if s@.subrange(i as int, i + sub@.len()) == sub@ {
                assert(cs@.subrange(i as int, cs@.len() as int).subrange(0, fs@.len() as int) =~= s@.subrange(
                    i as int,
                    i + sub@.len(),
                ));
            }
        }
        i = i + 1;
    }
    false
}

/// HTTP status of a failed create, update or stack request: `409
/// Conflict` for a name clash, else `default_status`.
pub fn mutation_status(default_status: u16, message: &str) -> (r: u16)
    ensures
        r == (if spec_contains(message@, "already exists"@) || spec_contains(
            message@,
            "Duplicate program name"@,
        ) {
            409
        } else {
            default_status
        }),
{
    if contains_str(message, "already exists") || contains_str(message, "Duplicate program name") {
        409
    } else {
        default_status
    }
}

/// Query of a configuration reload request.
pub struct ReloadQuery {
    /// Wait for the affected programs to become healthy before answering.
    pub wait: bool,
    /// Budget of that wait, in seconds.
    pub timeout: u64,
}

impl ReloadQuery {
    /// The query from its optional parameters: no wait and a budget of
    /// thirty seconds where they are absent.
    pub fn from_params(wait: Option<bool>, timeout: Option<u64>) -> (r: ReloadQuery)
        ensures
            r.wait == (wait == Some(true)),
            r.timeout == (match timeout {
                Some(t) => t,
                None => 30,
            }),
    {
        let wait = match wait {
            Some(w) => w,
            None => false,
        };
        let timeout = match timeout {
            Some(t) => t,
            None => default_reload_timeout(),
        };
        ReloadQuery { wait, timeout }
    }
}

} // verus!
