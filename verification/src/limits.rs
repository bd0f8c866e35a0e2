//! Resource limits of a program: the checks of a patch, and how an update
//! merges it into the stored limits. In a patch, a CPU quota of `-1` and
//! memory values of `0` remove the field.

use vstd::prelude::*;
use crate::model::{CpuQuota, CpuSign, ResourceLimits};
use crate::text::{concat3, fmt_u64, spec_dec};

verus! {

/// Why a resource-limit patch is refused.
#[derive(Clone, Copy, Debug, PartialEq, Eq, Structural)]
pub enum LimitsError {
    /// A CPU quota at most zero that is not the removal sentinel `-1`.
    CpuNotPositive,
    /// A warning percentage above 100.
    WarnPercent { got: u32 },
}

/// Text of a resource-limit error.
pub open spec fn spec_limits_error_message(e: LimitsError) -> Seq<char> {
    match e {
        LimitsError::CpuNotPositive => "CPU quota must be positive"@,
        LimitsError::WarnPercent { got } => "memory_warn_percent must be 0–100 (got "@ + spec_dec(
            got as nat,
        ) + ")"@,
    }
}

impl LimitsError {
    pub fn message(&self) -> (r: String)
        ensures
            r@ == spec_limits_error_message(*self),
    {
        match self {
            LimitsError::CpuNotPositive => {
                proof {
                    reveal_strlit("CPU quota must be positive");
                }
                "CPU quota must be positive".to_owned()
            },
            LimitsError::WarnPercent { got } => {
                let d = fmt_u64(*got as u64);
                concat3("memory_warn_percent must be 0–100 (got ", d.as_str(), ")")
            },
        }
    }
}

/// Why a patch is refused, if it is.
pub open spec fn spec_limits_refusal(p: ResourceLimits) -> Option<LimitsError> {
    if p.cpu_quota matches Some(c) && c.sign == CpuSign::NonPositive {
        Some(LimitsError::CpuNotPositive)
    } else {
        match p.memory_warn_percent {
            Some(w) => if w > 100 {
                Some(LimitsError::WarnPercent { got: w })
            } else {
                None
            },
            None => None,
        }
    }
}

/// Checks of a resource-limit patch: a CPU quota must be positive or the
/// removal sentinel, a warning percentage at most 100.
pub fn validate_resource_limits_patch(p: &ResourceLimits) -> (r: Result<(), LimitsError>)
    ensures
        r == (match spec_limits_refusal(*p) {
            Some(e) => Err(e),
            None => Ok(()),
        }),
{
    match p.cpu_quota {
        Some(c) => if c.sign == CpuSign::NonPositive {
            return Err(LimitsError::CpuNotPositive);
        },
        None => {},
    }
    match p.memory_warn_percent {
        Some(w) => if w > 100 {
            return Err(LimitsError::WarnPercent { got: w });
        },
        None => {},
    }
    Ok(())
}

/// A CPU quota after a patch: the new quota unless it is at most zero,
/// which removes it.
pub open spec fn spec_patch_cpu(v: Option<CpuQuota>, cur: Option<CpuQuota>) -> Option<CpuQuota> {
    match v {
        Some(c) => if c.sign == CpuSign::RemovalSentinel || c.sign == CpuSign::NonPositive {
            None
        } else {
            Some(c)
        },
        None => cur,
    }
}

/// A byte amount after a patch: the new amount unless it is zero, which
/// removes it.
pub open spec fn spec_patch_bytes(v: Option<u64>, cur: Option<u64>) -> Option<u64> {
    match v {
        Some(x) => if x == 0 {
            None
        } else {
            Some(x)
        },
        None => cur,
    }
}

/// A percentage after a patch: the new one unless it is zero, which
/// removes it.
pub open spec fn spec_patch_percent(v: Option<u32>, cur: Option<u32>) -> Option<u32> {
    match v {
        Some(x) => if x == 0 {
            None
        } else {
            Some(x)
        },
        None => cur,
    }
}

/// Limits set from a patch when the program had none: only positive
/// values (and a percentage of at most 100) are kept.
pub open spec fn spec_fresh_limits(p: ResourceLimits) -> ResourceLimits {
    ResourceLimits {
        cpu_quota: match p.cpu_quota {
            Some(c) => if c.sign == CpuSign::Positive {
                Some(c)
            } else {
                None
            },
            None => None,
        },
        memory_limit: match p.memory_limit {
            Some(m) => if m > 0 {
                Some(m)
            } else {
                None
            },
            None => None,
        },
        memory_warn_percent: match p.memory_warn_percent {
            Some(w) => if 0 < w <= 100 {
                Some(w)
            } else {
                None
            },
            None => None,
        },
        memory_warn_headroom: match p.memory_warn_headroom {
            Some(h) => if h > 0 {
                Some(h)
            } else {
                None
            },
            None => None,
        },
        memory_high: match p.memory_high {
            Some(h) => if h > 0 {
                Some(h)
            } else {
                None
            },
            None => None,
        },
    }
}

/// Some limit is set.
pub open spec fn spec_any_limit(l: ResourceLimits) -> bool {
    l.cpu_quota is Some || l.memory_limit is Some || l.memory_warn_percent is Some
        || l.memory_warn_headroom is Some || l.memory_high is Some
}

/// Stored limits after a patch. Existing limits take each given field,
/// where a removal value removes it, and are dropped when neither a CPU
/// quota nor a memory cap is left. Without existing limits the patch's
/// positive values are stored, when there are any.
pub open spec fn spec_apply_limits_patch(existing: Option<ResourceLimits>, p: ResourceLimits) -> Option<
    ResourceLimits,
> {
    match existing {
        Some(old) => {
            let n = ResourceLimits {
                cpu_quota: spec_patch_cpu(p.cpu_quota, old.cpu_quota),
                memory_limit: spec_patch_bytes(p.memory_limit, old.memory_limit),
                memory_warn_percent: spec_patch_percent(p.memory_warn_percent, old.memory_warn_percent),
                memory_warn_headroom: spec_patch_bytes(p.memory_warn_headroom, old.memory_warn_headroom),
                memory_high: spec_patch_bytes(p.memory_high, old.memory_high),
            };
            if n.cpu_quota is None && n.memory_limit is None {
                None
            } else {
                Some(n)
            }
        },
        None => {
            let f = spec_fresh_limits(p);
            if spec_any_limit(f) {
                Some(f)
            } else {
                None
            }
        },
    }
}

fn patch_bytes(v: Option<u64>, cur: Option<u64>) -> (r: Option<u64>)
    ensures
        r == spec_patch_bytes(v, cur),
{
    match v {
        Some(x) => if x == 0 {
            None
        } else {
            Some(x)
        },
        None => cur,
    }
}

fn positive(v: Option<u64>) -> (r: Option<u64>)
    ensures
        r == (match v {
            Some(m) => if m > 0 {
                Some(m)
            } else {
                None
            },
            None => None,
        }),
{
    match v {
        Some(m) => if m > 0 {
            Some(m)
        } else {
            None
        },
        None => None,
    }
}

/// Merge a resource-limit patch into the stored limits (see
/// [`spec_apply_limits_patch`]).
pub fn apply_resource_limits_patch(existing: &mut Option<ResourceLimits>, patch: ResourceLimits)
    ensures
        *final(existing) == spec_apply_limits_patch(*old(existing), patch),
{
    match *existing {
        Some(old) => {
            let cpu_quota = match patch.cpu_quota {
                Some(c) => if c.sign == CpuSign::RemovalSentinel || c.sign == CpuSign::NonPositive {
                    None
                } else {
                    Some(c)
                },
                None => old.cpu_quota,
            };
            let memory_warn_percent = match patch.memory_warn_percent {
                Some(x) => if x == 0 {
                    None
                } else {
                    Some(x)
                },
                None => old.memory_warn_percent,
            };
            let n = ResourceLimits {
                cpu_quota,
                memory_limit: patch_bytes(patch.memory_limit, old.memory_limit),
                memory_warn_percent,
                memory_warn_headroom: patch_bytes(patch.memory_warn_headroom, old.memory_warn_headroom),
                memory_high: patch_bytes(patch.memory_high, old.memory_high),
            };
            if n.cpu_quota.is_none() && n.memory_limit.is_none() {
                *existing = None;
            } else {
                *existing = Some(n);
            }
        },
        None => {
            let cpu_quota = match patch.cpu_quota {
                Some(c) => if c.sign == CpuSign::Positive {
                    Some(c)
                } else {
                    None
                },
                None => None,
            };
            let memory_warn_percent = match patch.memory_warn_percent {
                Some(w) => if 0 < w && w <= 100 {
                    Some(w)
                } else {
                    None
                },
                None => None,
            };
            let f = ResourceLimits {
                cpu_quota,
                memory_limit: positive(patch.memory_limit),
                memory_warn_percent,
                memory_warn_headroom: positive(patch.memory_warn_headroom),
                memory_high: positive(patch.memory_high),
            };
            if f.cpu_quota.is_some() || f.memory_limit.is_some() || f.memory_warn_percent.is_some()
                || f.memory_warn_headroom.is_some() || f.memory_high.is_some() {
                *existing = Some(f);
            }
        },
    }
}

} // verus!

verus! {

/// Optional limits that an update accepts.
pub open spec fn spec_limits_ok(l: Option<ResourceLimits>) -> bool {
    match l {
        Some(p) => spec_limits_refusal(p) is None,
        None => true,
    }
}

} // verus!
