//! Which persisted snapshot of the programs the daemon starts from.

use vstd::prelude::*;

verus! {

/// Where the programs are restored from at startup.
#[derive(Clone, Copy, Debug, PartialEq, Eq, Structural)]
pub enum Recovery {
    /// The snapshot file.
    Primary,
    /// No snapshot: start with no programs.
    Empty,
    /// The snapshot failed to load; its backup did.
    Backup,
    /// The snapshot exists but neither it nor its backup loads: refuse to start.
    Corrupted,
}

/// Choose the snapshot to start from, given whether the snapshot loaded,
/// whether it exists, and (consulted only when it exists and failed)
/// whether its backup exists and loaded.
pub fn recovery(primary_loaded: bool, primary_exists: bool, backup_exists: bool, backup_loaded: bool) -> (r:
    Recovery)
    ensures
        r == (if primary_loaded {
            Recovery::Primary
        } else if !primary_exists {
            Recovery::Empty
        } else if backup_exists && backup_loaded {
            Recovery::Backup
        } else {
            Recovery::Corrupted
        }),
{
    if primary_loaded {
        Recovery::Primary
    } else if !primary_exists {
        Recovery::Empty
    } else if backup_exists && backup_loaded {
        Recovery::Backup
    } else {
        Recovery::Corrupted
    }
}

} // verus!
