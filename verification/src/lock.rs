//! The lock protocol: every run directory holds a fixed-name lock file on
//! which its owning process keeps a non-blocking exclusive advisory lock.
//! The lock file is deleted on orderly completion but survives abrupt
//! process death, and that asymmetry is the whole detection mechanism.
//! Probing re-runs the same try-lock and classifies the directory from
//! what it saw, without ever blocking.

use vstd::prelude::*;

verus! {

/// The inferred lifecycle state of a run directory.
#[derive(Clone, Copy, PartialEq, Eq, Structural, Debug)]
pub enum LockState {
    /// The lock file is present and a live process holds the lock.
    Active,
    /// The lock file is present but nobody holds the lock: the previous
    /// owner died without releasing it.
    Abandoned,
    /// There is no lock file: the owning process exited in an orderly way,
    /// successfully or with a handled error.
    Finished,
}

/// What one non-blocking probe of a directory's lock file means: `exists`
/// says whether the lock file was found at all, `acquired` whether the
/// exclusive try-lock on it succeeded.
pub open spec fn spec_classify_probe(exists_lock_file: bool, acquired: bool) -> LockState {
    if !exists_lock_file {
        LockState::Finished
    } else if acquired {
        LockState::Abandoned
    } else {
        LockState::Active
    }
}

/// Classifies the outcome of one probe: no lock file means the run
/// finished; an acquirable lock file means its holder died without
/// releasing it; an unacquirable one means the run is still live.
pub fn classify_probe(exists_lock_file: bool, acquired: bool) -> (r: LockState)
    ensures
        r == spec_classify_probe(exists_lock_file, acquired),
{
    if !exists_lock_file {
        LockState::Finished
    } else if acquired {
        LockState::Abandoned
    } else {
        LockState::Active
    }
}

} // verus!
