//! The mechanisms of process locks and the numbers that stand for them.

use vstd::prelude::*;
use vstd::std_specs::convert::FromSpecImpl;

verus! {

/// The number that stands for a lock mechanism.
#[allow(non_camel_case_types)]
pub type apr_lockmech_e = u32;

/// A lock mechanism.
#[derive(Debug, Clone, Copy, PartialEq, Eq, Structural)]
pub enum LockMech {
    /// Locks on a file with `fcntl`.
    FcntlSerialize,
    /// Locks on a file with `flock`.
    FLockSerialize,
    /// System V semaphores.
    SysVSem,
    /// POSIX semaphores.
    PosixSem,
    /// Process-shared pthread mutexes.
    ProcPthread,
    /// The platform's default.
    Default,
}

/// The number that stands for each mechanism.
pub open spec fn lockmech_code(m: LockMech) -> u32 {
    match m {
        LockMech::FcntlSerialize => 0,
        LockMech::FLockSerialize => 1,
        LockMech::SysVSem => 2,
        LockMech::ProcPthread => 3,
        LockMech::PosixSem => 4,
        LockMech::Default => 5,
    }
}

impl From<LockMech> for apr_lockmech_e {
    fn from(mech: LockMech) -> (r: Self) {
        match mech {
            LockMech::FcntlSerialize => 0,
            LockMech::FLockSerialize => 1,
            LockMech::SysVSem => 2,
            LockMech::ProcPthread => 3,
            LockMech::PosixSem => 4,
            LockMech::Default => 5,
        }
    }
}

impl FromSpecImpl<LockMech> for apr_lockmech_e {
    open spec fn obeys_from_spec() -> bool {
        true
    }

    open spec fn from_spec(v: LockMech) -> Self {
        lockmech_code(v)
    }
}

/// Different mechanisms have different numbers.
pub proof fn law_lockmech_codes_distinct(a: LockMech, b: LockMech)
    ensures
        lockmech_code(a) == lockmech_code(b) <==> a == b,
{
}

} // verus!
