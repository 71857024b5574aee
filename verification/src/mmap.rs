//! The access flags of memory maps and the numbers that stand for them.

use vstd::prelude::*;
use vstd::std_specs::convert::FromSpecImpl;

verus! {

/// Memory map access flags
#[derive(Debug, Clone, Copy, PartialEq, Eq, Structural)]
pub enum MmapFlag {
    /// Read-only access
    Read,
    /// Write access
    Write,
}

/// The number that stands for `APR_MMAP_READ`.
pub const APR_MMAP_READ: i32 = 1;
/// The number that stands for `APR_MMAP_WRITE`.
pub const APR_MMAP_WRITE: i32 = 2;

/// The number that stands for each flag.
pub open spec fn mmap_flag_code(f: MmapFlag) -> i32 {
    match f {
        MmapFlag::Read => APR_MMAP_READ,
        MmapFlag::Write => APR_MMAP_WRITE,
    }
}

impl From<MmapFlag> for i32 {
    fn from(flag: MmapFlag) -> (r: Self) {
        match flag {
            MmapFlag::Read => APR_MMAP_READ,
            MmapFlag::Write => APR_MMAP_WRITE,
        }
    }
}

impl FromSpecImpl<MmapFlag> for i32 {
    open spec fn obeys_from_spec() -> bool {
        true
    }

    open spec fn from_spec(v: MmapFlag) -> Self {
        mmap_flag_code(v)
    }
}

} // verus!
