//! The versions of the portable runtime and its utility library whose
//! behaviour this library follows, and their version strings.

use vstd::prelude::*;
use crate::text::{push_decimal, spec_decimal, string_push};

verus! {

/// The major version of the utility library.
pub const APU_MAJOR_VERSION: u32 = 1;
/// The minor version of the utility library.
pub const APU_MINOR_VERSION: u32 = 6;
/// The patch version of the utility library.
pub const APU_PATCH_VERSION: u32 = 3;
/// The major version of the portable runtime.
pub const APR_MAJOR_VERSION: u32 = 1;
/// The minor version of the portable runtime.
pub const APR_MINOR_VERSION: u32 = 7;
/// The patch version of the portable runtime.
pub const APR_PATCH_VERSION: u32 = 4;

/// A version written `major.minor.patch`.
pub open spec fn version_text(major: u32, minor: u32, patch: u32) -> Seq<char> {
    spec_decimal(major as nat) + seq!['.'] + spec_decimal(minor as nat) + seq!['.']
        + spec_decimal(patch as nat)
}

/// A version as text.
fn version_string(major: u32, minor: u32, patch: u32) -> (r: String)
    ensures
        r@ == version_text(major, minor, patch),
{
    let mut s = String::new();
    push_decimal(&mut s, major as u64);
    string_push(&mut s, '.');
    push_decimal(&mut s, minor as u64);
    string_push(&mut s, '.');
    push_decimal(&mut s, patch as u64);
    assert(s@ =~= version_text(major, minor, patch));
    s
}

/// The version string of the utility library.
pub fn apu_version_string() -> (r: String)
    ensures
        r@ == version_text(APU_MAJOR_VERSION, APU_MINOR_VERSION, APU_PATCH_VERSION),
{
    version_string(APU_MAJOR_VERSION, APU_MINOR_VERSION, APU_PATCH_VERSION)
}

/// The version string of the portable runtime.
pub fn apr_version_string() -> (r: String)
    ensures
        r@ == version_text(APR_MAJOR_VERSION, APR_MINOR_VERSION, APR_PATCH_VERSION),
{
    version_string(APR_MAJOR_VERSION, APR_MINOR_VERSION, APR_PATCH_VERSION)
}

} // verus!
