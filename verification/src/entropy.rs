//! The operating system's random source, behind one trusted call.

use vstd::prelude::*;

verus! {

/// Fills `buf` with bytes from the operating system's random source.
///
/// Calls `getrandom::getrandom`. The bytes depend on the machine, so nothing
/// is stated of them; the call writes into the buffer in place, so its
/// length stays as it was. The answer is `true` when the source filled the
/// buffer and `false` when it reported an error.
#[verifier::external_body]
pub(crate) fn os_random_fill(buf: &mut [u8]) -> (r: bool)
    ensures
        final(buf)@.len() == old(buf)@.len(),
{
    getrandom::getrandom(buf).is_ok()
}

/// A fresh random 64-bit number from the operating system, or `None` when
/// the random source fails.
pub(crate) fn os_random_u64() -> (r: Option<u64>) {
    let mut buf: [u8; 8] = [0u8; 8];
    match os_random_fill(&mut buf) {
        true => {
            let mut v: u64 = 0;
            let mut i: usize = 0;
            while i < 8
                invariant
                    i <= 8,
                    buf@.len() == 8,
                decreases 8 - i,
            {
                v = (v % 0x100000000000000) * 256 + buf[i] as u64;
                i = i + 1;
            }
            Some(v)
        },
        false => None,
    }
}

} // verus!
