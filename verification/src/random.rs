//! Random number generation from the operating system's random source:
//! bytes, 32- and 64-bit numbers, and numbers below a bound drawn without
//! bias by rejection.

use vstd::prelude::*;
use crate::entropy::os_random_fill;
use crate::error::{Error, Result};
use crate::pool::Pool;
use crate::status::Status;
use crate::time::Time;

verus! {

/// A random generator. Its bytes come from the operating system's random
/// source, which needs no seeding; the entropy handed to it is counted.
pub struct Random {
    entropy: u64,
}

impl Random {
    /// The number of bytes of entropy handed to the generator (held at the
    /// largest 64-bit number).
    pub closed spec fn spec_entropy(&self) -> u64 {
        self.entropy
    }

    /// Create a generator.
    pub fn new(_pool: &Pool) -> (r: Result<Self>)
        ensures
            r matches Ok(g) && g.spec_entropy() == 0,
    {
        Ok(Random { entropy: 0 })
    }

    /// Add entropy: the generator counts its bytes.
    pub fn add_entropy(&mut self, entropy: &[u8]) -> (r: Result<()>)
        ensures
            r is Ok,
            final(self).spec_entropy() == (if old(self).spec_entropy() + entropy@.len()
                > u64::MAX {
                u64::MAX as int
            } else {
                old(self).spec_entropy() + entropy@.len()
            }),
    {
        let n = entropy.len() as u64;
        self.entropy = if self.entropy > u64::MAX - n {
            u64::MAX
        } else {
            self.entropy + n
        };
        Ok(())
    }

    /// Fill the buffer with bytes for secure use; the source's failure is
    /// an error.
    pub fn secure_bytes(&mut self, buf: &mut [u8]) -> (r: Result<()>)
        ensures
            final(buf)@.len() == old(buf)@.len(),
            *final(self) == *old(self),
            r matches Err(e) ==> e.spec_status() == Status::General,
    {
        fill(buf)
    }

    /// Fill the buffer with bytes for other use; the source's failure is an
    /// error.
    pub fn insecure_bytes(&mut self, buf: &mut [u8]) -> (r: Result<()>)
        ensures
            final(buf)@.len() == old(buf)@.len(),
            *final(self) == *old(self),
            r matches Err(e) ==> e.spec_status() == Status::General,
    {
        fill(buf)
    }

    /// Make sure that bytes handed out later do not follow from those handed
    /// out before: the source never lets them.
    pub fn barrier(&mut self) -> (r: Result<()>)
        ensures
            r is Ok,
            *final(self) == *old(self),
    {
        Ok(())
    }

    /// Whether secure bytes can be had: the source always gives them.
    pub fn secure_ready(&self) -> (r: Result<bool>)
        ensures
            r matches Ok(b) && b,
    {
        Ok(true)
    }
}

/// Fills a buffer from the source; its failure is an error.
fn fill(buf: &mut [u8]) -> (r: Result<()>)
    ensures
        final(buf)@.len() == old(buf)@.len(),
        r matches Err(e) ==> e.spec_status() == Status::General,
{
    if os_random_fill(buf) {
        Ok(())
    } else {
        Err(Error::from_status(Status::General))
    }
}

/// The eight bytes of a number, lowest first.
pub fn le_bytes_of(v: i64) -> (r: [u8; 8])
    ensures
        forall|i: int| 0 <= i < 8 ==> r@[i] == ((v as u64) as int / pow256(i)) % 256,
{
    let u = v as u64;
    let r: [u8; 8] = [
        (u % 256) as u8,
        (u / 0x100 % 256) as u8,
        (u / 0x1_0000 % 256) as u8,
        (u / 0x100_0000 % 256) as u8,
        (u / 0x1_0000_0000 % 256) as u8,
        (u / 0x100_0000_0000 % 256) as u8,
        (u / 0x1_0000_0000_0000 % 256) as u8,
        (u / 0x100_0000_0000_0000 % 256) as u8,
    ];
    r
}

/// 256 to a power below 8.
pub open spec fn pow256(i: int) -> int {
    if i == 0 {
        1
    } else if i == 1 {
        0x100
    } else if i == 2 {
        0x1_0000
    } else if i == 3 {
        0x100_0000
    } else if i == 4 {
        0x1_0000_0000
    } else if i == 5 {
        0x100_0000_0000
    } else if i == 6 {
        0x1_0000_0000_0000
    } else {
        0x100_0000_0000_0000
    }
}

/// Generate secure random bytes directly without creating a Random
/// instance: the time is added as entropy first.
pub fn generate_secure_bytes(buf: &mut [u8], pool: &Pool) -> (r: Result<()>)
    ensures
        final(buf)@.len() == old(buf)@.len(),
        r matches Err(e) ==> e.spec_status() == Status::General,
{
    let mut random = Random::new(pool)?;
    let now = Time::now().as_micros();
    let entropy = le_bytes_of(now);
    random.add_entropy(&entropy)?;
    random.barrier()?;
    if random.secure_ready()? {
        random.secure_bytes(buf)
    } else {
        random.insecure_bytes(buf)
    }
}

/// Generate insecure (but fast) random bytes.
pub fn generate_insecure_bytes(buf: &mut [u8], pool: &Pool) -> (r: Result<()>)
    ensures
        final(buf)@.len() == old(buf)@.len(),
        r matches Err(e) ==> e.spec_status() == Status::General,
{
    let mut random = Random::new(pool)?;
    random.insecure_bytes(buf)
}

/// The number of four bytes, lowest first.
pub fn u32_from_le(b: [u8; 4]) -> (r: u32)
    ensures
        r == b@[0] + b@[1] * 0x100 + b@[2] * 0x1_0000 + b@[3] * 0x100_0000,
{
    (b[0] as u32) + (b[1] as u32) * 0x100 + (b[2] as u32) * 0x1_0000 + (b[3] as u32) * 0x100_0000
}

/// The number of eight bytes, lowest first.
pub fn u64_from_le(b: [u8; 8]) -> (r: u64)
    ensures
        r == b@[0] + b@[1] * 0x100 + b@[2] * 0x1_0000 + b@[3] * 0x100_0000 + b@[4]
            * 0x1_0000_0000 + b@[5] * 0x100_0000_0000 + b@[6] * 0x1_0000_0000_0000 + b@[7]
            * 0x100_0000_0000_0000,
{
    (b[0] as u64) + (b[1] as u64) * 0x100 + (b[2] as u64) * 0x1_0000 + (b[3] as u64) * 0x100_0000
        + (b[4] as u64) * 0x1_0000_0000 + (b[5] as u64) * 0x100_0000_0000 + (b[6] as u64)
        * 0x1_0000_0000_0000 + (b[7] as u64) * 0x100_0000_0000_0000
}

/// Generate a random u32 from four secure bytes.
pub fn generate_u32(pool: &Pool) -> (r: Result<u32>)
    ensures
        r matches Err(e) ==> e.spec_status() == Status::General,
{
    let mut buf: [u8; 4] = [0u8; 4];
    generate_secure_bytes(&mut buf, pool)?;
    Ok(u32_from_le(buf))
}

/// Generate a random u64 from eight secure bytes.
pub fn generate_u64(pool: &Pool) -> (r: Result<u64>)
    ensures
        r matches Err(e) ==> e.spec_status() == Status::General,
{
    let mut buf: [u8; 8] = [0u8; 8];
    generate_secure_bytes(&mut buf, pool)?;
    Ok(u64_from_le(buf))
}

/// The bound below which a draw is kept when drawing below `max`: the
/// largest multiple of `max` that fits, so that every remainder is equally
/// likely.
pub open spec fn draw_limit(max: u32) -> int {
    u32::MAX - (u32::MAX % max)
}

/// What a draw gives when drawing below `max`: its remainder, if it is
/// below the limit; else it is rejected.
pub fn reject_sample(max: u32, value: u32) -> (r: Option<u32>)
    requires
        max > 0,
    ensures
        value < draw_limit(max) ==> r == Some(value % max),
        value >= draw_limit(max) ==> r is None,
{
    let range = u32::MAX - (u32::MAX % max);
    if value < range {
        Some(value % max)
    } else {
        None
    }
}

/// Generate random numbers in a given range [0, max): numbers are drawn
/// until one falls below the limit, and its remainder is taken. A range of
/// nothing gives 0.
pub fn generate_range(max: u32, pool: &Pool) -> (r: Result<u32>)
    ensures
        max == 0 ==> (r matches Ok(v) && v == 0),
        max > 0 ==> (r matches Ok(v) ==> v < max),
        r matches Err(e) ==> e.spec_status() == Status::General,
{
    if max == 0 {
        return Ok(0);
    }
    let mut budget: u64 = u64::MAX;
    while budget > 0
        invariant
            max > 0,
        decreases budget,
    {
        let value = generate_u32(pool)?;
        if let Some(v) = reject_sample(max, value) {
            return Ok(v);
        }
        budget = budget - 1;
    }
    Err(Error::from_status(Status::General))
}

} // verus!
