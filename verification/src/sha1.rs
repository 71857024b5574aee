//! SHA1 digests: one-shot, incremental, and in hexadecimal.

use vstd::prelude::*;
use ::sha1::Digest;
use crate::base64::{ascii_chars, spec_b64_encode};
use crate::pool::Pool;
use crate::text::{spec_hex, to_hex};

verus! {

/// Size of an SHA1 digest in bytes.
pub const APR_SHA1_DIGESTSIZE: usize = 20;

/// The SHA1 digest of a byte sequence.
pub uninterp spec fn sha1_digest(data: Seq<u8>) -> Seq<u8>;

/// The SHA1 digest of `data`.
///
/// Calls `Sha1::digest` of the `sha1` crate. The digest takes pages to state,
/// so it is named: the result is `sha1_digest` of the input, twenty bytes.
#[verifier::external_body]
fn sha1_compute(data: &[u8]) -> (r: [u8; 20])
    ensures
        r@ == sha1_digest(data@),
{
    ::sha1::Sha1::digest(data).into()
}

/// SHA1 context for incremental hashing: it holds what was fed to it.
pub struct Sha1Context {
    data: Vec<u8>,
}

impl Sha1Context {
    /// The bytes fed to the context so far.
    pub closed spec fn spec_data(&self) -> Seq<u8> {
        self.data@
    }

    /// Create a new SHA1 context.
    pub fn new(_pool: &Pool) -> (r: Self)
        ensures
            r.spec_data() == Seq::<u8>::empty(),
    {
        Sha1Context { data: Vec::new() }
    }

    /// Update the SHA1 context with more data.
    pub fn update(&mut self, data: &[u8])
        ensures
            final(self).spec_data() == old(self).spec_data() + data@,
    {
        self.update_binary(data)
    }

    /// Update the SHA1 context with more data (binary-safe version).
    pub fn update_binary(&mut self, data: &[u8])
        ensures
            final(self).spec_data() == old(self).spec_data() + data@,
    {
        let mut i: usize = 0;
        let ghost start = self.data@;
        while i < data.len()
            invariant
                i <= data@.len(),
                self.data@ == start + data@.subrange(0, i as int),
            decreases data@.len() - i,
        {
            self.data.push(data[i]);
            proof {
                assert(data@.subrange(0, i + 1) =~= data@.subrange(0, i as int).push(data@[i as int]));
            }
            i = i + 1;
        }
        proof {
            assert(data@.subrange(0, data@.len() as int) =~= data@);
        }
    }

    /// Finalize the SHA1 context and return the digest of all that it was fed.
    pub fn finalize(self) -> (r: [u8; APR_SHA1_DIGESTSIZE])
        ensures
            r@ == sha1_digest(self.spec_data()),
    {
        sha1_compute(self.data.as_slice())
    }
}

/// Compute the SHA1 digest of data (pool-less API).
pub fn hash(data: &[u8]) -> (r: [u8; APR_SHA1_DIGESTSIZE])
    ensures
        r@ == sha1_digest(data@),
{
    let pool = Pool::new();
    sha1(data, &pool)
}

/// Encode data as a SHA1 hash in hex format (pool-less API).
pub fn hash_hex(data: &[u8]) -> (r: String)
    ensures
        r@ == spec_hex(sha1_digest(data@)),
{
    let pool = Pool::new();
    sha1_encode(data, &pool)
}

/// Compute the SHA1 digest of data in one shot (pool-exposed API).
pub fn sha1(data: &[u8], pool: &Pool) -> (r: [u8; APR_SHA1_DIGESTSIZE])
    ensures
        r@ == sha1_digest(data@),
{
    let mut ctx = Sha1Context::new(pool);
    ctx.update_binary(data);
    proof {
        assert(Seq::<u8>::empty() + data@ =~= data@);
    }
    ctx.finalize()
}

/// Encode data as a SHA1 hash in hex format (pool-exposed API).
pub fn sha1_encode(data: &[u8], pool: &Pool) -> (r: String)
    ensures
        r@ == spec_hex(sha1_digest(data@)),
{
    let digest = sha1(data, pool);
    to_hex(&digest)
}

/// Encode data as a SHA1 hash in base64 format: 28 characters, the last
/// one the only `=`.
pub fn sha1_base64(data: &[u8], pool: &Pool) -> (r: String)
    ensures
        r@ == ascii_chars(spec_b64_encode(sha1_digest(data@))),
        r@.len() == 28,
        r@[27] == '=',
        r@[26] != '=',
{
    let digest = sha1(data, pool);
    proof {
        assert(digest@.len() == 20);
        crate::base64::law_base64_padding(digest@);
    }
    base64_encode(&digest)
}

/// Base64 with `=` padding, the same encoding as the base64 module's.
fn base64_encode(data: &[u8]) -> (r: String)
    requires
        data@.len() <= 20,
    ensures
        r@ == ascii_chars(spec_b64_encode(data@)),
{
    crate::base64::base64_encode(data)
}

/// Feeding data to a context in pieces gives the digest of the pieces
/// joined, the same digest as hashing them in one go.
pub proof fn law_sha1_incremental(a: Seq<u8>, b: Seq<u8>)
    ensures
        sha1_digest((Seq::<u8>::empty() + a) + b) == sha1_digest(a + b),
{
    assert(Seq::<u8>::empty() + a =~= a);
}

} // verus!
