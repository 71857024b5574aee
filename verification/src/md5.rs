//! MD5 digests: one-shot, incremental, and in hexadecimal.

use vstd::prelude::*;
use ::md5::Digest;
use crate::error::Error;
use crate::pool::Pool;
use vstd::string::StringSliceAdditionalSpecFns;
use vstd::utf8::{decode_utf8, valid_utf8};
use crate::base64::has_nul;
use crate::status::{status_from_code, status_of_code, APR_EINVAL};
use crate::strmatch::bytes_hold_nul;
use crate::text::{
    bytes_from, bytes_prefix, find_byte, first_index, lemma_first_index_bounds, spec_hex, str_bytes,
    string_from_utf8_lossy, to_hex,
};

verus! {

/// Size of an MD5 digest in bytes.
pub const APR_MD5_DIGESTSIZE: usize = 16;

/// The MD5 digest of a byte sequence.
pub uninterp spec fn md5_digest(data: Seq<u8>) -> Seq<u8>;

/// The MD5 digest of `data`.
///
/// Calls `Md5::digest` of the `md-5` crate. The digest takes pages to state,
/// so it is named: the result is `md5_digest` of the input, sixteen bytes.
#[verifier::external_body]
fn md5_compute(data: &[u8]) -> (r: [u8; 16])
    ensures
        r@ == md5_digest(data@),
{
    ::md5::Md5::digest(data).into()
}

/// MD5 context for incremental hashing: it holds what was fed to it.
pub struct Md5Context {
    data: Vec<u8>,
}

impl Md5Context {
    /// The bytes fed to the context so far.
    pub closed spec fn spec_data(&self) -> Seq<u8> {
        self.data@
    }

    /// Create a new MD5 context.
    pub fn new(_pool: &Pool) -> (r: Result<Self, Error>)
        ensures
            r matches Ok(c) && c.spec_data() == Seq::<u8>::empty(),
    {
        Ok(Md5Context { data: Vec::new() })
    }

    /// Update the MD5 context with more data.
    pub fn update(&mut self, data: &[u8]) -> (r: Result<(), Error>)
        ensures
            r is Ok,
            final(self).spec_data() == old(self).spec_data() + data@,
    {
        let mut i: usize = 0;
        let ghost start = self.data@;
        while i < data.len()
            invariant
                i <= data@.len(),
                self.data@ == start + data@.subrange(0, i as int),
            decreases data@.len() - i,
        {
            self.data.push(data[i]);
            proof {
                assert(data@.subrange(0, i + 1) =~= data@.subrange(0, i as int).push(data@[i as int]));
            }
            i = i + 1;
        }
        proof {
            assert(data@.subrange(0, data@.len() as int) =~= data@);
        }
        Ok(())
    }

    /// Finalize the MD5 context and return the digest of all that it was fed.
    pub fn finalize(self) -> (r: [u8; APR_MD5_DIGESTSIZE])
        ensures
            r@ == md5_digest(self.spec_data()),
    {
        md5_compute(self.data.as_slice())
    }
}

/// Compute the MD5 digest of data (pool-less API).
pub fn hash(data: &[u8]) -> (r: Result<[u8; APR_MD5_DIGESTSIZE], Error>)
    ensures
        r matches Ok(d) && d@ == md5_digest(data@),
{
    let pool = Pool::new();
    md5(data, &pool)
}

/// Encode data as an MD5 hash in hex format (pool-less API).
pub fn hash_hex(data: &[u8]) -> (r: Result<String, Error>)
    ensures
        r matches Ok(s) && s@ == spec_hex(md5_digest(data@)),
{
    let pool = Pool::new();
    md5_encode(data, &pool)
}

/// Compute the MD5 digest of data in one shot (pool-exposed API).
pub fn md5(data: &[u8], pool: &Pool) -> (r: Result<[u8; APR_MD5_DIGESTSIZE], Error>)
    ensures
        r matches Ok(d) && d@ == md5_digest(data@),
{
    let mut ctx = Md5Context::new(pool)?;
    ctx.update(data)?;
    proof {
        assert(Seq::<u8>::empty() + data@ =~= data@);
    }
    Ok(ctx.finalize())
}

/// Encode data as an MD5 hash in hex format (pool-exposed API).
pub fn md5_encode(data: &[u8], pool: &Pool) -> (r: Result<String, Error>)
    ensures
        r matches Ok(s) && s@ == spec_hex(md5_digest(data@)),
{
    let digest = md5(data, pool)?;
    Ok(to_hex(&digest))
}

/// Feeding data to a context in pieces gives the digest of the pieces
/// joined, the same digest as hashing them in one go.
pub proof fn law_md5_incremental(a: Seq<u8>, b: Seq<u8>)
    ensures
        md5_digest((Seq::<u8>::empty() + a) + b) == md5_digest(a + b),
{
    assert(Seq::<u8>::empty() + a =~= a);
}


// ---------------------------------------------------------------------------
// Apache MD5 passwords
// ---------------------------------------------------------------------------

/// The magic that starts an Apache MD5 password: `$apr1$`.
pub open spec fn apr1_id() -> Seq<u8> {
    seq![36u8, 97u8, 112u8, 114u8, 49u8, 36u8]
}

/// The salt that a password is encoded with: the given salt without a
/// leading `$apr1$`, up to its first `$` and at most eight bytes.
pub open spec fn apr1_salt(salt: Seq<u8>) -> Seq<u8> {
    let sp = if salt.len() >= 6 && salt.take(6) == apr1_id() {
        salt.skip(6)
    } else {
        salt
    };
    let e = first_index(sp, 36u8);
    sp.take(if e < 8 {
        e
    } else {
        8
    })
}

/// As many bytes of a digest, repeated, as the password has.
pub open spec fn repeat_digest(d: Seq<u8>, n: int) -> Seq<u8> {
    Seq::new(n as nat, |i: int| d[i % 16])
}

/// For each bit of the password's length from the lowest: a NUL for a one,
/// the password's first byte for a zero.
pub open spec fn length_bits(first: u8, n: nat) -> Seq<u8>
    decreases n,
{
    if n == 0 {
        seq![]
    } else {
        seq![if n % 2 == 1 {
            0u8
        } else {
            first
        }] + length_bits(first, n / 2)
    }
}

/// The digest before the thousand rounds.
pub open spec fn apr1_initial(pw: Seq<u8>, s: Seq<u8>) -> Seq<u8> {
    let alt = md5_digest(pw + s + pw);
    md5_digest(
        pw + apr1_id() + s + repeat_digest(alt, pw.len() as int) + length_bits(
            if pw.len() > 0 {
                pw[0]
            } else {
                0u8
            },
            pw.len(),
        ),
    )
}

/// Round `i` of the thousand rounds.
pub open spec fn apr1_round(pw: Seq<u8>, s: Seq<u8>, fin: Seq<u8>, i: int) -> Seq<u8> {
    md5_digest(
        (if i % 2 == 1 {
            pw
        } else {
            fin
        }) + (if i % 3 != 0 {
            s
        } else {
            seq![]
        }) + (if i % 7 != 0 {
            pw
        } else {
            seq![]
        }) + (if i % 2 == 1 {
            fin
        } else {
            pw
        }),
    )
}

/// The digest after `n` rounds.
pub open spec fn apr1_rounds(pw: Seq<u8>, s: Seq<u8>, n: nat) -> Seq<u8>
    decreases n,
{
    if n == 0 {
        apr1_initial(pw, s)
    } else {
        apr1_round(pw, s, apr1_rounds(pw, s, (n - 1) as nat), n - 1)
    }
}

/// The character of a six-bit value: `./0-9A-Za-z`.
pub open spec fn itoa64(d: int) -> u8 {
    if d == 0 {
        46
    } else if d == 1 {
        47
    } else if d < 12 {
        (48 + d - 2) as u8
    } else if d < 38 {
        (65 + d - 12) as u8
    } else {
        (97 + d - 38) as u8
    }
}

/// The `n` characters of a value, six bits at a time from the lowest.
pub open spec fn to64(v: int, n: nat) -> Seq<u8>
    decreases n,
{
    if n == 0 {
        seq![]
    } else {
        seq![itoa64(v % 64)] + to64(v / 64, (n - 1) as nat)
    }
}

/// Three bytes of a digest as one value.
pub open spec fn triple(f: Seq<u8>, a: int, b: int, c: int) -> int {
    f[a] * 65536 + f[b] * 256 + f[c]
}

/// The 22 characters of a final digest.
pub open spec fn apr1_chars(f: Seq<u8>) -> Seq<u8> {
    to64(triple(f, 0, 6, 12), 4) + to64(triple(f, 1, 7, 13), 4) + to64(triple(f, 2, 8, 14), 4)
        + to64(triple(f, 3, 9, 15), 4) + to64(triple(f, 4, 10, 5), 4) + to64(f[11] as int, 2)
}

/// The Apache MD5 encoding of a password with a salt: `$apr1$`, the salt,
/// `$`, and the 22 characters of the digest after a thousand rounds.
pub open spec fn apr1_bytes(pw: Seq<u8>, salt: Seq<u8>) -> Seq<u8> {
    let s = apr1_salt(salt);
    apr1_id() + s + seq![36u8] + apr1_chars(apr1_rounds(pw, s, 1000))
}

/// The character of a six-bit value, as code.
fn itoa64_exec(d: u32) -> (r: u8)
    requires
        d < 64,
    ensures
        r == itoa64(d as int),
{
    if d == 0 {
        46
    } else if d == 1 {
        47
    } else if d < 12 {
        (48 + d - 2) as u8
    } else if d < 38 {
        (65 + d - 12) as u8
    } else {
        (97 + d - 38) as u8
    }
}

/// Appends the `n` characters of a value.
fn push_to64(out: &mut Vec<u8>, v: u32, n: usize)
    ensures
        final(out)@ == old(out)@ + to64(v as int, n as nat),
    decreases n,
{
    if n > 0 {
        out.push(itoa64_exec(v % 64));
        push_to64(out, v / 64, n - 1);
        proof {
            assert(final(out)@ =~= old(out)@ + to64(v as int, n as nat));
        }
    } else {
        assert(old(out)@ + Seq::<u8>::empty() =~= old(out)@);
    }
}

/// Appends bytes to a vector.
fn push_all(out: &mut Vec<u8>, b: &[u8])
    ensures
        final(out)@ == old(out)@ + b@,
{
    let mut i: usize = 0;
    while i < b.len()
        invariant
            i <= b@.len(),
            out@ == old(out)@ + b@.take(i as int),
        decreases b@.len() - i,
    {
        out.push(b[i]);
        proof {
            assert(b@.take(i + 1) =~= b@.take(i as int).push(b@[i as int]));
        }
        i = i + 1;
    }
    assert(b@.take(b@.len() as int) =~= b@);
}

/// The salt that a password is encoded with, as code.
fn apr1_salt_exec(salt: &[u8]) -> (r: Vec<u8>)
    ensures
        r@ == apr1_salt(salt@),
{
    let id: [u8; 6] = [36u8, 97u8, 112u8, 114u8, 49u8, 36u8];
    assert(id@ =~= apr1_id());
    let mut starts = salt.len() >= 6;
    let mut i: usize = 0;
    while starts && i < 6
        invariant
            i <= 6,
            id@ == apr1_id(),
            starts ==> salt@.len() >= 6 && forall|j: int| 0 <= j < i ==> salt@[j] == id@[j],
            !starts ==> !(salt@.len() >= 6 && salt@.take(6) == apr1_id()),
        decreases 6 - i,
    {
        if salt[i] != id[i] {
            starts = false;
            proof {
                if salt@.len() >= 6 && salt@.take(6) == apr1_id() {
                    assert(salt@.take(6)[i as int] == salt@[i as int]);
                    assert(apr1_id()[i as int] == id@[i as int]);
                }
            }
        }
        i = i + 1;
    }
    proof {
        if starts {
            assert(salt@.take(6) =~= apr1_id());
        }
    }
    let sp = if starts {
        bytes_from(salt, 6)
    } else {
        bytes_from(salt, 0)
    };
    proof {
        if !starts {
            assert(salt@.skip(0) =~= salt@);
        }
    }
    let e = find_byte(sp.as_slice(), 36u8);
    proof {
        lemma_first_index_bounds(sp@, 36u8);
    }
    let n = if e < 8 {
        e
    } else if sp.len() < 8 {
        sp.len()
    } else {
        8
    };
    let r = bytes_prefix(sp.as_slice(), n);
    assert(r@ =~= apr1_salt(salt@));
    r
}

/// The digest before the thousand rounds, as code.
fn apr1_initial_exec(pw: &[u8], s: &[u8]) -> (r: [u8; 16])
    ensures
        r@ == apr1_initial(pw@, s@),
{
    let mut a: Vec<u8> = Vec::new();
    push_all(&mut a, pw);
    push_all(&mut a, s);
    push_all(&mut a, pw);
    let alt = md5_compute(a.as_slice());
    let mut c: Vec<u8> = Vec::new();
    push_all(&mut c, pw);
    let id: [u8; 6] = [36u8, 97u8, 112u8, 114u8, 49u8, 36u8];
    assert(id@ =~= apr1_id());
    push_all(&mut c, &id);
    push_all(&mut c, s);
    let ghost before = c@;
    let mut k: usize = 0;
    while k < pw.len()
        invariant
            k <= pw@.len(),
            alt@.len() == 16,
            c@ == before + repeat_digest(alt@, pw@.len() as int).take(k as int),
        decreases pw@.len() - k,
    {
        c.push(alt[k % 16]);
        proof {
            assert(repeat_digest(alt@, pw@.len() as int).take(k + 1) =~= repeat_digest(
                alt@,
                pw@.len() as int,
            ).take(k as int).push(alt@[(k % 16) as int]));
        }
        k = k + 1;
    }
    assert(repeat_digest(alt@, pw@.len() as int).take(pw@.len() as int) =~= repeat_digest(
        alt@,
        pw@.len() as int,
    ));
    let first: u8 = if pw.len() > 0 {
        pw[0]
    } else {
        0u8
    };
    let ghost mid = c@;
    let mut n: usize = pw.len();
    while n != 0
        invariant
            c@ + length_bits(first, n as nat) == mid + length_bits(first, pw@.len()),
        decreases n,
    {
        if n % 2 == 1 {
            c.push(0u8);
        } else {
            c.push(first);
        }
        proof {
            assert(c@ + length_bits(first, (n / 2) as nat) =~= old_c_plus(c@, length_bits(
                first,
                (n / 2) as nat,
            )));
        }
        n = n / 2;
    }
    assert(c@ =~= c@ + length_bits(first, 0));
    md5_compute(c.as_slice())
}

/// Joins two byte sequences.
spec fn old_c_plus(a: Seq<u8>, b: Seq<u8>) -> Seq<u8> {
    a + b
}

/// Round `i` of the thousand rounds, as code.
fn apr1_round_exec(pw: &[u8], s: &[u8], fin: &[u8; 16], i: u32) -> (r: [u8; 16])
    ensures
        r@ == apr1_round(pw@, s@, fin@, i as int),
{
    let mut c: Vec<u8> = Vec::new();
    if i % 2 == 1 {
        push_all(&mut c, pw);
    } else {
        push_all(&mut c, fin);
    }
    if i % 3 != 0 {
        push_all(&mut c, s);
    }
    if i % 7 != 0 {
        push_all(&mut c, pw);
    }
    if i % 2 == 1 {
        push_all(&mut c, fin);
    } else {
        push_all(&mut c, pw);
    }
    assert(c@ =~= (if i % 2 == 1 {
        pw@
    } else {
        fin@
    }) + (if i % 3 != 0 {
        s@
    } else {
        seq![]
    }) + (if i % 7 != 0 {
        pw@
    } else {
        seq![]
    }) + (if i % 2 == 1 {
        fin@
    } else {
        pw@
    }));
    md5_compute(c.as_slice())
}

/// Three bytes of a digest as one value, as code.
fn triple_exec(f: &[u8; 16], a: usize, b: usize, c: usize) -> (r: u32)
    requires
        a < 16,
        b < 16,
        c < 16,
    ensures
        r == triple(f@, a as int, b as int, c as int),
{
    (f[a] as u32) * 65536 + (f[b] as u32) * 256 + (f[c] as u32)
}

/// Encode a password using the Apache MD5 algorithm (for .htpasswd files).
/// A password or salt that holds a NUL is refused as an invalid argument.
pub fn md5_encode_password(password: &str, salt: &str) -> (r: Result<String, Error>)
    ensures
        has_nul(password.spec_bytes()) || has_nul(salt.spec_bytes()) ==> (r matches Err(e)
            && e.spec_status() == status_of_code(APR_EINVAL)),
        !has_nul(password.spec_bytes()) && !has_nul(salt.spec_bytes()) ==> (r matches Ok(s) && (
        valid_utf8(apr1_bytes(password.spec_bytes(), salt.spec_bytes())) ==> s@ == decode_utf8(
            apr1_bytes(password.spec_bytes(), salt.spec_bytes()),
        ))),
{
    let pw = str_bytes(password);
    let sb = str_bytes(salt);
    if bytes_hold_nul(&pw) || bytes_hold_nul(&sb) {
        return Err(Error::from_status(status_from_code(APR_EINVAL)));
    }
    let s = apr1_salt_exec(sb.as_slice());
    let mut fin = apr1_initial_exec(pw.as_slice(), s.as_slice());
    let mut i: u32 = 0;
    while i < 1000
        invariant
            i <= 1000,
            fin@ == apr1_rounds(pw@, s@, i as nat),
        decreases 1000 - i,
    {
        fin = apr1_round_exec(pw.as_slice(), s.as_slice(), &fin, i);
        i = i + 1;
    }
    let mut out: Vec<u8> = Vec::new();
    let id: [u8; 6] = [36u8, 97u8, 112u8, 114u8, 49u8, 36u8];
    assert(id@ =~= apr1_id());
    push_all(&mut out, &id);
    push_all(&mut out, s.as_slice());
    out.push(36u8);
    push_to64(&mut out, triple_exec(&fin, 0, 6, 12), 4);
    push_to64(&mut out, triple_exec(&fin, 1, 7, 13), 4);
    push_to64(&mut out, triple_exec(&fin, 2, 8, 14), 4);
    push_to64(&mut out, triple_exec(&fin, 3, 9, 15), 4);
    push_to64(&mut out, triple_exec(&fin, 4, 10, 5), 4);
    push_to64(&mut out, fin[11] as u32, 2);
    assert(out@ =~= apr1_bytes(pw@, sb@));
    Ok(string_from_utf8_lossy(out.as_slice()))
}


/// The salt of an encoding holds no `$` and has at most eight bytes.
proof fn lemma_apr1_salt_shape(salt: Seq<u8>)
    ensures
        apr1_salt(salt).len() <= 8,
        forall|i: int| 0 <= i < apr1_salt(salt).len() ==> apr1_salt(salt)[i] != 36u8,
{
    let sp = if salt.len() >= 6 && salt.take(6) == apr1_id() {
        salt.skip(6)
    } else {
        salt
    };
    lemma_first_index_bounds(sp, 36u8);
}

/// Encoding a password with its own encoding as the salt gives the
/// encoding back: this is how a stored password is checked.
pub proof fn law_apr1_check(pw: Seq<u8>, salt: Seq<u8>)
    ensures
        apr1_bytes(pw, apr1_bytes(pw, salt)) == apr1_bytes(pw, salt),
{
    let s = apr1_salt(salt);
    lemma_apr1_salt_shape(salt);
    let e = apr1_bytes(pw, salt);
    assert(e.take(6) =~= apr1_id());
    let sp = e.skip(6);
    assert(sp =~= s + seq![36u8] + apr1_chars(apr1_rounds(pw, s, 1000)));
    assert forall|j: int| 0 <= j < s.len() implies sp[j] != 36u8 by {
        assert(sp[j] == s[j]);
    }
    crate::text::lemma_first_index(sp, 36u8, s.len() as int);
    assert(apr1_salt(e) =~= s);
}

} // verus!
