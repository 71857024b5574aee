//! Symmetric encryption as the runtime's crypto drivers do it: a key is
//! derived from a passphrase with PBKDF2 (HMAC-SHA1, no salt, 4096
//! rounds), and data is encrypted block by block with AES or triple DES, in
//! ECB or CBC mode, with PKCS#7 padding.
//!
//! The block ciphers and the key derivation are called from the `aes`,
//! `des` and `pbkdf2` crates; the modes and the padding (added, and tested
//! and taken off again) are this module's own and are verified. Decryption
//! is stated as the inverse of encryption: it gives back a plaintext
//! exactly when one encrypts to the ciphertext, and then that very
//! plaintext.

use vstd::prelude::*;
use aes::cipher::generic_array::GenericArray;
use aes::cipher::{BlockDecrypt, BlockEncrypt, KeyInit};
use crate::entropy::os_random_fill;
use crate::error::Error;
use crate::pool::Pool;
use crate::status::{status_from_code, status_of_code, Status, APR_EDSOOPEN, APR_EINVAL};
use vstd::string::StrSliceExecFns;

verus! {

/// The number of `APR_ENOIV`: a mode that needs an initialisation vector
/// was given none.
pub const APR_ENOIV: u32 = 120001;
/// The number of `APR_EPADDING`: the decrypted padding is wrong.
pub const APR_EPADDING: u32 = 120005;

/// How blocks are chained.
#[derive(Debug, Clone, Copy, PartialEq, Eq, Structural)]
pub enum BlockCipherMode {
    /// Electronic Codebook mode
    ECB,
    /// Cipher Block Chaining mode
    CBC,
}

/// The block cipher.
#[derive(Debug, Clone, Copy, PartialEq, Eq, Structural)]
pub enum BlockCipherAlgorithm {
    /// AES with 128-bit key
    AES128,
    /// AES with 192-bit key
    AES192,
    /// AES with 256-bit key
    AES256,
    /// Triple DES
    DES3,
}

/// The runtime's number of a mode (`apr_crypto_block_key_mode_e`).
pub open spec fn mode_code(m: BlockCipherMode) -> u32 {
    match m {
        BlockCipherMode::ECB => 1,
        BlockCipherMode::CBC => 2,
    }
}

/// The runtime's number of a cipher (`apr_crypto_block_key_type_e`).
pub open spec fn algorithm_code(a: BlockCipherAlgorithm) -> u32 {
    match a {
        BlockCipherAlgorithm::DES3 => 1,
        BlockCipherAlgorithm::AES128 => 2,
        BlockCipherAlgorithm::AES192 => 3,
        BlockCipherAlgorithm::AES256 => 4,
    }
}

impl From<BlockCipherMode> for u32 {
    fn from(mode: BlockCipherMode) -> (r: u32) {
        match mode {
            BlockCipherMode::ECB => 1,
            BlockCipherMode::CBC => 2,
        }
    }
}

impl vstd::std_specs::convert::FromSpecImpl<BlockCipherMode> for u32 {
    open spec fn obeys_from_spec() -> bool {
        true
    }

    open spec fn from_spec(mode: BlockCipherMode) -> u32 {
        mode_code(mode)
    }
}

impl From<BlockCipherAlgorithm> for u32 {
    fn from(algo: BlockCipherAlgorithm) -> (r: u32) {
        match algo {
            BlockCipherAlgorithm::AES128 => 2,
            BlockCipherAlgorithm::AES192 => 3,
            BlockCipherAlgorithm::AES256 => 4,
            BlockCipherAlgorithm::DES3 => 1,
        }
    }
}

impl vstd::std_specs::convert::FromSpecImpl<BlockCipherAlgorithm> for u32 {
    open spec fn obeys_from_spec() -> bool {
        true
    }

    open spec fn from_spec(algo: BlockCipherAlgorithm) -> u32 {
        algorithm_code(algo)
    }
}

/// The length of a cipher's key, in bytes.
pub open spec fn key_len(a: BlockCipherAlgorithm) -> nat {
    match a {
        BlockCipherAlgorithm::AES128 => 16,
        BlockCipherAlgorithm::AES192 => 24,
        BlockCipherAlgorithm::AES256 => 32,
        BlockCipherAlgorithm::DES3 => 24,
    }
}

/// The length of a cipher's block, in bytes.
pub open spec fn block_len(a: BlockCipherAlgorithm) -> nat {
    match a {
        BlockCipherAlgorithm::DES3 => 8,
        _ => 16,
    }
}

/// The length of the initialisation vector that a cipher and mode take:
/// a block for CBC, none for ECB.
pub open spec fn iv_len(a: BlockCipherAlgorithm, m: BlockCipherMode) -> nat {
    match m {
        BlockCipherMode::ECB => 0,
        BlockCipherMode::CBC => block_len(a),
    }
}

/// What AES-128 makes of a block under a key.
pub uninterp spec fn aes128_encrypt(key: Seq<u8>, block: Seq<u8>) -> Seq<u8>;

/// What AES-192 makes of a block under a key.
pub uninterp spec fn aes192_encrypt(key: Seq<u8>, block: Seq<u8>) -> Seq<u8>;

/// What AES-256 makes of a block under a key.
pub uninterp spec fn aes256_encrypt(key: Seq<u8>, block: Seq<u8>) -> Seq<u8>;

/// What triple DES (encrypt, decrypt, encrypt with the three parts of the
/// key) makes of a block under a key.
pub uninterp spec fn tdes_encrypt(key: Seq<u8>, block: Seq<u8>) -> Seq<u8>;

/// The key that PBKDF2 with HMAC-SHA1 derives from a password and salt in a
/// number of rounds, of the given length.
pub uninterp spec fn pbkdf2_hmac_sha1(password: Seq<u8>, salt: Seq<u8>, rounds: u32, len: nat) -> Seq<u8>;

/// A sequence taken as a block of `n` bytes: itself when it has that
/// length (as every block that a cipher gives does).
pub open spec fn fit(s: Seq<u8>, n: nat) -> Seq<u8> {
    if s.len() == n {
        s
    } else {
        Seq::new(n, |i: int| 0u8)
    }
}

/// What a cipher makes of a block under a key.
pub open spec fn cipher_encrypt(a: BlockCipherAlgorithm, key: Seq<u8>, block: Seq<u8>) -> Seq<u8> {
    fit(
        match a {
            BlockCipherAlgorithm::AES128 => aes128_encrypt(key, block),
            BlockCipherAlgorithm::AES192 => aes192_encrypt(key, block),
            BlockCipherAlgorithm::AES256 => aes256_encrypt(key, block),
            BlockCipherAlgorithm::DES3 => tdes_encrypt(key, block),
        },
        block_len(a),
    )
}

/// Encrypts a block with AES-128.
///
/// Calls `aes::Aes128`'s `encrypt_block`; the result is named
/// [`aes128_encrypt`] and is a block of 16 bytes.
#[verifier::external_body]
fn aes128_block(key: &[u8], block: &[u8]) -> (r: Vec<u8>)
    requires
        key@.len() == 16,
        block@.len() == 16,
    ensures
        r@ == aes128_encrypt(key@, block@),
        r@.len() == 16,
{
    let c = aes::Aes128::new(GenericArray::from_slice(key));
    let mut b = GenericArray::clone_from_slice(block);
    c.encrypt_block(&mut b);
    b.to_vec()
}

/// Decrypts a block with AES-128.
///
/// Calls `aes::Aes128`'s `decrypt_block`, the inverse of `encrypt_block`:
/// the result is the one block that encrypts to the given one.
#[verifier::external_body]
fn aes128_unblock(key: &[u8], block: &[u8]) -> (r: Vec<u8>)
    requires
        key@.len() == 16,
        block@.len() == 16,
    ensures
        r@.len() == 16,
        fit(aes128_encrypt(key@, r@), 16) == block@,
        forall|q: Seq<u8>|
            q.len() == 16 && fit(aes128_encrypt(key@, q), 16) == block@ ==> r@ == q,
{
    let c = aes::Aes128::new(GenericArray::from_slice(key));
    let mut b = GenericArray::clone_from_slice(block);
    c.decrypt_block(&mut b);
    b.to_vec()
}

/// Encrypts a block with AES-192.
///
/// Calls `aes::Aes192`'s `encrypt_block`; the result is named
/// [`aes192_encrypt`] and is a block of 16 bytes.
#[verifier::external_body]
fn aes192_block(key: &[u8], block: &[u8]) -> (r: Vec<u8>)
    requires
        key@.len() == 24,
        block@.len() == 16,
    ensures
        r@ == aes192_encrypt(key@, block@),
        r@.len() == 16,
{
    let c = aes::Aes192::new(GenericArray::from_slice(key));
    let mut b = GenericArray::clone_from_slice(block);
    c.encrypt_block(&mut b);
    b.to_vec()
}

/// Decrypts a block with AES-192.
///
/// Calls `aes::Aes192`'s `decrypt_block`, the inverse of `encrypt_block`:
/// the result is the one block that encrypts to the given one.
#[verifier::external_body]
fn aes192_unblock(key: &[u8], block: &[u8]) -> (r: Vec<u8>)
    requires
        key@.len() == 24,
        block@.len() == 16,
    ensures
        r@.len() == 16,
        fit(aes192_encrypt(key@, r@), 16) == block@,
        forall|q: Seq<u8>|
            q.len() == 16 && fit(aes192_encrypt(key@, q), 16) == block@ ==> r@ == q,
{
    let c = aes::Aes192::new(GenericArray::from_slice(key));
    let mut b = GenericArray::clone_from_slice(block);
    c.decrypt_block(&mut b);
    b.to_vec()
}

/// Encrypts a block with AES-256.
///
/// Calls `aes::Aes256`'s `encrypt_block`; the result is named
/// [`aes256_encrypt`] and is a block of 16 bytes.
#[verifier::external_body]
fn aes256_block(key: &[u8], block: &[u8]) -> (r: Vec<u8>)
    requires
        key@.len() == 32,
        block@.len() == 16,
    ensures
        r@ == aes256_encrypt(key@, block@),
        r@.len() == 16,
{
    let c = aes::Aes256::new(GenericArray::from_slice(key));
    let mut b = GenericArray::clone_from_slice(block);
    c.encrypt_block(&mut b);
    b.to_vec()
}

/// Decrypts a block with AES-256.
///
/// Calls `aes::Aes256`'s `decrypt_block`, the inverse of `encrypt_block`:
/// the result is the one block that encrypts to the given one.
#[verifier::external_body]
fn aes256_unblock(key: &[u8], block: &[u8]) -> (r: Vec<u8>)
    requires
        key@.len() == 32,
        block@.len() == 16,
    ensures
        r@.len() == 16,
        fit(aes256_encrypt(key@, r@), 16) == block@,
        forall|q: Seq<u8>|
            q.len() == 16 && fit(aes256_encrypt(key@, q), 16) == block@ ==> r@ == q,
{
    let c = aes::Aes256::new(GenericArray::from_slice(key));
    let mut b = GenericArray::clone_from_slice(block);
    c.decrypt_block(&mut b);
    b.to_vec()
}

/// Encrypts a block with triple DES.
///
/// Calls `des::TdesEde3`'s `encrypt_block`; the result is named
/// [`tdes_encrypt`] and is a block of 8 bytes.
#[verifier::external_body]
fn tdes_block(key: &[u8], block: &[u8]) -> (r: Vec<u8>)
    requires
        key@.len() == 24,
        block@.len() == 8,
    ensures
        r@ == tdes_encrypt(key@, block@),
        r@.len() == 8,
{
    let c = des::TdesEde3::new(GenericArray::from_slice(key));
    let mut b = GenericArray::clone_from_slice(block);
    c.encrypt_block(&mut b);
    b.to_vec()
}

/// Decrypts a block with triple DES.
///
/// Calls `des::TdesEde3`'s `decrypt_block`, the inverse of
/// `encrypt_block`: the result is the one block that encrypts to the given
/// one.
#[verifier::external_body]
fn tdes_unblock(key: &[u8], block: &[u8]) -> (r: Vec<u8>)
    requires
        key@.len() == 24,
        block@.len() == 8,
    ensures
        r@.len() == 8,
        fit(tdes_encrypt(key@, r@), 8) == block@,
        forall|q: Seq<u8>|
            q.len() == 8 && fit(tdes_encrypt(key@, q), 8) == block@ ==> r@ == q,
{
    let c = des::TdesEde3::new(GenericArray::from_slice(key));
    let mut b = GenericArray::clone_from_slice(block);
    c.decrypt_block(&mut b);
    b.to_vec()
}

/// Derives a key from a password with PBKDF2 and HMAC-SHA1.
///
/// Calls `pbkdf2::pbkdf2_hmac::<sha1::Sha1>`, which fills the whole output
/// and depends on its arguments alone: the result is named
/// [`pbkdf2_hmac_sha1`].
#[verifier::external_body]
fn pbkdf2_sha1(password: &[u8], salt: &[u8], rounds: u32, len: usize) -> (r: Vec<u8>)
    ensures
        r@ == pbkdf2_hmac_sha1(password@, salt@, rounds, len as nat),
        r@.len() == len,
{
    let mut out = vec![0u8; len];
    pbkdf2::pbkdf2_hmac::<sha1::Sha1>(password, salt, rounds, &mut out);
    out
}

/// The block length of a cipher.
fn block_size_of(a: BlockCipherAlgorithm) -> (r: usize)
    ensures
        r == block_len(a),
{
    match a {
        BlockCipherAlgorithm::DES3 => 8,
        _ => 16,
    }
}

/// The key length of a cipher.
fn key_size_of(a: BlockCipherAlgorithm) -> (r: usize)
    ensures
        r == key_len(a),
{
    match a {
        BlockCipherAlgorithm::AES128 => 16,
        BlockCipherAlgorithm::AES192 => 24,
        BlockCipherAlgorithm::AES256 => 32,
        BlockCipherAlgorithm::DES3 => 24,
    }
}

/// Encrypts one block with a cipher.
fn encrypt_block(a: BlockCipherAlgorithm, key: &[u8], block: &[u8]) -> (r: Vec<u8>)
    requires
        key@.len() == key_len(a),
        block@.len() == block_len(a),
    ensures
        r@ == cipher_encrypt(a, key@, block@),
{
    match a {
        BlockCipherAlgorithm::AES128 => aes128_block(key, block),
        BlockCipherAlgorithm::AES192 => aes192_block(key, block),
        BlockCipherAlgorithm::AES256 => aes256_block(key, block),
        BlockCipherAlgorithm::DES3 => tdes_block(key, block),
    }
}

/// Decrypts one block with a cipher: the one block that encrypts to it.
fn decrypt_block(a: BlockCipherAlgorithm, key: &[u8], block: &[u8]) -> (r: Vec<u8>)
    requires
        key@.len() == key_len(a),
        block@.len() == block_len(a),
    ensures
        r@.len() == block_len(a),
        cipher_encrypt(a, key@, r@) == block@,
        forall|q: Seq<u8>|
            q.len() == block_len(a) && cipher_encrypt(a, key@, q) == block@ ==> r@ == q,
{
    match a {
        BlockCipherAlgorithm::AES128 => aes128_unblock(key, block),
        BlockCipherAlgorithm::AES192 => aes192_unblock(key, block),
        BlockCipherAlgorithm::AES256 => aes256_unblock(key, block),
        BlockCipherAlgorithm::DES3 => tdes_unblock(key, block),
    }
}

/// Two byte sequences combined with exclusive or, as long as the first.
pub open spec fn xor_bytes(a: Seq<u8>, b: Seq<u8>) -> Seq<u8> {
    Seq::new(a.len(), |i: int| a[i] ^ b[i])
}

/// The number of bytes of padding after a text of `len` bytes: from one to
/// a whole block.
pub open spec fn pad_count(len: nat, bs: nat) -> nat {
    (bs - len % bs) as nat
}

/// A text with its PKCS#7 padding: as many bytes as are added, each of
/// that value.
pub open spec fn pad(p: Seq<u8>, bs: nat) -> Seq<u8> {
    p + Seq::new(pad_count(p.len(), bs), |i: int| pad_count(p.len(), bs) as u8)
}

/// Whether a decrypted text ends in a valid padding: its last byte `n` is
/// between one and a block, and its last `n` bytes are all `n`.
pub open spec fn padding_ok(x: Seq<u8>, bs: nat) -> bool {
    &&& x.len() > 0
    &&& 1 <= x.last() <= bs
    &&& x.last() <= x.len()
    &&& forall|i: int| x.len() - x.last() <= i < x.len() ==> x[i] == x.last()
}

/// A text without its padding.
pub open spec fn unpad(x: Seq<u8>) -> Seq<u8> {
    x.take(x.len() - x.last())
}

/// The blocks of `x` encrypted one after another, `prev` standing for the
/// block before the first (the initialisation vector): in CBC mode each
/// block is combined with the one encrypted before it. A tail shorter
/// than a block gives nothing.
pub open spec fn enc_chain(
    a: BlockCipherAlgorithm,
    m: BlockCipherMode,
    key: Seq<u8>,
    prev: Seq<u8>,
    x: Seq<u8>,
) -> Seq<u8>
    decreases x.len(),
{
    let bs = block_len(a);
    if x.len() < bs {
        seq![]
    } else {
        let xb = x.take(bs as int);
        let c = cipher_encrypt(a, key, if m == BlockCipherMode::CBC { xor_bytes(xb, prev) } else { xb });
        c + enc_chain(a, m, key, c, x.skip(bs as int))
    }
}

/// What encrypting a plaintext gives: the padded text, encrypted block by
/// block from the initialisation vector (which ECB does not use).
pub open spec fn encrypt_spec(
    a: BlockCipherAlgorithm,
    m: BlockCipherMode,
    key: Seq<u8>,
    iv: Seq<u8>,
    p: Seq<u8>,
) -> Seq<u8> {
    enc_chain(a, m, key, iv.take(iv_len(a, m) as int), pad(p, block_len(a)))
}

/// Combining with the same bytes twice gives back the first.
pub proof fn lemma_xor_twice(a: Seq<u8>, b: Seq<u8>)
    requires
        a.len() <= b.len(),
    ensures
        xor_bytes(xor_bytes(a, b), b) == a,
{
    assert forall|i: int| 0 <= i < a.len() implies #[trigger] xor_bytes(xor_bytes(a, b), b)[i]
        == a[i] by {
        let x = a[i];
        let y = b[i];
        assert((x ^ y) ^ y == x) by (bit_vector);
    }
    assert(xor_bytes(xor_bytes(a, b), b) =~= a);
}

/// Bytes combined with exclusive or, as code.
fn xor_vec(a: &[u8], b: &[u8]) -> (r: Vec<u8>)
    requires
        a@.len() <= b@.len(),
    ensures
        r@ == xor_bytes(a@, b@),
{
    let mut r: Vec<u8> = Vec::new();
    let n = a.len();
    let mut i: usize = 0;
    while i < n
        invariant
            n == a@.len(),
            n <= b@.len(),
            i <= n,
            r@ == xor_bytes(a@, b@).take(i as int),
        decreases n - i,
    {
        r.push(a[i] ^ b[i]);
        assert(r@ =~= xor_bytes(a@, b@).take(i + 1));
        i = i + 1;
    }
    assert(r@ =~= xor_bytes(a@, b@));
    r
}

/// A stretch of bytes, copied.
fn bytes_at(v: &[u8], start: usize, len: usize) -> (r: Vec<u8>)
    requires
        start + len <= v@.len(),
    ensures
        r@ == v@.subrange(start as int, start + len),
{
    let mut r: Vec<u8> = Vec::new();
    let vn = v.len();
    let mut i: usize = 0;
    while i < len
        invariant
            vn == v@.len(),
            start + len <= v@.len(),
            i <= len,
            r@ == v@.subrange(start as int, start + i),
        decreases len - i,
    {
        r.push(v[start + i]);
        assert(r@ =~= v@.subrange(start as int, start + i + 1));
        i = i + 1;
    }
    r
}

/// Appends bytes to a vector.
fn extend_bytes(out: &mut Vec<u8>, b: &[u8])
    ensures
        final(out)@ == old(out)@ + b@,
{
    let ghost start = out@;
    let n = b.len();
    let mut i: usize = 0;
    while i < n
        invariant
            n == b@.len(),
            i <= n,
            out@ == start + b@.take(i as int),
        decreases n - i,
    {
        out.push(b[i]);
        assert(out@ =~= start + b@.take(i + 1));
        i = i + 1;
    }
    assert(b@.take(n as int) =~= b@);
}

/// The blocks of `x` encrypted one after another from `prev0`.
fn encrypt_chain(
    a: BlockCipherAlgorithm,
    m: BlockCipherMode,
    key: &[u8],
    prev0: Vec<u8>,
    x: &[u8],
) -> (r: Vec<u8>)
    requires
        key@.len() == key_len(a),
        m == BlockCipherMode::CBC ==> prev0@.len() == block_len(a),
    ensures
        r@ == enc_chain(a, m, key@, prev0@, x@),
{
    let ghost goal = enc_chain(a, m, key@, prev0@, x@);
    let bs = block_size_of(a);
    let n = x.len();
    let mut out: Vec<u8> = Vec::new();
    let mut prev = prev0;
    let mut off: usize = 0;
    assert(x@.skip(0) =~= x@);
    while n - off >= bs
        invariant
            n == x@.len(),
            bs == block_len(a),
            key@.len() == key_len(a),
            off <= n,
            m == BlockCipherMode::CBC ==> prev@.len() == bs,
            out@ + enc_chain(a, m, key@, prev@, x@.skip(off as int)) == goal,
        decreases n - off,
    {
        let xb = bytes_at(x, off, bs);
        let ghost rest = x@.skip(off as int);
        assert(rest.take(bs as int) =~= xb@);
        assert(rest.skip(bs as int) =~= x@.skip(off + bs));
        let c = if m == BlockCipherMode::CBC {
            let input = xor_vec(xb.as_slice(), prev.as_slice());
            encrypt_block(a, key, input.as_slice())
        } else {
            encrypt_block(a, key, xb.as_slice())
        };
        let ghost old_out = out@;
        extend_bytes(&mut out, c.as_slice());
        assert(out@ + enc_chain(a, m, key@, c@, x@.skip(off + bs)) =~= old_out + (c@ + enc_chain(
            a,
            m,
            key@,
            c@,
            rest.skip(bs as int),
        )));
        prev = c;
        off = off + bs;
    }
    assert(out@ =~= goal);
    out
}

/// The padding fills the text to a whole number of blocks, with one to a
/// block of bytes.
pub proof fn lemma_pad_len(len: nat, bs: nat)
    requires
        bs > 0,
    ensures
        1 <= pad_count(len, bs) <= bs,
        (len + pad_count(len, bs)) % bs == 0,
{
    let q = len as int / bs as int;
    let r = len as int % bs as int;
    vstd::arithmetic::div_mod::lemma_fundamental_div_mod(len as int, bs as int);
    vstd::arithmetic::div_mod::lemma_mod_pos_bound(len as int, bs as int);
    assert(bs * q + bs == (q + 1) * bs) by (nonlinear_arith);
    vstd::arithmetic::div_mod::lemma_fundamental_div_mod_converse(
        (len + pad_count(len, bs)) as int,
        bs as int,
        q + 1,
        0,
    );
}

/// Below a whole number of blocks, `n` bytes short of it, lie `n` bytes
/// of padding.
pub proof fn lemma_pad_count_back(len: nat, n: nat, bs: nat)
    requires
        bs > 0,
        len % bs == 0,
        1 <= n <= bs,
        n <= len,
    ensures
        pad_count((len - n) as nat, bs) == n,
{
    let k = len as int / bs as int;
    vstd::arithmetic::div_mod::lemma_fundamental_div_mod(len as int, bs as int);
    assert(k >= 1) by (nonlinear_arith)
        requires
            len == bs * k,
            len >= 1,
            bs > 0,
    ;
    assert(bs * k - n == bs * (k - 1) + (bs - n)) by (nonlinear_arith);
    if n < bs {
        vstd::arithmetic::div_mod::lemma_fundamental_div_mod_converse(
            len - n,
            bs as int,
            k - 1,
            bs - n,
        );
    } else {
        assert(bs * (k - 1) + (bs - n) == (k - 1) * bs) by (nonlinear_arith)
            requires
                n == bs,
        ;
        vstd::arithmetic::div_mod::lemma_fundamental_div_mod_converse(
            len - n,
            bs as int,
            k - 1,
            0,
        );
    }
}

/// A padded text has a valid padding, fills whole blocks, and loses its
/// padding back to itself.
pub proof fn lemma_pad(p: Seq<u8>, bs: nat)
    requires
        1 <= bs <= 255,
    ensures
        padding_ok(pad(p, bs), bs),
        unpad(pad(p, bs)) == p,
        pad(p, bs).len() % bs == 0,
        pad(p, bs).len() >= bs,
{
    lemma_pad_len(p.len(), bs);
    let x = pad(p, bs);
    let n = pad_count(p.len(), bs);
    assert(x.last() == n as u8);
    assert(x.take(x.len() - x.last()) =~= p);
    if x.len() < bs {
        assert(x.len() % bs == x.len()) by {
            vstd::arithmetic::div_mod::lemma_small_mod(x.len(), bs);
        }
    }
}

/// A text with a valid padding that fills whole blocks is the padding of
/// what it holds without it.
pub proof fn lemma_unpad(x: Seq<u8>, bs: nat)
    requires
        1 <= bs <= 255,
        padding_ok(x, bs),
        x.len() % bs == 0,
    ensures
        pad(unpad(x), bs) == x,
{
    let n = x.last() as nat;
    lemma_pad_count_back(x.len(), n, bs);
    let u = unpad(x);
    assert(u.len() == x.len() - n);
    assert(pad(u, bs) =~= x);
}

/// An encryption of whole blocks is as long as the text.
pub proof fn lemma_enc_chain_len(
    a: BlockCipherAlgorithm,
    m: BlockCipherMode,
    key: Seq<u8>,
    prev: Seq<u8>,
    x: Seq<u8>,
)
    requires
        x.len() % block_len(a) == 0,
    ensures
        enc_chain(a, m, key, prev, x).len() == x.len(),
    decreases x.len(),
{
    let bs = block_len(a);
    if x.len() < bs {
        vstd::arithmetic::div_mod::lemma_small_mod(x.len(), bs);
    } else {
        let xb = x.take(bs as int);
        let c = cipher_encrypt(a, key, if m == BlockCipherMode::CBC { xor_bytes(xb, prev) } else { xb });
        vstd::arithmetic::div_mod::lemma_mod_add_multiples_vanish(x.len() - bs, bs as int);
        lemma_enc_chain_len(a, m, key, c, x.skip(bs as int));
    }
}

/// A ciphertext is as long as its plaintext rounded up past the next
/// whole block: never empty, always longer than the plaintext, and a whole
/// number of blocks.
pub proof fn law_ciphertext_length(
    a: BlockCipherAlgorithm,
    m: BlockCipherMode,
    key: Seq<u8>,
    iv: Seq<u8>,
    p: Seq<u8>,
)
    ensures
        encrypt_spec(a, m, key, iv, p).len() == p.len() + pad_count(p.len(), block_len(a)),
        encrypt_spec(a, m, key, iv, p).len() > p.len(),
        encrypt_spec(a, m, key, iv, p).len() % block_len(a) == 0,
{
    let bs = block_len(a);
    lemma_pad(p, bs);
    lemma_pad_len(p.len(), bs);
    lemma_enc_chain_len(a, m, key, iv.take(iv_len(a, m) as int), pad(p, bs));
}

/// Whether decrypting has been sound so far: the text decrypted up to
/// `off`, followed by anything, encrypts to the ciphertext up to `off`
/// followed by the encryption of the rest from `prev`.
spec fn sound_upto(
    a: BlockCipherAlgorithm,
    m: BlockCipherMode,
    key: Seq<u8>,
    prev0: Seq<u8>,
    out: Seq<u8>,
    prev: Seq<u8>,
    c: Seq<u8>,
    off: int,
) -> bool {
    forall|y: Seq<u8>|
        #[trigger] enc_chain(a, m, key, prev0, out + y) == c.take(off) + enc_chain(a, m, key, prev, y)
}

/// Whether decrypting has been complete so far: every text that encrypts
/// to the ciphertext begins with what was decrypted, and its rest
/// encrypts, from `prev`, to the rest of the ciphertext.
spec fn complete_upto(
    a: BlockCipherAlgorithm,
    m: BlockCipherMode,
    key: Seq<u8>,
    prev0: Seq<u8>,
    out: Seq<u8>,
    prev: Seq<u8>,
    c: Seq<u8>,
    off: int,
) -> bool {
    forall|x: Seq<u8>|
        #[trigger] enc_chain(a, m, key, prev0, x) == c ==> x.len() >= off && x.take(off) == out
            && enc_chain(
            a,
            m,
            key,
            prev,
            x.skip(off),
        ) == c.skip(off)
}

/// The block input that the mode makes of a text block.
spec fn block_input(m: BlockCipherMode, xb: Seq<u8>, prev: Seq<u8>) -> Seq<u8> {
    if m == BlockCipherMode::CBC {
        xor_bytes(xb, prev)
    } else {
        xb
    }
}

/// One block decrypted keeps decryption sound.
proof fn lemma_dec_step_sound(
    a: BlockCipherAlgorithm,
    m: BlockCipherMode,
    key: Seq<u8>,
    prev0: Seq<u8>,
    out: Seq<u8>,
    prev: Seq<u8>,
    c: Seq<u8>,
    off: int,
    p: Seq<u8>,
)
    requires
        sound_upto(a, m, key, prev0, out, prev, c, off),
        0 <= off,
        off + block_len(a) <= c.len(),
        p.len() == block_len(a),
        cipher_encrypt(a, key, block_input(m, p, prev)) == c.subrange(off, off + block_len(a)),
    ensures
        sound_upto(
            a,
            m,
            key,
            prev0,
            out + p,
            c.subrange(off, off + block_len(a)),
            c,
            off + block_len(a),
        ),
{
    let bs = block_len(a);
    let cb = c.subrange(off, off + bs);
    assert forall|y: Seq<u8>|
        #[trigger] enc_chain(a, m, key, prev0, (out + p) + y) == c.take(off + bs) + enc_chain(
            a,
            m,
            key,
            cb,
            y,
        ) by {
        assert((out + p) + y =~= out + (p + y));
        assert(enc_chain(a, m, key, prev0, out + (p + y)) == c.take(off) + enc_chain(
            a,
            m,
            key,
            prev,
            p + y,
        ));
        assert((p + y).take(bs as int) =~= p);
        assert((p + y).skip(bs as int) =~= y);
        assert(c.take(off) + cb =~= c.take(off + bs));
        assert(c.take(off) + (cb + enc_chain(a, m, key, cb, y)) =~= c.take(off + bs) + enc_chain(
            a,
            m,
            key,
            cb,
            y,
        ));
    }
}

/// One block decrypted keeps decryption complete.
proof fn lemma_dec_step_complete(
    a: BlockCipherAlgorithm,
    m: BlockCipherMode,
    key: Seq<u8>,
    prev0: Seq<u8>,
    out: Seq<u8>,
    prev: Seq<u8>,
    c: Seq<u8>,
    off: int,
    d: Seq<u8>,
    p: Seq<u8>,
)
    requires
        complete_upto(a, m, key, prev0, out, prev, c, off),
        0 <= off,
        off + block_len(a) <= c.len(),
        m == BlockCipherMode::CBC ==> prev.len() == block_len(a),
        forall|q: Seq<u8>|
            q.len() == block_len(a) && cipher_encrypt(a, key, q) == c.subrange(
                off,
                off + block_len(a),
            ) ==> d == q,
        p == (if m == BlockCipherMode::CBC {
            xor_bytes(d, prev)
        } else {
            d
        }),
    ensures
        complete_upto(
            a,
            m,
            key,
            prev0,
            out + p,
            c.subrange(off, off + block_len(a)),
            c,
            off + block_len(a),
        ),
{
    let bs = block_len(a);
    let cb = c.subrange(off, off + bs);
    assert forall|x: Seq<u8>| #[trigger] enc_chain(a, m, key, prev0, x) == c implies x.len() >= off
        + bs && x.take(off + bs) == out + p && enc_chain(a, m, key, cb, x.skip(off + bs)) == c.skip(off + bs) by {
        let xs = x.skip(off);
        assert(enc_chain(a, m, key, prev, xs) == c.skip(off));
        assert(c.skip(off).len() >= bs);
        assert(xs.len() >= bs);
        let xb = xs.take(bs as int);
        let c1 = cipher_encrypt(a, key, block_input(m, xb, prev));
        assert(c1.len() == bs);
        assert(enc_chain(a, m, key, prev, xs) == c1 + enc_chain(a, m, key, c1, xs.skip(bs as int)));
        assert(c.skip(off).take(bs as int) =~= cb);
        assert((c1 + enc_chain(a, m, key, c1, xs.skip(bs as int))).take(bs as int) =~= c1);
        assert(c1 == cb);
        assert(block_input(m, xb, prev).len() == bs);
        assert(d == block_input(m, xb, prev));
        if m == BlockCipherMode::CBC {
            lemma_xor_twice(xb, prev);
        }
        assert(p == xb);
        assert(x.take(off + bs) =~= x.take(off) + xb);
        assert(xs.skip(bs as int) =~= x.skip(off + bs));
        assert((c1 + enc_chain(a, m, key, c1, xs.skip(bs as int))).skip(bs as int) =~= enc_chain(
            a,
            m,
            key,
            c1,
            xs.skip(bs as int),
        ));
        assert(c.skip(off).skip(bs as int) =~= c.skip(off + bs));
    }
}

/// The blocks of a ciphertext decrypted one after another from `prev0`:
/// the text that encrypts to it, and the only one of whole blocks.
fn decrypt_chain(
    a: BlockCipherAlgorithm,
    m: BlockCipherMode,
    key: &[u8],
    prev0: Vec<u8>,
    c: &[u8],
) -> (r: Vec<u8>)
    requires
        key@.len() == key_len(a),
        m == BlockCipherMode::CBC ==> prev0@.len() == block_len(a),
        c@.len() % block_len(a) == 0,
    ensures
        r@.len() == c@.len(),
        enc_chain(a, m, key@, prev0@, r@) == c@,
        forall|x: Seq<u8>|
            #[trigger] enc_chain(a, m, key@, prev0@, x) == c@ ==> x.len() >= c@.len() && x.take(
                c@.len() as int,
            ) == r@ && x.skip(c@.len() as int).len() < block_len(a),
{
    let bs = block_size_of(a);
    let n = c.len();
    let mut out: Vec<u8> = Vec::new();
    let mut prev = prev0;
    let mut off: usize = 0;
    proof {
        assert forall|y: Seq<u8>|
            #[trigger] enc_chain(a, m, key@, prev0@, out@ + y) == c@.take(0) + enc_chain(
                a,
                m,
                key@,
                prev@,
                y,
            ) by {
            assert(out@ + y =~= y);
            assert(c@.take(0) + enc_chain(a, m, key@, prev@, y) =~= enc_chain(a, m, key@, prev@, y));
        }
        assert forall|x: Seq<u8>| #[trigger] enc_chain(a, m, key@, prev0@, x) == c@ implies x.len()
            >= 0 && x.take(0) == out@ && enc_chain(a, m, key@, prev@, x.skip(0)) == c@.skip(0) by {
            assert(x.take(0) =~= out@);
            assert(x.skip(0) =~= x);
            assert(c@.skip(0) =~= c@);
        }
    }
    while n - off >= bs
        invariant
            n == c@.len(),
            bs == block_len(a),
            key@.len() == key_len(a),
            off <= n,
            (n - off) % (bs as int) == 0,
            out@.len() == off,
            m == BlockCipherMode::CBC ==> prev@.len() == bs,
            sound_upto(a, m, key@, prev0@, out@, prev@, c@, off as int),
            complete_upto(a, m, key@, prev0@, out@, prev@, c@, off as int),
        decreases n - off,
    {
        let cb = bytes_at(c, off, bs);
        let d = decrypt_block(a, key, cb.as_slice());
        let p = if m == BlockCipherMode::CBC {
            xor_vec(d.as_slice(), prev.as_slice())
        } else {
            d
        };
        proof {
            if m == BlockCipherMode::CBC {
                lemma_xor_twice(d@, prev@);
            }
            assert(block_input(m, p@, prev@) == d@);
            lemma_dec_step_sound(a, m, key@, prev0@, out@, prev@, c@, off as int, p@);
            lemma_dec_step_complete(a, m, key@, prev0@, out@, prev@, c@, off as int, d@, p@);
            vstd::arithmetic::div_mod::lemma_mod_add_multiples_vanish(
                n - off - bs,
                bs as int,
            );
        }
        extend_bytes(&mut out, p.as_slice());
        prev = cb;
        off = off + bs;
    }
    proof {
        vstd::arithmetic::div_mod::lemma_small_mod((n - off) as nat, bs as nat);
        assert(off == n);
        assert(out@ + seq![] =~= out@);
        assert(enc_chain(a, m, key@, prev0@, out@ + seq![]) == c@.take(n as int) + enc_chain(
            a,
            m,
            key@,
            prev@,
            seq![],
        ));
        assert(c@.take(n as int) =~= c@);
        assert forall|x: Seq<u8>| #[trigger] enc_chain(a, m, key@, prev0@, x) == c@ implies x.len()
            >= c@.len() && x.take(c@.len() as int) == out@ && x.skip(c@.len() as int).len() < bs by {
            let xs = x.skip(n as int);
            assert(c@.skip(n as int).len() == 0);
            if xs.len() >= bs {
                let xb = xs.take(bs as int);
                let c1 = cipher_encrypt(a, key@, block_input(m, xb, prev@));
                assert(enc_chain(a, m, key@, prev@, xs) == c1 + enc_chain(
                    a,
                    m,
                    key@,
                    c1,
                    xs.skip(bs as int),
                ));
            }
        }
    }
    out
}

/// Whether the last `cnt` bytes of a text are all `b`, as code.
fn tail_is(x: &Vec<u8>, cnt: usize, b: u8) -> (r: bool)
    requires
        cnt <= x@.len(),
    ensures
        r == (forall|i: int| x@.len() - cnt <= i < x@.len() ==> x@[i] == b),
{
    let n = x.len();
    let mut i: usize = n - cnt;
    while i < n
        invariant
            n == x@.len(),
            cnt <= n,
            n - cnt <= i <= n,
            forall|j: int| n - cnt <= j < i ==> x@[j] == b,
        decreases n - i,
    {
        if x[i] != b {
            return false;
        }
        i = i + 1;
    }
    true
}

/// Decrypts a ciphertext and takes off its padding: the plaintext that
/// encrypts to it, or `APR_EPADDING` when there is none.
fn decrypt_bytes(
    a: BlockCipherAlgorithm,
    m: BlockCipherMode,
    key: &[u8],
    iv: &[u8],
    c: &[u8],
) -> (r: Result<Vec<u8>, u32>)
    requires
        key@.len() == key_len(a),
        iv@.len() >= iv_len(a, m),
    ensures
        forall|p: Seq<u8>|
            encrypt_spec(a, m, key@, iv@, p) == c@ ==> (r matches Ok(v) && v@ == p),
        r matches Ok(v) ==> encrypt_spec(a, m, key@, iv@, v@) == c@,
        r matches Err(e) ==> e == APR_EPADDING,
{
    let bs = block_size_of(a);
    let ghost ivb = iv@.take(iv_len(a, m) as int);
    if c.len() == 0 || c.len() % bs != 0 {
        proof {
            assert forall|p: Seq<u8>| encrypt_spec(a, m, key@, iv@, p) == c@ implies false by {
                lemma_pad(p, bs as nat);
                lemma_enc_chain_len(a, m, key@, ivb, pad(p, bs as nat));
            }
        }
        return Err(APR_EPADDING);
    }
    let prev0 = if m == BlockCipherMode::CBC {
        bytes_at(iv, 0, bs)
    } else {
        Vec::new()
    };
    assert(prev0@ =~= ivb);
    let x = decrypt_chain(a, m, key, prev0, c);
    let n = x.len();
    proof {
        assert forall|p: Seq<u8>| encrypt_spec(a, m, key@, iv@, p) == c@ implies x@ == pad(
            p,
            bs as nat,
        ) by {
            let xx = pad(p, bs as nat);
            lemma_pad(p, bs as nat);
            assert(enc_chain(a, m, key@, prev0@, xx) == c@);
            let q1 = xx.len() as int / bs as int;
            let q2 = n as int / bs as int;
            vstd::arithmetic::div_mod::lemma_fundamental_div_mod(xx.len() as int, bs as int);
            vstd::arithmetic::div_mod::lemma_fundamental_div_mod(n as int, bs as int);
            assert(xx.len() - n < bs);
            assert(xx.len() == n) by (nonlinear_arith)
                requires
                    xx.len() == bs * q1,
                    n == bs * q2,
                    0 <= xx.len() - n < bs,
            ;
            assert(xx =~= xx.take(n as int));
        }
    }
    let last = x[n - 1];
    let cnt = last as usize;
    if cnt == 0 || cnt > bs || cnt > n || !tail_is(&x, cnt, last) {
        proof {
            assert forall|p: Seq<u8>| encrypt_spec(a, m, key@, iv@, p) == c@ implies false by {
                lemma_pad(p, bs as nat);
            }
        }
        return Err(APR_EPADDING);
    }
    assert(padding_ok(x@, bs as nat));
    let plain = crate::text::bytes_prefix(x.as_slice(), n - cnt);
    proof {
        lemma_unpad(x@, bs as nat);
        assert(plain@ == unpad(x@));
        assert forall|p: Seq<u8>| encrypt_spec(a, m, key@, iv@, p) == c@ implies plain@ == p by {
            lemma_pad(p, bs as nat);
        }
    }
    Ok(plain)
}

/// A text with its padding, as code.
fn pad_vec(p: &[u8], bs: usize) -> (r: Vec<u8>)
    requires
        1 <= bs <= 255,
        p@.len() + bs <= usize::MAX,
    ensures
        r@ == pad(p@, bs as nat),
{
    let n = p.len();
    let cnt = bs - n % bs;
    let mut r = crate::text::copy_bytes(p);
    let mut i: usize = 0;
    while i < cnt
        invariant
            cnt == pad_count(n as nat, bs as nat),
            1 <= cnt <= bs <= 255,
            n == p@.len(),
            i <= cnt,
            r@ == p@ + Seq::new(i as nat, |j: int| cnt as u8),
        decreases cnt - i,
    {
        r.push(cnt as u8);
        assert(r@ =~= p@ + Seq::new((i + 1) as nat, |j: int| cnt as u8));
        i = i + 1;
    }
    assert(r@ =~= pad(p@, bs as nat));
    r
}

/// Encrypts a plaintext: pads it and encrypts it block by block.
fn encrypt_bytes(
    a: BlockCipherAlgorithm,
    m: BlockCipherMode,
    key: &[u8],
    iv: &[u8],
    p: &[u8],
) -> (r: Vec<u8>)
    requires
        key@.len() == key_len(a),
        iv@.len() >= iv_len(a, m),
        p@.len() + 32 <= usize::MAX,
    ensures
        r@ == encrypt_spec(a, m, key@, iv@, p@),
{
    let bs = block_size_of(a);
    let x = pad_vec(p, bs);
    let prev0 = if m == BlockCipherMode::CBC {
        bytes_at(iv, 0, bs)
    } else {
        Vec::new()
    };
    assert(prev0@ =~= iv@.take(iv_len(a, m) as int));
    encrypt_chain(a, m, key, prev0, x.as_slice())
}

/// The initialisation vector that a call hands over, as the model reads
/// it: none reads as no bytes.
pub open spec fn iv_seq(iv: Option<&[u8]>) -> Seq<u8> {
    match iv {
        Some(v) => v@,
        None => seq![],
    }
}

/// Whether `c` is the encryption of `p` under a key with some
/// initialisation vector of the right length.
pub open spec fn encrypted_with_some_iv(k: CryptoKey, p: Seq<u8>, c: Seq<u8>) -> bool {
    exists|w: Seq<u8>|
        w.len() == iv_len(k.algorithm_of(), k.mode_of()) && #[trigger] encrypt_spec(
            k.algorithm_of(),
            k.mode_of(),
            k.key_bytes(),
            w,
            p,
        ) == c
}

/// The name of the one driver built in.
pub open spec fn openssl_name() -> Seq<char> {
    seq!['o', 'p', 'e', 'n', 's', 's', 'l']
}

/// A crypto driver.
pub struct CryptoDriver {
    name: String,
}

/// A crypto context, made by a driver.
pub struct Crypto {
    driver: CryptoDriver,
}

/// A key derived for a cipher and mode.
pub struct CryptoKey {
    algorithm: BlockCipherAlgorithm,
    mode: BlockCipherMode,
    key: Vec<u8>,
}

/// A block context set up for encryption or decryption: the key and the
/// initialisation vector in use.
pub struct CryptoBlock {
    key: CryptoKey,
    iv: Vec<u8>,
}

impl CryptoKey {
    #[verifier::type_invariant]
    spec fn well_formed(self) -> bool {
        self.key@.len() == key_len(self.algorithm)
    }

    /// The cipher of the key.
    pub closed spec fn algorithm_of(self) -> BlockCipherAlgorithm {
        self.algorithm
    }

    /// The mode of the key.
    pub closed spec fn mode_of(self) -> BlockCipherMode {
        self.mode
    }

    /// The bytes of the key.
    pub closed spec fn key_bytes(self) -> Seq<u8> {
        self.key@
    }
}

impl CryptoBlock {
    /// The key in use.
    pub closed spec fn key_of(self) -> CryptoKey {
        self.key
    }

    /// The initialisation vector in use.
    pub closed spec fn iv_of(self) -> Seq<u8> {
        self.iv@
    }
}

impl CryptoDriver {
    /// The name of the driver.
    pub closed spec fn name_of(self) -> Seq<char> {
        self.name@
    }

    /// Makes a crypto context from this driver.
    pub fn make_crypto(&self, pool: &Pool) -> (r: Result<Crypto, Error>)
        ensures
            r matches Ok(c) && c.driver_name() == self.name_of(),
    {
        Ok(Crypto { driver: CryptoDriver { name: self.name.clone() } })
    }
}

/// Whether a name holds a NUL.
fn name_has_nul(name: &str) -> (r: bool)
    ensures
        r == (exists|i: int| 0 <= i < name@.len() && name@[i] == '\0'),
{
    let n = name.unicode_len();
    let mut i: usize = 0;
    while i < n
        invariant
            n == name@.len(),
            i <= n,
            forall|j: int| 0 <= j < i ==> name@[j] != '\0',
        decreases n - i,
    {
        if name.get_char(i) == '\0' {
            return true;
        }
        i = i + 1;
    }
    false
}

/// Whether a name is `openssl`.
fn is_openssl(name: &str) -> (r: bool)
    ensures
        r == (name@ == openssl_name()),
{
    let n = name.unicode_len();
    if n != 7 {
        return false;
    }
    let r = name.get_char(0) == 'o' && name.get_char(1) == 'p' && name.get_char(2) == 'e'
        && name.get_char(3) == 'n' && name.get_char(4) == 's' && name.get_char(5) == 's'
        && name.get_char(6) == 'l';
    proof {
        if r {
            assert(name@ =~= openssl_name());
        } else if name@ == openssl_name() {
            assert(name@[0] == 'o' && name@[1] == 'p' && name@[2] == 'e' && name@[3] == 'n'
                && name@[4] == 's' && name@[5] == 's' && name@[6] == 'l');
        }
    }
    r
}

/// Gets a crypto driver by name. The one driver built in is `openssl`;
/// another name gives `DSOOpen`, as a driver that cannot be loaded does,
/// and a name that holds a NUL gives the status of `EINVAL`.
pub fn get_driver(name: &str, pool: &Pool) -> (r: Result<CryptoDriver, Error>)
    ensures
        (exists|i: int| 0 <= i < name@.len() && name@[i] == '\0') ==> (r matches Err(e)
            && e.spec_status() == status_of_code(APR_EINVAL)),
        !(exists|i: int| 0 <= i < name@.len() && name@[i] == '\0') && name@ == openssl_name()
            ==> (r matches Ok(d) && d.name_of() == name@),
        !(exists|i: int| 0 <= i < name@.len() && name@[i] == '\0') && name@ != openssl_name()
            ==> (r matches Err(e) && e.spec_status() == status_of_code(APR_EDSOOPEN)),
{
    if name_has_nul(name) {
        return Err(Error::from_status(status_from_code(APR_EINVAL)));
    }
    if is_openssl(name) {
        Ok(CryptoDriver { name: name.to_owned() })
    } else {
        Err(Error::from_status(status_from_code(APR_EDSOOPEN)))
    }
}

/// Initializes the crypto library; the built-in driver needs nothing.
pub fn init() -> (r: Result<(), Error>)
    ensures
        r is Ok,
{
    Ok(())
}

impl Crypto {
    /// The name of the driver that made the context.
    pub closed spec fn driver_name(self) -> Seq<char> {
        self.driver.name@
    }

    /// Initializes the crypto library; the built-in driver needs nothing.
    pub fn init(pool: &Pool) -> (r: Result<(), Error>)
        ensures
            r is Ok,
    {
        Ok(())
    }

    /// Derives a key for a cipher and mode from a passphrase: PBKDF2 with
    /// HMAC-SHA1, no salt and 4096 rounds, as long as the cipher's key.
    pub fn make_key(
        &self,
        algorithm: BlockCipherAlgorithm,
        mode: BlockCipherMode,
        key_data: &[u8],
        pool: &Pool,
    ) -> (r: Result<CryptoKey, Error>)
        ensures
            r matches Ok(k) && k.algorithm_of() == algorithm && k.mode_of() == mode
                && k.key_bytes() == pbkdf2_hmac_sha1(key_data@, seq![], 4096, key_len(algorithm)),
    {
        let none: Vec<u8> = Vec::new();
        let key = pbkdf2_sha1(key_data, none.as_slice(), 4096, key_size_of(algorithm));
        Ok(CryptoKey { algorithm, mode, key })
    }

    /// Encrypts with a given initialisation vector (ECB uses none).
    pub fn encrypt_iv(&self, key: &CryptoKey, plaintext: &[u8], iv: &[u8], pool: &Pool) -> (r:
        Result<Vec<u8>, Error>)
        requires
            iv@.len() >= iv_len(key.algorithm_of(), key.mode_of()),
            plaintext@.len() + 32 <= usize::MAX,
        ensures
            r matches Ok(v) && v@ == encrypt_spec(
                key.algorithm_of(),
                key.mode_of(),
                key.key_bytes(),
                iv@,
                plaintext@,
            ),
    {
        proof {
            use_type_invariant(key);
        }
        let block = CryptoBlock {
            key: CryptoKey { algorithm: key.algorithm, mode: key.mode, key: crate::text::copy_bytes(key.key.as_slice()) },
            iv: crate::text::copy_bytes(iv),
        };
        Ok(encrypt_bytes(block.key.algorithm, block.key.mode, block.key.key.as_slice(), block.iv.as_slice(), plaintext))
    }

    /// Encrypts data: padded with PKCS#7 and encrypted block by block.
    /// Where the mode needs an initialisation vector and none is given, a
    /// random one is drawn (and not handed back).
    pub fn encrypt(&self, key: &CryptoKey, plaintext: &[u8], iv: Option<&[u8]>, pool: &Pool) -> (r:
        Result<Vec<u8>, Error>)
        requires
            iv matches Some(v) ==> v@.len() >= iv_len(key.algorithm_of(), key.mode_of()),
            plaintext@.len() + 32 <= usize::MAX,
        ensures
            iv_len(key.algorithm_of(), key.mode_of()) == 0 || iv is Some ==> (r matches Ok(v)
                && v@ == encrypt_spec(
                key.algorithm_of(),
                key.mode_of(),
                key.key_bytes(),
                iv_seq(iv),
                plaintext@,
            )),
            iv_len(key.algorithm_of(), key.mode_of()) > 0 && iv is None ==> (r matches Ok(v)
                ==> encrypted_with_some_iv(*key, plaintext@, v@)) && (r matches Err(e)
                ==> e.spec_status() == Status::General),
    {
        let needs = key.mode == BlockCipherMode::CBC;
        match iv {
            Some(v) => self.encrypt_iv(key, plaintext, v, pool),
            None => {
                if needs {
                    let mut fresh: Vec<u8> = vec![0u8; block_size_of(key.algorithm)];
                    if !os_random_fill(fresh.as_mut_slice()) {
                        return Err(Error::from_status(Status::General));
                    }
                    let r = self.encrypt_iv(key, plaintext, fresh.as_slice(), pool);
                    proof {
                        assert(encrypt_spec(
                            key.algorithm_of(),
                            key.mode_of(),
                            key.key_bytes(),
                            fresh@,
                            plaintext@,
                        ) == r->Ok_0@);
                    }
                    r
                } else {
                    let none: Vec<u8> = Vec::new();
                    self.encrypt_iv(key, plaintext, none.as_slice(), pool)
                }
            },
        }
    }

    /// Decrypts data: the plaintext that encrypts to it under the key and
    /// initialisation vector (ECB uses none), or the status of
    /// `APR_EPADDING` when no plaintext does; a mode that needs an
    /// initialisation vector and is given none fails with the status of
    /// `APR_ENOIV`.
    pub fn decrypt(&self, key: &CryptoKey, ciphertext: &[u8], iv: Option<&[u8]>, pool: &Pool) -> (r:
        Result<Vec<u8>, Error>)
        requires
            iv matches Some(v) ==> v@.len() >= iv_len(key.algorithm_of(), key.mode_of()),
        ensures
            iv_len(key.algorithm_of(), key.mode_of()) > 0 && iv is None ==> (r matches Err(e)
                && e.spec_status() == status_of_code(APR_ENOIV)),
            iv_len(key.algorithm_of(), key.mode_of()) == 0 || iv is Some ==> {
                &&& forall|p: Seq<u8>|
                    encrypt_spec(
                        key.algorithm_of(),
                        key.mode_of(),
                        key.key_bytes(),
                        iv_seq(iv),
                        p,
                    ) == ciphertext@ ==> (r matches Ok(v) && v@ == p)
                &&& r matches Ok(v) ==> encrypt_spec(
                    key.algorithm_of(),
                    key.mode_of(),
                    key.key_bytes(),
                    iv_seq(iv),
                    v@,
                ) == ciphertext@
                &&& r matches Err(e) ==> e.spec_status() == status_of_code(APR_EPADDING)
            },
    {
        proof {
            use_type_invariant(key);
        }
        let none: Vec<u8> = Vec::new();
        let ivb: &[u8] = match iv {
            Some(v) => v,
            None => {
                if key.mode == BlockCipherMode::CBC {
                    return Err(Error::from_status(status_from_code(APR_ENOIV)));
                }
                none.as_slice()
            },
        };
        let block = CryptoBlock {
            key: CryptoKey { algorithm: key.algorithm, mode: key.mode, key: crate::text::copy_bytes(key.key.as_slice()) },
            iv: crate::text::copy_bytes(ivb),
        };
        match decrypt_bytes(block.key.algorithm, block.key.mode, block.key.key.as_slice(), block.iv.as_slice(), ciphertext) {
            Ok(p) => Ok(p),
            Err(code) => Err(Error::from_status(status_from_code(code))),
        }
    }
}

/// The drivers that can be had, out of those the runtime knows of
/// (`openssl`, `nss`, `commoncrypto`, `mscapi`, `mscng`): each that
/// [`get_driver`] gets, in that order; that is `openssl`, built in.
pub fn crypto_drivers(pool: &Pool) -> (r: Vec<String>)
    ensures
        r@.len() == 1,
        r@[0]@ == openssl_name(),
{
    let mut available: Vec<String> = Vec::new();
    let names: [&str; 5] = ["openssl", "nss", "commoncrypto", "mscapi", "mscng"];
    proof {
        reveal_strlit("openssl");
        reveal_strlit("nss");
        reveal_strlit("commoncrypto");
        reveal_strlit("mscapi");
        reveal_strlit("mscng");
        assert("openssl"@ =~= openssl_name());
    }
    let mut i: usize = 0;
    while i < 5
        invariant
            i <= 5,
            names@ == seq!["openssl", "nss", "commoncrypto", "mscapi", "mscng"],
            "openssl"@ == openssl_name(),
            "nss"@.len() == 3,
            "commoncrypto"@.len() == 12,
            "mscapi"@.len() == 6,
            "mscng"@.len() == 5,
            i == 0 ==> available@.len() == 0,
            i > 0 ==> available@.len() == 1 && available@[0]@ == openssl_name(),
        decreases 5 - i,
    {
        let name = names[i];
        if get_driver(name, pool).is_ok() {
            available.push(name.to_owned());
        }
        i = i + 1;
    }
    available
}

/// The key that `encrypt_aes256` and `decrypt_aes256` derive from a
/// passphrase.
pub open spec fn aes256_key(key: Seq<u8>) -> Seq<u8> {
    pbkdf2_hmac_sha1(key, seq![], 4096, 32)
}

/// Encrypts data with AES-256 in CBC mode under a key derived from a
/// passphrase (see [`Crypto::make_key`]), through the `openssl` driver. With
/// no initialisation vector a random one is drawn.
pub fn encrypt_aes256(key: &[u8], data: &[u8], iv: Option<&[u8]>) -> (r: Result<Vec<u8>, Error>)
    requires
        iv matches Some(v) ==> v@.len() >= 16,
        data@.len() + 32 <= usize::MAX,
    ensures
        iv is Some ==> (r matches Ok(v) && v@ == encrypt_spec(
            BlockCipherAlgorithm::AES256,
            BlockCipherMode::CBC,
            aes256_key(key@),
            iv_seq(iv),
            data@,
        )),
        iv is None ==> (r matches Ok(v) ==> exists|w: Seq<u8>|
            w.len() == 16 && #[trigger] encrypt_spec(
                BlockCipherAlgorithm::AES256,
                BlockCipherMode::CBC,
                aes256_key(key@),
                w,
                data@,
            ) == v@),
{
    let pool = Pool::new();
    let driver = get_driver("openssl", &pool);
    proof {
        reveal_strlit("openssl");
        assert("openssl"@ =~= openssl_name());
    }
    let driver = match driver {
        Ok(d) => d,
        Err(e) => {
            return Err(e);
        },
    };
    let crypto = match driver.make_crypto(&pool) {
        Ok(c) => c,
        Err(e) => {
            return Err(e);
        },
    };
    let crypto_key = match crypto.make_key(
        BlockCipherAlgorithm::AES256,
        BlockCipherMode::CBC,
        key,
        &pool,
    ) {
        Ok(k) => k,
        Err(e) => {
            return Err(e);
        },
    };
    let r = crypto.encrypt(&crypto_key, data, iv, &pool);
    proof {
        if iv is None && r is Ok {
            let v = r->Ok_0;
            assert(encrypted_with_some_iv(crypto_key, data@, v@));
            let w = choose|w: Seq<u8>|
                w.len() == iv_len(crypto_key.algorithm_of(), crypto_key.mode_of())
                    && #[trigger] encrypt_spec(
                    crypto_key.algorithm_of(),
                    crypto_key.mode_of(),
                    crypto_key.key_bytes(),
                    w,
                    data@,
                ) == v@;
            assert(encrypt_spec(
                BlockCipherAlgorithm::AES256,
                BlockCipherMode::CBC,
                aes256_key(key@),
                w,
                data@,
            ) == v@);
        }
    }
    r
}

/// Decrypts data that [`encrypt_aes256`] encrypted: the plaintext that
/// encrypts to it under the key derived from the passphrase and the
/// initialisation vector, or an error when no plaintext does (or when no
/// initialisation vector is given).
pub fn decrypt_aes256(key: &[u8], data: &[u8], iv: Option<&[u8]>) -> (r: Result<Vec<u8>, Error>)
    requires
        iv matches Some(v) ==> v@.len() >= 16,
    ensures
        iv is None ==> (r matches Err(e) && e.spec_status() == status_of_code(APR_ENOIV)),
        iv is Some ==> {
            &&& forall|p: Seq<u8>|
                encrypt_spec(
                    BlockCipherAlgorithm::AES256,
                    BlockCipherMode::CBC,
                    aes256_key(key@),
                    iv_seq(iv),
                    p,
                ) == data@ ==> (r matches Ok(v) && v@ == p)
            &&& r matches Ok(v) ==> encrypt_spec(
                BlockCipherAlgorithm::AES256,
                BlockCipherMode::CBC,
                aes256_key(key@),
                iv_seq(iv),
                v@,
            ) == data@
            &&& r matches Err(e) ==> e.spec_status() == status_of_code(APR_EPADDING)
        },
{
    let pool = Pool::new();
    let driver = get_driver("openssl", &pool);
    proof {
        reveal_strlit("openssl");
        assert("openssl"@ =~= openssl_name());
    }
    let driver = match driver {
        Ok(d) => d,
        Err(e) => {
            return Err(e);
        },
    };
    let crypto = match driver.make_crypto(&pool) {
        Ok(c) => c,
        Err(e) => {
            return Err(e);
        },
    };
    let crypto_key = match crypto.make_key(
        BlockCipherAlgorithm::AES256,
        BlockCipherMode::CBC,
        key,
        &pool,
    ) {
        Ok(k) => k,
        Err(e) => {
            return Err(e);
        },
    };
    crypto.decrypt(&crypto_key, data, iv, &pool)
}

} // verus!
