//! Base64 encoding and decoding with the runtime's rules: encoding pads with
//! `=`; decoding reads the leading run of base64 symbols and stops at the
//! first byte that is not one, so it never rejects its input.

use vstd::prelude::*;
use vstd::string::StringSliceAdditionalSpecFns;
use crate::error::Error;
use crate::status::{status_of_code, APR_EINVAL};
use crate::text::{string_from_utf8, string_push, str_bytes};

verus! {

/// The largest input length whose encoded length fits the runtime's `int`.
pub const BASE64_ENCODE_MAX: usize = 1610612733;

/// The largest encoded length whose decoded length fits the runtime's `int`.
pub const BASE64_DECODE_MAX: usize = 2863311524;

/// The symbol (as an ASCII byte) of a six-bit value.
pub open spec fn b64_symbol(v: int) -> u8 {
    if v < 26 {
        (65 + v) as u8
    } else if v < 52 {
        (97 + v - 26) as u8
    } else if v < 62 {
        (48 + v - 52) as u8
    } else if v == 62 {
        43u8
    } else {
        47u8
    }
}

/// The six-bit value of a base64 symbol; 64 for a byte that is not one.
pub open spec fn b64_value(b: u8) -> int {
    if 65 <= b <= 90 {
        b - 65
    } else if 97 <= b <= 122 {
        b - 97 + 26
    } else if 48 <= b <= 57 {
        b - 48 + 52
    } else if b == 43 {
        62
    } else if b == 47 {
        63
    } else {
        64
    }
}

/// Whether a byte is a base64 symbol.
pub open spec fn is_b64_symbol(b: u8) -> bool {
    b64_value(b) < 64
}

/// The base64 encoding of a byte sequence, as ASCII bytes, padded with `=`.
pub open spec fn spec_b64_encode(d: Seq<u8>) -> Seq<u8>
    decreases d.len(),
{
    if d.len() == 0 {
        seq![]
    } else if d.len() == 1 {
        seq![b64_symbol((d[0] as int) / 4), b64_symbol(((d[0] as int) % 4) * 16), 61u8, 61u8]
    } else if d.len() == 2 {
        seq![
            b64_symbol((d[0] as int) / 4),
            b64_symbol(((d[0] as int) % 4) * 16 + (d[1] as int) / 16),
            b64_symbol(((d[1] as int) % 16) * 4),
            61u8,
        ]
    } else {
        seq![
            b64_symbol((d[0] as int) / 4),
            b64_symbol(((d[0] as int) % 4) * 16 + (d[1] as int) / 16),
            b64_symbol(((d[1] as int) % 16) * 4 + (d[2] as int) / 64),
            b64_symbol((d[2] as int) % 64),
        ] + spec_b64_encode(d.skip(3))
    }
}

/// The number of leading bytes that are base64 symbols.
pub open spec fn b64_prefix_len(s: Seq<u8>) -> nat
    decreases s.len(),
{
    if s.len() == 0 || !is_b64_symbol(s[0]) {
        0
    } else {
        1 + b64_prefix_len(s.drop_first())
    }
}

/// First byte decoded from symbols `a` and `b`.
pub open spec fn dec_first(a: u8, b: u8) -> u8 {
    (b64_value(a) * 4 + b64_value(b) / 16) as u8
}

/// Second byte decoded from symbols `b` and `c`.
pub open spec fn dec_second(b: u8, c: u8) -> u8 {
    ((b64_value(b) % 16) * 16 + b64_value(c) / 4) as u8
}

/// Third byte decoded from symbols `c` and `d`.
pub open spec fn dec_third(c: u8, d: u8) -> u8 {
    ((b64_value(c) % 4) * 64 + b64_value(d)) as u8
}

/// The bytes that a run of base64 symbols decodes to: three bytes for each
/// group of four, and for a final group of `n` symbols, `n - 1` bytes.
pub open spec fn b64_decode_symbols(s: Seq<u8>) -> Seq<u8>
    decreases s.len(),
{
    if s.len() > 4 {
        seq![dec_first(s[0], s[1]), dec_second(s[1], s[2]), dec_third(s[2], s[3])]
            + b64_decode_symbols(s.skip(4))
    } else if s.len() == 4 {
        seq![dec_first(s[0], s[1]), dec_second(s[1], s[2]), dec_third(s[2], s[3])]
    } else if s.len() == 3 {
        seq![dec_first(s[0], s[1]), dec_second(s[1], s[2])]
    } else if s.len() == 2 {
        seq![dec_first(s[0], s[1])]
    } else {
        seq![]
    }
}

/// What decoding gives for a text: the bytes of its leading run of symbols.
pub open spec fn spec_b64_decode(s: Seq<u8>) -> Seq<u8> {
    b64_decode_symbols(s.subrange(0, b64_prefix_len(s) as int))
}

/// The buffer length that decoding asks for: three bytes for each started
/// group of four symbols, plus one for a terminator.
pub open spec fn spec_decode_len(s: Seq<u8>) -> int {
    (b64_prefix_len(s) as int + 3) / 4 * 3 + 1
}

/// Whether a text holds a NUL byte, which cannot pass to the runtime.
pub open spec fn has_nul(s: Seq<u8>) -> bool {
    exists|i: int| 0 <= i < s.len() && s[i] == 0
}

/// ASCII bytes as characters.
pub open spec fn ascii_chars(b: Seq<u8>) -> Seq<char> {
    b.map_values(|x: u8| x as char)
}

/// The symbol of a six-bit value, as code.
fn symbol(v: u8) -> (r: u8)
    requires
        v < 64,
    ensures
        r == b64_symbol(v as int),
{
    if v < 26 {
        65 + v
    } else if v < 52 {
        97 + v - 26
    } else if v < 62 {
        48 + v - 52
    } else if v == 62 {
        43
    } else {
        47
    }
}

/// The six-bit value of a byte, 64 for a non-symbol, as code.
fn value_of(b: u8) -> (r: u8)
    ensures
        r as int == b64_value(b),
{
    if 65 <= b && b <= 90 {
        b - 65
    } else if 97 <= b && b <= 122 {
        b - 97 + 26
    } else if 48 <= b && b <= 57 {
        b - 48 + 52
    } else if b == 43 {
        62
    } else if b == 47 {
        63
    } else {
        64
    }
}

/// Get the length of the encoded base64 string for a given input length,
/// counting the terminating NUL of the runtime's buffer.
pub fn base64_encode_len(len: usize) -> (r: usize)
    requires
        len <= BASE64_ENCODE_MAX,
    ensures
        r == (len + 2) / 3 * 4 + 1,
{
    (len + 2) / 3 * 4 + 1
}

/// Get the maximum length of the decoded data for a given base64 string;
/// zero when the string holds a NUL byte.
pub fn base64_decode_len(encoded: &str) -> (r: usize)
    requires
        encoded.spec_bytes().len() <= BASE64_DECODE_MAX,
    ensures
        has_nul(encoded.spec_bytes()) ==> r == 0,
        !has_nul(encoded.spec_bytes()) ==> r == spec_decode_len(encoded.spec_bytes()),
{
    let bytes = str_bytes(encoded);
    if contains_nul(&bytes) {
        return 0;
    }
    let n = symbol_prefix_len(&bytes);
    (n + 3) / 4 * 3 + 1
}

/// Whether the bytes hold a NUL.
fn contains_nul(b: &Vec<u8>) -> (r: bool)
    ensures
        r == has_nul(b@),
{
    let mut i: usize = 0;
    while i < b.len()
        invariant
            i <= b@.len(),
            forall|j: int| 0 <= j < i ==> b@[j] != 0,
        decreases b@.len() - i,
    {
        if b[i] == 0 {
            return true;
        }
        i = i + 1;
    }
    false
}

/// The length of the leading run of symbols.
fn symbol_prefix_len(b: &Vec<u8>) -> (r: usize)
    ensures
        r == b64_prefix_len(b@),
        r <= b@.len(),
        forall|j: int| 0 <= j < r ==> is_b64_symbol(#[trigger] b@[j]),
{
    let mut i: usize = 0;
    proof {
        assert(b@.skip(0) =~= b@);
    }
    while i < b.len() && value_of(b[i]) < 64
        invariant
            i <= b@.len(),
            b64_prefix_len(b@) == i + b64_prefix_len(b@.skip(i as int)),
            forall|j: int| 0 <= j < i ==> is_b64_symbol(#[trigger] b@[j]),
        decreases b@.len() - i,
    {
        proof {
            assert(b@.skip(i as int).drop_first() =~= b@.skip(i + 1));
        }
        i = i + 1;
    }
    i
}

/// Encode binary data to base64.
pub fn base64_encode(data: &[u8]) -> (r: String)
    requires
        data@.len() <= BASE64_ENCODE_MAX,
    ensures
        r@ == ascii_chars(spec_b64_encode(data@)),
{
    let mut r = String::new();
    let len = data.len();
    let mut i: usize = 0;
    proof {
        assert(data@.skip(0) =~= data@);
    }
    while i < len
        invariant
            len == data@.len(),
            i <= len,
            ascii_chars(spec_b64_encode(data@)) =~= r@ + ascii_chars(spec_b64_encode(data@.skip(i as int))),
        decreases len - i,
    {
        let ghost rest = data@.skip(i as int);
        let b0 = data[i];
        let c0 = symbol(b0 / 4);
        if len - i == 1 {
            let c1 = symbol((b0 % 4) * 16);
            string_push(&mut r, c0 as char);
            string_push(&mut r, c1 as char);
            string_push(&mut r, '=');
            string_push(&mut r, '=');
            proof {
                assert(data@.skip(len as int) =~= Seq::<u8>::empty());
            }
            i = len;
        } else {
            let b1 = data[i + 1];
            let c1 = symbol((b0 % 4) * 16 + b1 / 16);
            if len - i == 2 {
                let c2 = symbol((b1 % 16) * 4);
                string_push(&mut r, c0 as char);
                string_push(&mut r, c1 as char);
                string_push(&mut r, c2 as char);
                string_push(&mut r, '=');
                proof {
                    assert(data@.skip(len as int) =~= Seq::<u8>::empty());
                }
                i = len;
            } else {
                let b2 = data[i + 2];
                let c2 = symbol((b1 % 16) * 4 + b2 / 64);
                let c3 = symbol(b2 % 64);
                string_push(&mut r, c0 as char);
                string_push(&mut r, c1 as char);
                string_push(&mut r, c2 as char);
                string_push(&mut r, c3 as char);
                proof {
                    assert(rest.skip(3) =~= data@.skip(i + 3));
                    let g = seq![c0, c1, c2, c3];
                    assert(spec_b64_encode(rest) == g + spec_b64_encode(rest.skip(3)));
                    assert(ascii_chars(g + spec_b64_encode(rest.skip(3))) =~= ascii_chars(g)
                        + ascii_chars(spec_b64_encode(rest.skip(3))));
                }
                i = i + 3;
            }
        }
    }
    proof {
        assert(data@.skip(len as int) =~= Seq::<u8>::empty());
    }
    r
}

/// Encode a string to base64.
pub fn base64_encode_string(s: &str) -> (r: String)
    requires
        s.spec_bytes().len() <= BASE64_ENCODE_MAX,
    ensures
        r@ == ascii_chars(spec_b64_encode(s.spec_bytes())),
{
    let bytes = str_bytes(s);
    base64_encode(bytes.as_slice())
}

/// Decode a run of symbols.
fn decode_symbols(s: &Vec<u8>, n: usize) -> (r: Vec<u8>)
    requires
        n <= s@.len(),
        forall|j: int| 0 <= j < n ==> is_b64_symbol(#[trigger] s@[j]),
    ensures
        r@ == b64_decode_symbols(s@.subrange(0, n as int)),
{
    let ghost t = s@.subrange(0, n as int);
    let mut out: Vec<u8> = Vec::new();
    let mut i: usize = 0;
    proof {
        assert(t.skip(0) =~= t);
    }
    while n - i > 4
        invariant
            i <= n <= s@.len(),
            t == s@.subrange(0, n as int),
            forall|j: int| 0 <= j < n ==> is_b64_symbol(#[trigger] s@[j]),
            b64_decode_symbols(t) =~= out@ + b64_decode_symbols(t.skip(i as int)),
        decreases n - i,
    {
        let v0 = value_of(s[i]);
        let v1 = value_of(s[i + 1]);
        let v2 = value_of(s[i + 2]);
        let v3 = value_of(s[i + 3]);
        proof {
            assert(is_b64_symbol(s@[i as int]));
            assert(is_b64_symbol(s@[i + 1]));
            assert(is_b64_symbol(s@[i + 2]));
            assert(is_b64_symbol(s@[i + 3]));
        }
        out.push(v0 * 4 + v1 / 16);
        out.push((v1 % 16) * 16 + v2 / 4);
        out.push((v2 % 4) * 64 + v3);
        proof {
            assert(t.skip(i as int).skip(4) =~= t.skip(i + 4));
        }
        i = i + 4;
    }
    let rem = n - i;
    if rem > 1 {
        let v0 = value_of(s[i]);
        let v1 = value_of(s[i + 1]);
        proof {
            assert(is_b64_symbol(s@[i as int]));
            assert(is_b64_symbol(s@[i + 1]));
        }
        out.push(v0 * 4 + v1 / 16);
        if rem > 2 {
            let v2 = value_of(s[i + 2]);
            proof {
                assert(is_b64_symbol(s@[i + 2]));
            }
            out.push((v1 % 16) * 16 + v2 / 4);
            if rem > 3 {
                let v3 = value_of(s[i + 3]);
                proof {
                    assert(is_b64_symbol(s@[i + 3]));
                }
                out.push((v2 % 4) * 64 + v3);
            }
        }
    }
    out
}

/// Decode a base64 string to binary data: the bytes of its leading run of
/// base64 symbols. A string that holds a NUL byte is refused with the
/// status of an invalid argument.
pub fn base64_decode(encoded: &str) -> (r: Result<Vec<u8>, Error>)
    requires
        encoded.spec_bytes().len() <= BASE64_DECODE_MAX,
    ensures
        has_nul(encoded.spec_bytes()) ==> (r matches Err(e) && e.spec_status() == status_of_code(
            APR_EINVAL,
        ) && e.spec_context() is None),
        !has_nul(encoded.spec_bytes()) ==> (r matches Ok(v) && v@ == spec_b64_decode(
            encoded.spec_bytes(),
        )),
{
    let bytes = str_bytes(encoded);
    if contains_nul(&bytes) {
        return Err(Error::from_status(crate::status::status_from_code(APR_EINVAL)));
    }
    let n = symbol_prefix_len(&bytes);
    Ok(decode_symbols(&bytes, n))
}

/// Decode a base64 string to a UTF-8 string; decoded bytes that are not
/// UTF-8 are refused with the status of an invalid argument.
pub fn base64_decode_string(encoded: &str) -> (r: Result<String, Error>)
    requires
        encoded.spec_bytes().len() <= BASE64_DECODE_MAX,
    ensures
        has_nul(encoded.spec_bytes()) ==> (r matches Err(e) && e.spec_status() == status_of_code(
            APR_EINVAL,
        )),
        !has_nul(encoded.spec_bytes()) && vstd::utf8::valid_utf8(
            spec_b64_decode(encoded.spec_bytes()),
        ) ==> (r matches Ok(s) && s@ == vstd::utf8::decode_utf8(
            spec_b64_decode(encoded.spec_bytes()),
        )),
        !has_nul(encoded.spec_bytes()) && !vstd::utf8::valid_utf8(
            spec_b64_decode(encoded.spec_bytes()),
        ) ==> (r matches Err(e) && e.spec_status() == status_of_code(APR_EINVAL)),
{
    let decoded = base64_decode(encoded)?;
    match string_from_utf8(decoded) {
        Ok(s) => Ok(s),
        Err(_) => Err(Error::from_status(crate::status::status_from_code(APR_EINVAL))),
    }
}

/// The value of the symbol of a six-bit value is that value.
proof fn lemma_symbol_value(v: int)
    requires
        0 <= v < 64,
    ensures
        b64_value(b64_symbol(v)) == v,
        0 < b64_symbol(v) < 128,
{
}

/// A leading symbol adds one to the length of the leading run.
proof fn lemma_prefix_cons(x: u8, t: Seq<u8>)
    requires
        is_b64_symbol(x),
    ensures
        b64_prefix_len(seq![x] + t) == 1 + b64_prefix_len(t),
{
    assert((seq![x] + t).drop_first() =~= t);
}

/// The leading run is no longer than the text.
proof fn lemma_prefix_le(s: Seq<u8>)
    ensures
        b64_prefix_len(s) <= s.len(),
    decreases s.len(),
{
    if s.len() > 0 && is_b64_symbol(s[0]) {
        lemma_prefix_le(s.drop_first());
    }
}

/// The length of the run of symbols that an encoding of a byte count starts
/// with.
spec fn encode_run_len(n: int) -> int {
    n / 3 * 4 + (if n % 3 == 1 {
        2int
    } else if n % 3 == 2 {
        3int
    } else {
        0int
    })
}

/// What is known of an encoding: the length of its leading run of symbols,
/// what that run decodes to, and that it is ASCII with no NUL.
spec fn encode_run_facts(d: Seq<u8>) -> bool {
    let e = spec_b64_encode(d);
    &&& b64_prefix_len(e) == encode_run_len(d.len() as int)
    &&& b64_decode_symbols(e.subrange(0, b64_prefix_len(e) as int)) == d
    &&& !has_nul(e)
    &&& forall|i: int| 0 <= i < e.len() ==> #[trigger] e[i] < 128
}

/// The encoding of one byte.
proof fn lemma_encode_run_one(d: Seq<u8>)
    requires
        d.len() == 1,
    ensures
        encode_run_facts(d),
{
    let e = spec_b64_encode(d);
    let a = b64_symbol(d[0] as int / 4);
    let b = b64_symbol((d[0] as int % 4) * 16);
    lemma_symbol_value(d[0] as int / 4);
    lemma_symbol_value((d[0] as int % 4) * 16);
    assert(e =~= seq![a] + (seq![b] + (seq![61u8] + seq![61u8])));
    lemma_prefix_cons(a, seq![b] + (seq![61u8] + seq![61u8]));
    lemma_prefix_cons(b, seq![61u8] + seq![61u8]);
    assert(b64_prefix_len(seq![61u8] + seq![61u8]) == 0);
    assert(e.subrange(0, 2) =~= seq![a, b]);
    assert(b64_decode_symbols(seq![a, b]) =~= d);
}

/// The encoding of two bytes.
proof fn lemma_encode_run_two(d: Seq<u8>)
    requires
        d.len() == 2,
    ensures
        encode_run_facts(d),
{
    let e = spec_b64_encode(d);
    let a = b64_symbol(d[0] as int / 4);
    let b = b64_symbol((d[0] as int % 4) * 16 + d[1] as int / 16);
    let c = b64_symbol((d[1] as int % 16) * 4);
    lemma_symbol_value(d[0] as int / 4);
    lemma_symbol_value((d[0] as int % 4) * 16 + d[1] as int / 16);
    lemma_symbol_value((d[1] as int % 16) * 4);
    assert(e =~= seq![a] + (seq![b] + (seq![c] + seq![61u8])));
    lemma_prefix_cons(a, seq![b] + (seq![c] + seq![61u8]));
    lemma_prefix_cons(b, seq![c] + seq![61u8]);
    lemma_prefix_cons(c, seq![61u8]);
    assert(b64_prefix_len(seq![61u8]) == 0);
    assert(e.subrange(0, 3) =~= seq![a, b, c]);
    assert(b64_decode_symbols(seq![a, b, c]) =~= d);
}

/// A group of three bytes in front of an encoding adds four symbols to its
/// run.
#[verifier::spinoff_prover]
proof fn lemma_encode_run_step(d: Seq<u8>)
    requires
        d.len() >= 3,
        encode_run_facts(d.skip(3)),
    ensures
        encode_run_facts(d),
{
    let e = spec_b64_encode(d);
    let a = b64_symbol(d[0] as int / 4);
    let b = b64_symbol((d[0] as int % 4) * 16 + d[1] as int / 16);
    let c = b64_symbol((d[1] as int % 16) * 4 + d[2] as int / 64);
    let x = b64_symbol(d[2] as int % 64);
    lemma_symbol_value(d[0] as int / 4);
    lemma_symbol_value((d[0] as int % 4) * 16 + d[1] as int / 16);
    lemma_symbol_value((d[1] as int % 16) * 4 + d[2] as int / 64);
    lemma_symbol_value(d[2] as int % 64);
    let rest = d.skip(3);
    let er = spec_b64_encode(rest);
    assert(e =~= seq![a] + (seq![b] + (seq![c] + (seq![x] + er))));
    lemma_prefix_cons(a, seq![b] + (seq![c] + (seq![x] + er)));
    lemma_prefix_cons(b, seq![c] + (seq![x] + er));
    lemma_prefix_cons(c, seq![x] + er);
    lemma_prefix_cons(x, er);
    let p = b64_prefix_len(er);
    lemma_prefix_le(er);
    let t = e.subrange(0, 4 + p as int);
    assert(t =~= seq![a, b, c, x] + er.subrange(0, p as int));
    assert(t.skip(4) =~= er.subrange(0, p as int));
    if rest.len() == 0 {
        assert(p == 0);
        assert(b64_decode_symbols(t) =~= d);
    } else {
        assert(p >= 2);
        assert(b64_decode_symbols(t) == seq![dec_first(a, b), dec_second(b, c), dec_third(c, x)]
            + b64_decode_symbols(t.skip(4)));
        assert(b64_decode_symbols(t) =~= d);
    }
    assert forall|i: int| 0 <= i < e.len() implies #[trigger] e[i] < 128 by {
        if i >= 4 {
            assert(e[i] == er[i - 4]);
        }
    }
    assert(!has_nul(e)) by {
        if has_nul(e) {
            let i = choose|i: int| 0 <= i < e.len() && e[i] == 0;
            if i >= 4 {
                assert(e[i] == er[i - 4]);
            }
        }
    }
}

/// The run of symbols in an encoding, its length, and what it decodes to.
proof fn lemma_encode_run(d: Seq<u8>)
    ensures
        encode_run_facts(d),
    decreases d.len(),
{
    if d.len() == 0 {
        let e = spec_b64_encode(d);
        assert(e.len() == 0);
        assert(e.subrange(0, 0) =~= Seq::<u8>::empty());
        assert(b64_decode_symbols(Seq::<u8>::empty()) =~= d);
    } else if d.len() == 1 {
        lemma_encode_run_one(d);
    } else if d.len() == 2 {
        lemma_encode_run_two(d);
    } else {
        lemma_encode_run(d.skip(3));
        lemma_encode_run_step(d);
    }
}

/// Decoding what encoding produced gives back the original bytes; the
/// encoding is plain ASCII with no NUL, so it passes through a string
/// unchanged.
pub proof fn law_base64_roundtrip(d: Seq<u8>)
    ensures
        spec_b64_decode(spec_b64_encode(d)) == d,
        !has_nul(spec_b64_encode(d)),
        vstd::utf8::encode_utf8(ascii_chars(spec_b64_encode(d))) == spec_b64_encode(d),
{
    lemma_encode_run(d);
    let e = spec_b64_encode(d);
    let cs = ascii_chars(e);
    assert(vstd::utf8::is_ascii_chars(cs));
    vstd::utf8::is_ascii_chars_encode_utf8(cs);
    assert(vstd::utf8::encode_utf8(cs) =~= e);
}

/// The encoded length is four symbols for every started group of three
/// bytes.
pub proof fn law_base64_encoded_length(d: Seq<u8>)
    ensures
        spec_b64_encode(d).len() == (d.len() + 2) / 3 * 4,
    decreases d.len(),
{
    if d.len() > 2 {
        law_base64_encoded_length(d.skip(3));
    }
}

/// A text encoded with [`base64_encode_string`] decodes back to the same
/// text with [`base64_decode_string`]: the encoding, as a string, is ASCII
/// with no NUL, and its bytes decode to valid UTF-8 that spells the text.
pub proof fn law_base64_string_roundtrip(s: Seq<char>)
    ensures
        !has_nul(vstd::utf8::encode_utf8(ascii_chars(spec_b64_encode(vstd::utf8::encode_utf8(s))))),
        vstd::utf8::valid_utf8(
            spec_b64_decode(
                vstd::utf8::encode_utf8(ascii_chars(spec_b64_encode(vstd::utf8::encode_utf8(s)))),
            ),
        ),
        vstd::utf8::decode_utf8(
            spec_b64_decode(
                vstd::utf8::encode_utf8(ascii_chars(spec_b64_encode(vstd::utf8::encode_utf8(s)))),
            ),
        ) == s,
{
    let b = vstd::utf8::encode_utf8(s);
    law_base64_roundtrip(b);
    vstd::utf8::encode_utf8_valid_utf8(s);
    vstd::utf8::encode_utf8_decode_utf8(s);
}

/// No six-bit value has `=` for its symbol.
proof fn lemma_symbol_not_pad(v: int)
    requires
        0 <= v < 64,
    ensures
        b64_symbol(v) != 61,
{
}

/// The padding of an encoding: the last group of three bytes gives no `=`,
/// a last single byte gives two, a last pair gives one.
pub proof fn law_base64_padding(d: Seq<u8>)
    ensures
        spec_b64_encode(d).len() == (d.len() + 2) / 3 * 4,
        d.len() % 3 == 0 && d.len() > 0 ==> spec_b64_encode(d).last() != 61 && spec_b64_encode(
            d,
        )[spec_b64_encode(d).len() - 2] != 61,
        d.len() % 3 == 1 ==> spec_b64_encode(d).last() == 61 && spec_b64_encode(d)[spec_b64_encode(
            d,
        ).len() - 2] == 61 && spec_b64_encode(d)[spec_b64_encode(d).len() - 3] != 61,
        d.len() % 3 == 2 ==> spec_b64_encode(d).last() == 61 && spec_b64_encode(d)[spec_b64_encode(
            d,
        ).len() - 2] != 61,
    decreases d.len(),
{
    law_base64_encoded_length(d);
    if d.len() == 1 {
        lemma_symbol_not_pad(((d[0] as int) % 4) * 16);
    } else if d.len() == 2 {
        lemma_symbol_not_pad(((d[1] as int) % 16) * 4);
    } else if d.len() > 2 {
        let rest = d.skip(3);
        law_base64_padding(rest);
        let head = seq![
            b64_symbol((d[0] as int) / 4),
            b64_symbol(((d[0] as int) % 4) * 16 + (d[1] as int) / 16),
            b64_symbol(((d[1] as int) % 16) * 4 + (d[2] as int) / 64),
            b64_symbol((d[2] as int) % 64),
        ];
        let e = spec_b64_encode(d);
        assert(e == head + spec_b64_encode(rest));
        let n = e.len();
        if rest.len() == 0 {
            lemma_symbol_not_pad(((d[1] as int) % 16) * 4 + (d[2] as int) / 64);
            lemma_symbol_not_pad((d[2] as int) % 64);
            assert(e[n - 1] == head[3]);
            assert(e[n - 2] == head[2]);
        } else {
            let t = spec_b64_encode(rest);
            assert(t.len() >= 4);
            assert(e[n - 1] == t[t.len() - 1]);
            assert(e[n - 2] == t[t.len() - 2]);
            assert(e[n - 3] == t[t.len() - 3]);
        }
    }
}

} // verus!
