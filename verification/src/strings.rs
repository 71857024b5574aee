//! Byte strings as C hands them over, and strings duplicated into a pool.
//!
//! A C string is the bytes before its first NUL: [`BStr`] holds such bytes,
//! [`BStrUtf8`] holds them once they are known to be UTF-8, and
//! [`PoolString`] holds a string copied for the runtime. Copying a string
//! that holds a NUL fails with [`NulError`], as a C string cannot hold it.

use vstd::prelude::*;
use vstd::string::{StringExecFns, StringSliceAdditionalSpecFns};
use vstd::utf8::{decode_utf8, encode_utf8, valid_utf8};
use crate::base64::has_nul;
use crate::pool::Pool;
use crate::text::{
    bytes_prefix, c_string, copy_bytes, find_byte, first_index, lemma_first_index_bounds,
    push_decimal, spec_decimal, str_bytes, string_from_utf8_lossy, string_push, utf8_lossy,
};

verus! {

broadcast use vstd::utf8::encode_utf8_decode_utf8;

#[verifier::external_type_specification]
#[verifier::external_body]
pub struct ExUtf8Error(std::str::Utf8Error);

/// Reads bytes as UTF-8 text.
///
/// Calls `std::str::from_utf8`, documented to succeed exactly on valid
/// UTF-8 and to give a string slice of those very bytes.
#[verifier::external_body]
fn str_from_utf8(v: &[u8]) -> (r: Result<&str, std::str::Utf8Error>)
    ensures
        r is Ok <==> valid_utf8(v@),
        r matches Ok(s) ==> s.spec_bytes() == v@,
{
    std::str::from_utf8(v)
}

/// The text that `{:?}` makes of a string: the string in double quotes,
/// with quotes, backslashes and characters that do not print escaped.
pub uninterp spec fn debug_quoted(s: Seq<char>) -> Seq<char>;

/// A string as `{:?}` writes it.
///
/// Formats the string with `{:?}`, whose result depends on the string
/// alone: it is named [`debug_quoted`]. Which characters it escapes, and
/// how, is not stated here.
#[verifier::external_body]
fn quoted(s: &str) -> (r: String)
    ensures
        r@ == debug_quoted(s@),
{
    format!("{:?}", s)
}

/// Bytes read from a C string: those before its first NUL.
#[derive(Debug)]
pub struct BStr {
    data: Vec<u8>,
}

impl View for BStr {
    type V = Seq<u8>;

    closed spec fn view(&self) -> Seq<u8> {
        self.data@
    }
}

/// The bytes of a C string held in a buffer, up to its first NUL (or all
/// of them when there is none).
fn c_bytes(bytes: &[u8]) -> (r: Vec<u8>)
    ensures
        r@ == c_string(bytes@),
        !has_nul(r@),
{
    proof {
        lemma_first_index_bounds(bytes@, 0u8);
    }
    let n = find_byte(bytes, 0);
    let r = bytes_prefix(bytes, n);
    assert(!has_nul(r@)) by {
        assert forall|i: int| 0 <= i < r@.len() implies r@[i] != 0 by {
            assert(r@[i] == bytes@[i]);
        }
    }
    r
}

impl BStr {
    /// The C string that a buffer holds: its bytes up to the first NUL.
    pub fn from_c_bytes(bytes: &[u8]) -> (r: BStr)
        ensures
            r@ == c_string(bytes@),
    {
        BStr { data: c_bytes(bytes) }
    }

    /// The bytes.
    pub fn as_bytes(&self) -> (r: &[u8])
        ensures
            r@ == self@,
    {
        self.data.as_slice()
    }

    /// The bytes as UTF-8 text, or the error when they are not.
    pub fn to_str(&self) -> (r: Result<&str, std::str::Utf8Error>)
        ensures
            r is Ok <==> valid_utf8(self@),
            r matches Ok(s) ==> s@ == decode_utf8(self@),
    {
        str_from_utf8(self.data.as_slice())
    }

    /// The bytes as text, with each invalid sequence replaced.
    pub fn to_string_lossy(&self) -> (r: String)
        ensures
            r@ == utf8_lossy(self@),
            valid_utf8(self@) ==> r@ == decode_utf8(self@),
    {
        string_from_utf8_lossy(self.data.as_slice())
    }

    /// Whether there are no bytes.
    pub fn is_empty(&self) -> (r: bool)
        ensures
            r == (self@.len() == 0),
    {
        self.data.len() == 0
    }

    /// The number of bytes.
    pub fn len(&self) -> (r: usize)
        ensures
            r == self@.len(),
    {
        self.data.len()
    }
}

/// Text read from a C string and known to be UTF-8.
#[derive(Debug)]
pub struct BStrUtf8 {
    data: String,
}

impl View for BStrUtf8 {
    type V = Seq<char>;

    closed spec fn view(&self) -> Seq<char> {
        self.data@
    }
}

impl BStrUtf8 {
    /// The C string that a buffer holds, as text: the error when its bytes
    /// (up to the first NUL) are not UTF-8.
    pub fn from_c_bytes(bytes: &[u8]) -> (r: Result<BStrUtf8, std::str::Utf8Error>)
        ensures
            r is Ok <==> valid_utf8(c_string(bytes@)),
            r matches Ok(b) ==> b@ == decode_utf8(c_string(bytes@)),
    {
        let c = c_bytes(bytes);
        match str_from_utf8(c.as_slice()) {
            Ok(s) => Ok(BStrUtf8 { data: s.to_owned() }),
            Err(e) => Err(e),
        }
    }

    /// The text.
    pub fn as_str(&self) -> (r: &str)
        ensures
            r@ == self@,
    {
        self.data.as_str()
    }

    /// Whether the text is empty.
    pub fn is_empty(&self) -> (r: bool)
        ensures
            r == (self@.len() == 0),
    {
        self.data.as_str().is_empty()
    }

    /// The number of bytes of the text in UTF-8.
    pub fn len(&self) -> (r: usize)
        ensures
            r == encode_utf8(self@).len(),
    {
        self.data.as_str().as_bytes().len()
    }
}

/// The error of copying a string that holds a NUL: where the first NUL
/// stands, and the bytes.
#[derive(Debug)]
pub struct NulError {
    pub position: usize,
    pub bytes: Vec<u8>,
}

impl NulError {
    /// The index of the first NUL.
    pub fn nul_position(&self) -> (r: usize)
        ensures
            r == self.position,
    {
        self.position
    }

    /// The bytes that could not be copied.
    pub fn into_vec(self) -> (r: Vec<u8>)
        ensures
            r@ == self.bytes@,
    {
        self.bytes
    }
}

/// A string copied for the runtime, as a C string: bytes without NUL.
#[derive(Debug)]
pub struct PoolString {
    data: Vec<u8>,
}

impl View for PoolString {
    type V = Seq<u8>;

    closed spec fn view(&self) -> Seq<u8> {
        self.data@
    }
}

/// The numbers of bytes as a list, as `{:?}` writes it: `[104, 105]`.
pub open spec fn byte_list(b: Seq<u8>) -> Seq<char> {
    seq!['['] + byte_items(b) + seq![']']
}

/// The numbers of bytes, each after the one before and `, `.
pub open spec fn byte_items(b: Seq<u8>) -> Seq<char>
    decreases b.len(),
{
    if b.len() == 0 {
        seq![]
    } else if b.len() == 1 {
        spec_decimal(b[0] as nat)
    } else {
        byte_items(b.drop_last()) + seq![',', ' '] + spec_decimal(b.last() as nat)
    }
}

/// How `{:?}` writes a pooled string.
pub open spec fn debug_text(b: Seq<u8>) -> Seq<char> {
    if valid_utf8(b) {
        seq!['P', 'o', 'o', 'l', 'S', 't', 'r', 'i', 'n', 'g', '('] + debug_quoted(decode_utf8(b))
            + seq![')']
    } else {
        seq!['P', 'o', 'o', 'l', 'S', 't', 'r', 'i', 'n', 'g', '('] + byte_list(b) + seq![')']
    }
}

/// How a pooled string shows: its text when it is UTF-8, else the list of
/// its bytes.
pub open spec fn display_text(b: Seq<u8>) -> Seq<char> {
    if valid_utf8(b) {
        decode_utf8(b)
    } else {
        byte_list(b)
    }
}

impl PoolString {
    /// The bytes, as a borrowed byte string.
    pub fn as_bstr(&self) -> (r: BStr)
        ensures
            r@ == self@,
    {
        BStr { data: copy_bytes(self.data.as_slice()) }
    }

    /// The bytes as UTF-8 text, or the error when they are not.
    pub fn as_str(&self) -> (r: Result<&str, std::str::Utf8Error>)
        ensures
            r is Ok <==> valid_utf8(self@),
            r matches Ok(s) ==> s@ == decode_utf8(self@),
    {
        str_from_utf8(self.data.as_slice())
    }

    /// The bytes.
    pub fn as_bytes(&self) -> (r: &[u8])
        ensures
            r@ == self@,
    {
        self.data.as_slice()
    }

    /// The number of bytes.
    pub fn len(&self) -> (r: usize)
        ensures
            r == self@.len(),
    {
        self.data.len()
    }

    /// Whether there are no bytes.
    pub fn is_empty(&self) -> (r: bool)
        ensures
            r == (self@.len() == 0),
    {
        self.data.len() == 0
    }

    /// The string as it shows: its text, or the list of its bytes when they
    /// are not UTF-8.
    pub fn to_display_string(&self) -> (r: String)
        ensures
            r@ == display_text(self@),
    {
        match str_from_utf8(self.data.as_slice()) {
            Ok(s) => s.to_owned(),
            Err(_) => {
                let mut out = String::new();
                push_byte_list(&mut out, self.data.as_slice());
                assert(out@ =~= byte_list(self@));
                out
            },
        }
    }

    /// The string as `{:?}` writes it: `PoolString("hello")`, or the list
    /// of its bytes in the brackets when they are not UTF-8.
    pub fn to_debug_string(&self) -> (r: String)
        ensures
            r@ == debug_text(self@),
    {
        let mut out = String::new();
        out.append("PoolString(");
        match str_from_utf8(self.data.as_slice()) {
            Ok(s) => {
                let q = quoted(s);
                out.append(q.as_str());
            },
            Err(_) => {
                push_byte_list(&mut out, self.data.as_slice());
            },
        }
        out.append(")");
        proof {
            reveal_strlit("PoolString(");
            reveal_strlit(")");
        }
        assert(out@ =~= debug_text(self@));
        out
    }
}

/// Appends the numbers of bytes as a list, as `{:?}` writes it.
fn push_byte_list(out: &mut String, b: &[u8])
    ensures
        final(out)@ == old(out)@ + byte_list(b@),
{
    let ghost start = out@;
    string_push(out, '[');
    let n = b.len();
    let mut i: usize = 0;
    while i < n
        invariant
            n == b@.len(),
            i <= n,
            out@ == start + seq!['['] + byte_items(b@.take(i as int)),
        decreases n - i,
    {
        if i > 0 {
            string_push(out, ',');
            string_push(out, ' ');
        }
        push_decimal(out, b[i] as u64);
        proof {
            let t = b@.take(i + 1);
            assert(t.drop_last() =~= b@.take(i as int));
            assert(t.last() == b@[i as int]);
            if i == 0 {
                assert(b@.take(0) =~= Seq::<u8>::empty());
            }
        }
        assert(out@ =~= start + seq!['['] + byte_items(b@.take(i + 1)));
        i = i + 1;
    }
    string_push(out, ']');
    assert(b@.take(n as int) =~= b@);
    assert(out@ =~= start + byte_list(b@));
}

/// Copies a string for the runtime, as `apr_pstrdup` does with a C string:
/// a string that holds a NUL cannot be copied, and gives the error with the
/// position of its first NUL.
pub fn pstrdup(s: &str, pool: &Pool) -> (r: Result<PoolString, NulError>)
    ensures
        match r {
            Ok(p) => !has_nul(s.spec_bytes()) && p@ == s.spec_bytes(),
            Err(e) => has_nul(s.spec_bytes()) && e.position == first_index(s.spec_bytes(), 0)
                && e.bytes@ == s.spec_bytes(),
        },
{
    let bytes = str_bytes(s);
    proof {
        lemma_first_index_bounds(bytes@, 0u8);
    }
    let n = find_byte(bytes.as_slice(), 0);
    if n < bytes.len() {
        Err(NulError { position: n, bytes })
    } else {
        Ok(PoolString { data: bytes })
    }
}

/// Copies at most `n` bytes of a string for the runtime, as `apr_pstrndup`
/// does; a string that holds a NUL cannot be copied.
pub fn pstrndup(s: &str, n: usize, pool: &Pool) -> (r: Result<PoolString, NulError>)
    ensures
        match r {
            Ok(p) => !has_nul(s.spec_bytes()) && p@ == s.spec_bytes().take(
                if n < s.spec_bytes().len() {
                    n as int
                } else {
                    s.spec_bytes().len() as int
                },
            ),
            Err(e) => has_nul(s.spec_bytes()) && e.position == first_index(s.spec_bytes(), 0)
                && e.bytes@ == s.spec_bytes(),
        },
{
    match pstrdup(s, pool) {
        Err(e) => Err(e),
        Ok(p) => {
            let len = p.data.len();
            let k = if n < len {
                n
            } else {
                len
            };
            Ok(PoolString { data: bytes_prefix(p.data.as_slice(), k) })
        },
    }
}

/// Copies bytes for the runtime, as `apr_pmemdup` does.
pub fn pmemdup(data: &[u8], pool: &Pool) -> (r: Vec<u8>)
    ensures
        r@ == data@,
{
    copy_bytes(data)
}

} // verus!
