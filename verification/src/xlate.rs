//! Character set translation between UTF-8, US-ASCII and ISO-8859-1:
//! text is decoded from one character set and encoded into the other;
//! translating between two names that are the same copies the bytes.

use vstd::prelude::*;
use vstd::string::StringSliceAdditionalSpecFns;
use vstd::utf8::{decode_utf8, encode_utf8, valid_utf8};
use crate::base64::has_nul;
use crate::error::Error;
use crate::pool::Pool;
use crate::status::{status_from_code, status_of_code, APR_EINVAL};
use crate::strmatch::bytes_hold_nul;
use crate::text::{ascii_lower, bytes_from, str_bytes, string_from_utf8, string_push, to_ascii_lower};

verus! {

broadcast use vstd::utf8::encode_utf8_valid_utf8, vstd::utf8::encode_utf8_decode_utf8;

/// The names of the character sets known here (in lowercase), with the
/// character set each names: 0 for UTF-8, 1 for US-ASCII, 2 for ISO-8859-1.
pub open spec fn charset_names() -> Seq<(Seq<u8>, int)> {
    seq![
        (seq![117u8, 116u8, 102u8, 45u8, 56u8], 0),
        (seq![117u8, 116u8, 102u8, 56u8], 0),
        (seq![97u8, 115u8, 99u8, 105u8, 105u8], 1),
        (seq![117u8, 115u8, 45u8, 97u8, 115u8, 99u8, 105u8, 105u8], 1),
        (seq![97u8, 110u8, 115u8, 105u8, 95u8, 120u8, 51u8, 46u8, 52u8, 45u8, 49u8, 57u8, 54u8, 56u8], 1),
        (seq![105u8, 115u8, 111u8, 45u8, 56u8, 56u8, 53u8, 57u8, 45u8, 49u8], 2),
        (seq![105u8, 115u8, 111u8, 56u8, 56u8, 53u8, 57u8, 45u8, 49u8], 2),
        (seq![105u8, 115u8, 111u8, 95u8, 56u8, 56u8, 53u8, 57u8, 45u8, 49u8], 2),
        (seq![108u8, 97u8, 116u8, 105u8, 110u8, 49u8], 2),
        (seq![108u8, 49u8], 2),
    ]
}

/// A text with its ASCII letters in lowercase.
pub open spec fn lowercase(s: Seq<u8>) -> Seq<u8> {
    Seq::new(s.len(), |i: int| ascii_lower(s[i]))
}

/// The character set of a name, compared without regard to ASCII case,
/// from the table entry `k` on.
pub open spec fn charset_from(name: Seq<u8>, k: int) -> Option<int>
    decreases 10 - k,
{
    if k >= 10 {
        None
    } else if lowercase(name) == charset_names()[k].0 {
        Some(charset_names()[k].1)
    } else {
        charset_from(name, k + 1)
    }
}

/// The characters that bytes stand for in a character set, if they are
/// text in it.
pub open spec fn decode_in(cs: int, b: Seq<u8>) -> Option<Seq<char>> {
    if cs == 0 {
        if valid_utf8(b) {
            Some(decode_utf8(b))
        } else {
            None
        }
    } else if cs == 1 && exists|i: int| 0 <= i < b.len() && b[i] >= 128 {
        None
    } else {
        Some(Seq::new(b.len(), |i: int| b[i] as char))
    }
}

/// The bytes that stand for characters in a character set, if it has them
/// all.
pub open spec fn encode_in(cs: int, c: Seq<char>) -> Option<Seq<u8>> {
    if cs == 0 {
        Some(encode_utf8(c))
    } else if exists|i: int| 0 <= i < c.len() && #[trigger] char_code(c[i]) >= cs_limit(cs) {
        None
    } else {
        Some(Seq::new(c.len(), |i: int| (c[i] as u32) as u8))
    }
}

/// The code of a character.
pub open spec fn char_code(c: char) -> u32 {
    c as u32
}

/// The first code that a single-byte character set lacks.
pub open spec fn cs_limit(cs: int) -> u32 {
    if cs == 1 {
        128
    } else {
        256
    }
}

/// How a translation goes: bytes copied, or decoded from one character set
/// and encoded into another.
pub enum XlateModel {
    Identity,
    Convert(int, int),
}

/// The result of a translation of bytes.
pub open spec fn spec_translate(x: XlateModel, b: Seq<u8>) -> Option<Seq<u8>> {
    match x {
        XlateModel::Identity => Some(b),
        XlateModel::Convert(to, from) => match decode_in(from, b) {
            None => None,
            Some(c) => encode_in(to, c),
        },
    }
}

/// The translation that two names open: the same name copies; else both
/// must be known.
pub open spec fn spec_open(to: Seq<u8>, from: Seq<u8>) -> Option<XlateModel> {
    if to == from {
        Some(XlateModel::Identity)
    } else {
        match (charset_from(to, 0), charset_from(from, 0)) {
            (Some(t), Some(f)) => Some(XlateModel::Convert(t, f)),
            _ => None,
        }
    }
}

/// The characters of a string.
///
/// Calls `str::chars`; its documentation states that it yields the
/// characters of the string in order.
#[verifier::external_body]
fn string_chars(s: &str) -> (r: Vec<char>)
    ensures
        r@ == s@,
{
    s.chars().collect()
}

/// A text with its ASCII letters in lowercase, as code.
fn lowercase_exec(s: &[u8]) -> (r: Vec<u8>)
    ensures
        r@ == lowercase(s@),
{
    let mut r: Vec<u8> = Vec::new();
    let mut i: usize = 0;
    while i < s.len()
        invariant
            i <= s@.len(),
            r@ == lowercase(s@).take(i as int),
        decreases s@.len() - i,
    {
        r.push(to_ascii_lower(s[i]));
        proof {
            assert(lowercase(s@).take(i + 1) =~= lowercase(s@).take(i as int).push(
                ascii_lower(s@[i as int]),
            ));
        }
        i = i + 1;
    }
    assert(r@ =~= lowercase(s@));
    r
}

/// Whether two byte slices are equal.
fn bytes_equal(a: &[u8], b: &[u8]) -> (r: bool)
    ensures
        r == (a@ == b@),
{
    if a.len() != b.len() {
        return false;
    }
    let mut i: usize = 0;
    while i < a.len()
        invariant
            i <= a@.len() == b@.len(),
            forall|j: int| 0 <= j < i ==> a@[j] == b@[j],
        decreases a@.len() - i,
    {
        if a[i] != b[i] {
            return false;
        }
        i = i + 1;
    }
    assert(a@ =~= b@);
    true
}

/// The character set of a name, as code.
fn charset_of(name: &[u8]) -> (r: Option<u8>)
    ensures
        match charset_from(name@, 0) {
            None => r is None,
            Some(c) => r == Some(c as u8) && 0 <= c < 3,
        },
{
    let l = lowercase_exec(name);
    let mut k: usize = 0;
    while k < 10
        invariant
            k <= 10,
            l@ == lowercase(name@),
            charset_from(name@, 0) == charset_from(name@, k as int),
        decreases 10 - k,
    {
        let (n, c) = charset_entry(k);
        if bytes_equal(l.as_slice(), n.as_slice()) {
            return Some(c);
        }
        k = k + 1;
    }
    None
}

/// The characters of bytes in a character set, as code.
fn decode_exec(cs: u8, b: &[u8]) -> (r: Option<Vec<char>>)
    requires
        cs < 3,
    ensures
        match decode_in(cs as int, b@) {
            None => r is None,
            Some(c) => r matches Some(v) && v@ == c,
        },
{
    if cs == 0 {
        let v = bytes_from(b, 0);
        assert(v@ =~= b@);
        match string_from_utf8(v) {
            Ok(s) => Some(string_chars(s.as_str())),
            Err(_) => None,
        }
    } else {
        let mut r: Vec<char> = Vec::new();
        let mut i: usize = 0;
        while i < b.len()
            invariant
                cs < 3,
                i <= b@.len(),
                r@ == Seq::new(b@.len(), |j: int| b@[j] as char).take(i as int),
                cs == 1 ==> forall|j: int| 0 <= j < i ==> b@[j] < 128,
            decreases b@.len() - i,
        {
            if cs == 1 && b[i] >= 128 {
                return None;
            }
            r.push(b[i] as char);
            proof {
                assert(Seq::new(b@.len(), |j: int| b@[j] as char).take(i + 1) =~= Seq::new(
                    b@.len(),
                    |j: int| b@[j] as char,
                ).take(i as int).push(b@[i as int] as char));
            }
            i = i + 1;
        }
        assert(r@ =~= Seq::new(b@.len(), |j: int| b@[j] as char));
        Some(r)
    }
}

/// The bytes of characters in a character set, as code.
fn encode_exec(cs: u8, c: &Vec<char>) -> (r: Option<Vec<u8>>)
    requires
        cs < 3,
    ensures
        match encode_in(cs as int, c@) {
            None => r is None,
            Some(b) => r matches Some(v) && v@ == b,
        },
{
    if cs == 0 {
        let mut s = String::new();
        let mut i: usize = 0;
        while i < c.len()
            invariant
                i <= c@.len(),
                s@ == c@.take(i as int),
            decreases c@.len() - i,
        {
            string_push(&mut s, c[i]);
            proof {
                assert(c@.take(i + 1) =~= c@.take(i as int).push(c@[i as int]));
            }
            i = i + 1;
        }
        assert(s@ =~= c@);
        let v = str_bytes(s.as_str());
        Some(v)
    } else {
        let limit: u32 = if cs == 1 {
            128
        } else {
            256
        };
        let mut r: Vec<u8> = Vec::new();
        let mut i: usize = 0;
        while i < c.len()
            invariant
                0 < cs < 3,
                i <= c@.len(),
                limit == (if cs == 1 {
                    128u32
                } else {
                    256u32
                }),
                forall|j: int| 0 <= j < i ==> (c@[j] as u32) < limit,
                r@ == Seq::new(c@.len(), |j: int| (c@[j] as u32) as u8).take(i as int),
            decreases c@.len() - i,
        {
            let v = c[i] as u32;
            if v >= limit {
                assert(0 <= i < c@.len() && char_code(c@[i as int]) >= cs_limit(cs as int));
                return None;
            }
            r.push(v as u8);
            proof {
                assert(Seq::new(c@.len(), |j: int| (c@[j] as u32) as u8).take(i + 1) =~= Seq::new(
                    c@.len(),
                    |j: int| (c@[j] as u32) as u8,
                ).take(i as int).push((c@[i as int] as u32) as u8));
            }
            i = i + 1;
        }
        assert(r@ =~= Seq::new(c@.len(), |j: int| (c@[j] as u32) as u8));
        Some(r)
    }
}

/// Character set translation handle.
pub struct Xlate {
    identity: bool,
    to: u8,
    from: u8,
}

impl View for Xlate {
    type V = XlateModel;

    closed spec fn view(&self) -> XlateModel {
        if self.identity {
            XlateModel::Identity
        } else {
            XlateModel::Convert(self.to as int, self.from as int)
        }
    }
}

impl Xlate {
    /// Whether the handle names known character sets.
    pub closed spec fn wf(&self) -> bool {
        self.to < 3 && self.from < 3
    }

    /// Create a new translation handle, converting from `from_charset` to
    /// `to_charset`. A name that holds a NUL, or an unknown character set
    /// (where the names differ), is refused as an invalid argument.
    pub fn new(to_charset: &str, from_charset: &str, pool: &Pool) -> (r: Result<Self, Error>)
        ensures
            has_nul(to_charset.spec_bytes()) || has_nul(from_charset.spec_bytes()) ==> (r matches Err(
                e,
            ) && e.spec_status() == status_of_code(APR_EINVAL)),
            !has_nul(to_charset.spec_bytes()) && !has_nul(from_charset.spec_bytes()) ==> match spec_open(
                to_charset.spec_bytes(),
                from_charset.spec_bytes(),
            ) {
                None => r matches Err(e) && e.spec_status() == status_of_code(APR_EINVAL),
                Some(x) => r matches Ok(t) && t@ == x && t.wf(),
            },
    {
        let t = str_bytes(to_charset);
        let f = str_bytes(from_charset);
        if bytes_hold_nul(&t) || bytes_hold_nul(&f) {
            return Err(Error::from_status(status_from_code(APR_EINVAL)));
        }
        if bytes_equal(t.as_slice(), f.as_slice()) {
            return Ok(Xlate { identity: true, to: 0, from: 0 });
        }
        match (charset_of(t.as_slice()), charset_of(f.as_slice())) {
            (Some(tc), Some(fc)) => Ok(Xlate { identity: false, to: tc, from: fc }),
            _ => Err(Error::from_status(status_from_code(APR_EINVAL))),
        }
    }

    /// Translate bytes, as code.
    fn translate(&self, input: &[u8]) -> (r: Option<Vec<u8>>)
        requires
            self.wf(),
        ensures
            match spec_translate(self@, input@) {
                None => r is None,
                Some(b) => r matches Some(v) && v@ == b,
            },
    {
        if self.identity {
            let v = bytes_from(input, 0);
            assert(v@ =~= input@);
            return Some(v);
        }
        match decode_exec(self.from, input) {
            None => None,
            Some(c) => encode_exec(self.to, &c),
        }
    }

    /// Convert a string from the source encoding to the destination
    /// encoding; bytes that are not text in the source, characters that the
    /// destination lacks, and a result that is not UTF-8 are refused as an
    /// invalid argument.
    pub fn convert_string(&self, input: &str) -> (r: Result<String, Error>)
        requires
            self.wf(),
        ensures
            match spec_translate(self@, input.spec_bytes()) {
                Some(b) => if valid_utf8(b) {
                    r matches Ok(s) && s@ == decode_utf8(b)
                } else {
                    r matches Err(e) && e.spec_status() == status_of_code(APR_EINVAL)
                },
                None => r matches Err(e) && e.spec_status() == status_of_code(APR_EINVAL),
            },
    {
        match self.translate(input.as_bytes()) {
            None => Err(Error::from_status(status_from_code(APR_EINVAL))),
            Some(out) => match string_from_utf8(out) {
                Ok(s) => Ok(s),
                Err(_) => Err(Error::from_status(status_from_code(APR_EINVAL))),
            },
        }
    }

    /// Convert bytes from the source encoding to the destination encoding;
    /// bytes that are not text in the source and characters that the
    /// destination lacks are refused as an invalid argument.
    pub fn convert_buffer(&self, input: &[u8]) -> (r: Result<Vec<u8>, Error>)
        requires
            self.wf(),
        ensures
            match spec_translate(self@, input@) {
                Some(b) => r matches Ok(v) && v@ == b,
                None => r matches Err(e) && e.spec_status() == status_of_code(APR_EINVAL),
            },
    {
        match self.translate(input) {
            None => Err(Error::from_status(status_from_code(APR_EINVAL))),
            Some(out) => Ok(out),
        }
    }

    /// Convert a single byte: the byte it becomes, or -1 where it does not
    /// become exactly one byte.
    pub fn conv_byte(&self, inbyte: u8) -> (r: i32)
        requires
            self.wf(),
        ensures
            match spec_translate(self@, seq![inbyte]) {
                Some(b) => if b.len() == 1 {
                    r == b[0] as i32
                } else {
                    r == -1
                },
                None => r == -1,
            },
    {
        let one: [u8; 1] = [inbyte];
        assert(one@ =~= seq![inbyte]);
        match self.translate(&one) {
            Some(v) => if v.len() == 1 {
                v[0] as i32
            } else {
                -1
            },
            None => -1,
        }
    }
}

/// Convert a string between character encodings (pool-less API).
pub fn convert_string(input: &str, from_charset: &str, to_charset: &str) -> (r: Result<
    String,
    Error,
>)
    ensures
        has_nul(to_charset.spec_bytes()) || has_nul(from_charset.spec_bytes()) ==> (r matches Err(e)
            && e.spec_status() == status_of_code(APR_EINVAL)),
        !has_nul(to_charset.spec_bytes()) && !has_nul(from_charset.spec_bytes()) ==> match spec_open(
            to_charset.spec_bytes(),
            from_charset.spec_bytes(),
        ) {
            None => r matches Err(e) && e.spec_status() == status_of_code(APR_EINVAL),
            Some(x) => match spec_translate(x, input.spec_bytes()) {
                Some(b) => if valid_utf8(b) {
                    r matches Ok(s) && s@ == decode_utf8(b)
                } else {
                    r matches Err(e) && e.spec_status() == status_of_code(APR_EINVAL)
                },
                None => r matches Err(e) && e.spec_status() == status_of_code(APR_EINVAL),
            },
        },
{
    let pool = Pool::new();
    xlate_conv_string(input, from_charset, to_charset, &pool)
}

/// Convert bytes between character encodings (pool-less API).
pub fn convert_buffer(input: &[u8], from_charset: &str, to_charset: &str) -> (r: Result<
    Vec<u8>,
    Error,
>)
    ensures
        has_nul(to_charset.spec_bytes()) || has_nul(from_charset.spec_bytes()) ==> (r matches Err(e)
            && e.spec_status() == status_of_code(APR_EINVAL)),
        !has_nul(to_charset.spec_bytes()) && !has_nul(from_charset.spec_bytes()) ==> match spec_open(
            to_charset.spec_bytes(),
            from_charset.spec_bytes(),
        ) {
            None => r matches Err(e) && e.spec_status() == status_of_code(APR_EINVAL),
            Some(x) => match spec_translate(x, input@) {
                Some(b) => r matches Ok(v) && v@ == b,
                None => r matches Err(e) && e.spec_status() == status_of_code(APR_EINVAL),
            },
        },
{
    let pool = Pool::new();
    xlate_conv_buffer(input, from_charset, to_charset, &pool)
}

/// Convert a string between character encodings (pool-exposed API).
pub fn xlate_conv_string(input: &str, from_charset: &str, to_charset: &str, pool: &Pool) -> (r:
    Result<String, Error>)
    ensures
        has_nul(to_charset.spec_bytes()) || has_nul(from_charset.spec_bytes()) ==> (r matches Err(e)
            && e.spec_status() == status_of_code(APR_EINVAL)),
        !has_nul(to_charset.spec_bytes()) && !has_nul(from_charset.spec_bytes()) ==> match spec_open(
            to_charset.spec_bytes(),
            from_charset.spec_bytes(),
        ) {
            None => r matches Err(e) && e.spec_status() == status_of_code(APR_EINVAL),
            Some(x) => match spec_translate(x, input.spec_bytes()) {
                Some(b) => if valid_utf8(b) {
                    r matches Ok(s) && s@ == decode_utf8(b)
                } else {
                    r matches Err(e) && e.spec_status() == status_of_code(APR_EINVAL)
                },
                None => r matches Err(e) && e.spec_status() == status_of_code(APR_EINVAL),
            },
        },
{
    let xlate = Xlate::new(to_charset, from_charset, pool)?;
    xlate.convert_string(input)
}

/// Convert bytes between character encodings (pool-exposed API).
pub fn xlate_conv_buffer(input: &[u8], from_charset: &str, to_charset: &str, pool: &Pool) -> (r:
    Result<Vec<u8>, Error>)
    ensures
        has_nul(to_charset.spec_bytes()) || has_nul(from_charset.spec_bytes()) ==> (r matches Err(e)
            && e.spec_status() == status_of_code(APR_EINVAL)),
        !has_nul(to_charset.spec_bytes()) && !has_nul(from_charset.spec_bytes()) ==> match spec_open(
            to_charset.spec_bytes(),
            from_charset.spec_bytes(),
        ) {
            None => r matches Err(e) && e.spec_status() == status_of_code(APR_EINVAL),
            Some(x) => match spec_translate(x, input@) {
                Some(b) => r matches Ok(v) && v@ == b,
                None => r matches Err(e) && e.spec_status() == status_of_code(APR_EINVAL),
            },
        },
{
    let xlate = Xlate::new(to_charset, from_charset, pool)?;
    xlate.convert_buffer(input)
}


/// An entry of the table of character set names, as code.
fn charset_entry(k: usize) -> (r: (Vec<u8>, u8))
    requires
        k < 10,
    ensures
        r.0@ == charset_names()[k as int].0,
        r.1 == charset_names()[k as int].1,
        r.1 < 3,
{
    if k == 0 {
        let a: [u8; 5] = [117u8, 116u8, 102u8, 45u8, 56u8];
        proof {
            assert(a@ =~= charset_names()[0].0);
        }
        (bytes_from(&a, 0), 0)
    } else if k == 1 {
        let a: [u8; 4] = [117u8, 116u8, 102u8, 56u8];
        proof {
            assert(a@ =~= charset_names()[1].0);
        }
        (bytes_from(&a, 0), 0)
    } else if k == 2 {
        let a: [u8; 5] = [97u8, 115u8, 99u8, 105u8, 105u8];
        proof {
            assert(a@ =~= charset_names()[2].0);
        }
        (bytes_from(&a, 0), 1)
    } else if k == 3 {
        let a: [u8; 8] = [117u8, 115u8, 45u8, 97u8, 115u8, 99u8, 105u8, 105u8];
        proof {
            assert(a@ =~= charset_names()[3].0);
        }
        (bytes_from(&a, 0), 1)
    } else if k == 4 {
        let a: [u8; 14] = [97u8, 110u8, 115u8, 105u8, 95u8, 120u8, 51u8, 46u8, 52u8, 45u8, 49u8, 57u8, 54u8, 56u8];
        proof {
            assert(a@ =~= charset_names()[4].0);
        }
        (bytes_from(&a, 0), 1)
    } else if k == 5 {
        let a: [u8; 10] = [105u8, 115u8, 111u8, 45u8, 56u8, 56u8, 53u8, 57u8, 45u8, 49u8];
        proof {
            assert(a@ =~= charset_names()[5].0);
        }
        (bytes_from(&a, 0), 2)
    } else if k == 6 {
        let a: [u8; 9] = [105u8, 115u8, 111u8, 56u8, 56u8, 53u8, 57u8, 45u8, 49u8];
        proof {
            assert(a@ =~= charset_names()[6].0);
        }
        (bytes_from(&a, 0), 2)
    } else if k == 7 {
        let a: [u8; 10] = [105u8, 115u8, 111u8, 95u8, 56u8, 56u8, 53u8, 57u8, 45u8, 49u8];
        proof {
            assert(a@ =~= charset_names()[7].0);
        }
        (bytes_from(&a, 0), 2)
    } else if k == 8 {
        let a: [u8; 6] = [108u8, 97u8, 116u8, 105u8, 110u8, 49u8];
        proof {
            assert(a@ =~= charset_names()[8].0);
        }
        (bytes_from(&a, 0), 2)
    } else {
        let a: [u8; 2] = [108u8, 49u8];
        proof {
            assert(a@ =~= charset_names()[9].0);
        }
        (bytes_from(&a, 0), 2)
    }
}

/// Translating bytes between the character sets keeps their characters:
/// decoding what comes out in the target set gives the characters that
/// the input stands for in the source set, so each byte written into a
/// single-byte set is the code of its character. A character beyond the
/// target set (a code of 128 or more for US-ASCII, of 256 or more for
/// ISO-8859-1) refuses the translation, and so do bytes that are no text
/// in the source set.
pub proof fn law_translate_keeps_characters(to: int, from: int, b: Seq<u8>)
    requires
        0 <= to < 3,
        0 <= from < 3,
    ensures
        spec_translate(XlateModel::Convert(to, from), b) matches Some(o) ==> decode_in(to, o)
            == decode_in(from, b),
        spec_translate(XlateModel::Convert(to, from), b) matches Some(o) ==> (to != 0 ==> (
        o.len() == decode_in(from, b)->Some_0.len() && forall|i: int|
            0 <= i < o.len() ==> o[i] as u32 == #[trigger] decode_in(from, b)->Some_0[i] as u32)),
        decode_in(from, b) is None ==> spec_translate(XlateModel::Convert(to, from), b) is None,
        decode_in(from, b) matches Some(c) ==> (to == 2 && exists|i: int|
            0 <= i < c.len() && c[i] as u32 >= 256) ==> spec_translate(
            XlateModel::Convert(to, from),
            b,
        ) is None,
        decode_in(from, b) matches Some(c) ==> (to == 1 && exists|i: int|
            0 <= i < c.len() && c[i] as u32 >= 128) ==> spec_translate(
            XlateModel::Convert(to, from),
            b,
        ) is None,
{
    match decode_in(from, b) {
        None => {},
        Some(c) => {
            if to == 0 {
                vstd::utf8::encode_utf8_decode_utf8(c);
                vstd::utf8::encode_utf8_valid_utf8(c);
            } else {
                if to == 2 && exists|i: int| 0 <= i < c.len() && c[i] as u32 >= 256 {
                    let i = choose|i: int| 0 <= i < c.len() && c[i] as u32 >= 256;
                    assert(char_code(c[i]) >= cs_limit(to));
                }
                if to == 1 && exists|i: int| 0 <= i < c.len() && c[i] as u32 >= 128 {
                    let i = choose|i: int| 0 <= i < c.len() && c[i] as u32 >= 128;
                    assert(char_code(c[i]) >= cs_limit(to));
                }
                match encode_in(to, c) {
                    None => {},
                    Some(o) => {
                        assert forall|i: int| 0 <= i < c.len() implies (c[i] as u32) < cs_limit(
                            to,
                        ) by {
                            if (c[i] as u32) >= cs_limit(to) {
                                assert(char_code(c[i]) >= cs_limit(to));
                            }
                        }
                        assert forall|i: int| 0 <= i < o.len() implies o[i] as u32 == c[i] as u32
                            && (o[i] as char) == c[i] by {
                            assert((c[i] as u32) < 256);
                            vstd::utf8::char_u32_cast(c[i], c[i] as u32);
                        }
                        if to == 1 {
                            assert(!(exists|i: int| 0 <= i < o.len() && o[i] >= 128));
                        }
                        assert(decode_in(to, o)->Some_0 =~= c);
                    },
                }
            }
        },
    }
}

/// A byte of ISO-8859-1 stands for the character with its code, and so
/// does a byte of US-ASCII, which has only the codes below 128.
pub proof fn law_single_byte_decoding(b: Seq<u8>)
    ensures
        decode_in(2, b) is Some,
        decode_in(2, b)->Some_0.len() == b.len(),
        forall|i: int| 0 <= i < b.len() ==> #[trigger] decode_in(2, b)->Some_0[i] as u32 == b[i],
        decode_in(1, b) is Some <==> forall|i: int| 0 <= i < b.len() ==> #[trigger] b[i] < 128,
        decode_in(1, b) is Some ==> decode_in(1, b) == decode_in(2, b),
{
    assert forall|i: int| 0 <= i < b.len() implies #[trigger] decode_in(2, b)->Some_0[i] as u32
        == b[i] by {
        vstd::utf8::char_u32_cast(b[i] as char, b[i] as u32);
    }
}

} // verus!
