//! UUIDs: sixteen bytes, written as 36 characters in groups of 8, 4, 4, 4
//! and 12 lowercase hexadecimal digits separated by dashes.

use vstd::prelude::*;
use vstd::string::StringSliceAdditionalSpecFns;
use crate::base64::has_nul;
use crate::entropy::os_random_fill;
use crate::error::Error;
use crate::status::{status_from_code, status_of_code, Status, APR_EINVAL};
use crate::strmatch::bytes_hold_nul;
use crate::text::{str_bytes, string_push};

verus! {

/// Whether a position of the text form holds a dash.
pub open spec fn is_dash_pos(i: int) -> bool {
    i == 8 || i == 13 || i == 18 || i == 23
}

/// The byte that the digit at text position `i` belongs to.
pub open spec fn byte_at_pos(i: int) -> int {
    if i < 8 {
        i / 2
    } else if i < 13 {
        (i - 1) / 2
    } else if i < 18 {
        (i - 2) / 2
    } else if i < 23 {
        (i - 3) / 2
    } else {
        (i - 4) / 2
    }
}

/// Whether the digit at text position `i` is the high nibble of its byte.
pub open spec fn is_high_pos(i: int) -> bool {
    if i < 8 {
        i % 2 == 0
    } else if i < 13 {
        (i - 1) % 2 == 0
    } else if i < 18 {
        (i - 2) % 2 == 0
    } else if i < 23 {
        (i - 3) % 2 == 0
    } else {
        (i - 4) % 2 == 0
    }
}

/// The text position of the first digit of byte `j`.
pub open spec fn pos_of_byte(j: int) -> int {
    if j < 4 {
        2 * j
    } else if j < 6 {
        2 * j + 1
    } else if j < 8 {
        2 * j + 2
    } else if j < 10 {
        2 * j + 3
    } else {
        2 * j + 4
    }
}

/// The ASCII code of a lowercase hexadecimal digit.
pub open spec fn hex_code(v: int) -> u8 {
    if v < 10 {
        (48 + v) as u8
    } else {
        (87 + v) as u8
    }
}

/// Whether a byte is a hexadecimal digit.
pub open spec fn is_hex(c: u8) -> bool {
    (48 <= c <= 57) || (97 <= c <= 102) || (65 <= c <= 70)
}

/// The value of a hexadecimal digit.
pub open spec fn hex_value(c: u8) -> int {
    if 48 <= c <= 57 {
        c - 48
    } else if 97 <= c <= 102 {
        c - 87
    } else {
        c - 55
    }
}

/// The character at position `i` of the text form of `d`.
pub open spec fn uuid_text_at(d: Seq<u8>, i: int) -> u8 {
    if is_dash_pos(i) {
        45u8
    } else if is_high_pos(i) {
        hex_code(d[byte_at_pos(i)] as int / 16)
    } else {
        hex_code(d[byte_at_pos(i)] as int % 16)
    }
}

/// The text form of sixteen bytes, as ASCII codes.
pub open spec fn spec_uuid_text(d: Seq<u8>) -> Seq<u8> {
    Seq::new(36, |i: int| uuid_text_at(d, i))
}

/// Whether a text is a UUID as the runtime accepts it: exactly 36
/// characters, each a hexadecimal digit or a dash at a dash position.
pub open spec fn uuid_text_valid(s: Seq<u8>) -> bool {
    s.len() == 36 && forall|i: int| 0 <= i < 36 ==> is_hex(#[trigger] s[i]) || (s[i] == 45 && is_dash_pos(i))
}

/// The bytes that a valid text denotes.
pub open spec fn spec_uuid_bytes(s: Seq<u8>) -> Seq<u8> {
    Seq::new(16, |j: int| (hex_value(s[pos_of_byte(j)]) * 16 + hex_value(s[pos_of_byte(j) + 1])) as u8)
}

/// A universally unique identifier.
#[derive(Debug, Clone, Copy, PartialEq, Eq, Hash)]
pub struct Uuid {
    data: [u8; 16],
}

fn hex_digit_value(c: u8) -> (r: u8)
    requires
        is_hex(c),
    ensures
        r as int == hex_value(c),
{
    if 48 <= c && c <= 57 {
        c - 48
    } else if 97 <= c && c <= 102 {
        c - 87
    } else {
        c - 55
    }
}

fn is_hex_byte(c: u8) -> (r: bool)
    ensures
        r == is_hex(c),
{
    (48 <= c && c <= 57) || (97 <= c && c <= 102) || (65 <= c && c <= 70)
}

impl Uuid {
    /// The sixteen bytes.
    pub closed spec fn spec_bytes(&self) -> Seq<u8> {
        self.data@
    }

    /// Generate a new random UUID: random bytes from the operating system,
    /// marked as version 4 of the variant of RFC 4122.
    pub fn new() -> (r: Self)
        ensures
            r.spec_bytes().len() == 16,
            r.spec_bytes()[6] / 16 == 4,
            r.spec_bytes()[8] / 64 == 2,
    {
        let mut data: [u8; 16] = [0u8; 16];
        let _ = os_random_fill(&mut data);
        let b6 = data[6];
        let b8 = data[8];
        data[6] = b6 % 16 + 64;
        data[8] = b8 % 64 + 128;
        Uuid { data }
    }

    /// Parse a UUID from its text form. A text holding a NUL byte is an
    /// invalid argument; any other text that is not a UUID is a bad
    /// argument.
    pub fn parse(s: &str) -> (r: Result<Self, Error>)
        ensures
            has_nul(s.spec_bytes()) ==> (r matches Err(e) && e.spec_status() == status_of_code(APR_EINVAL)),
            !has_nul(s.spec_bytes()) && !uuid_text_valid(s.spec_bytes()) ==> (r matches Err(e)
                && e.spec_status() == Status::BadArgument),
            !has_nul(s.spec_bytes()) && uuid_text_valid(s.spec_bytes()) ==> (r matches Ok(u)
                && u.spec_bytes() == spec_uuid_bytes(s.spec_bytes())),
    {
        let b = str_bytes(s);
        if bytes_hold_nul(&b) {
            return Err(Error::from_status(status_from_code(APR_EINVAL)));
        }
        if b.len() != 36 {
            return Err(Error::from_status(Status::BadArgument));
        }
        let mut i: usize = 0;
        while i < 36
            invariant
                b@ == s.spec_bytes(),
                !has_nul(b@),
                b@.len() == 36,
                i <= 36,
                forall|k: int| 0 <= k < i ==> is_hex(#[trigger] b@[k]) || (b@[k] == 45 && is_dash_pos(k)),
            decreases 36 - i,
        {
            let c = b[i];
            if !is_hex_byte(c) && !(c == 45 && (i == 8 || i == 13 || i == 18 || i == 23)) {
                assert(!(is_hex(b@[i as int]) || (b@[i as int] == 45 && is_dash_pos(i as int))));
                return Err(Error::from_status(Status::BadArgument));
            }
            i = i + 1;
        }
        let mut data: [u8; 16] = [0u8; 16];
        let mut j: usize = 0;
        while j < 16
            invariant
                b@ == s.spec_bytes(),
                b@.len() == 36,
                uuid_text_valid(b@),
                j <= 16,
                data@.len() == 16,
                forall|k: int| 0 <= k < j ==> #[trigger] data@[k] == spec_uuid_bytes(b@)[k],
            decreases 16 - j,
        {
            let p: usize = if j < 4 {
                2 * j
            } else if j < 6 {
                2 * j + 1
            } else if j < 8 {
                2 * j + 2
            } else if j < 10 {
                2 * j + 3
            } else {
                2 * j + 4
            };
            proof {
                assert(p as int == pos_of_byte(j as int));
                assert(!is_dash_pos(p as int) && !is_dash_pos(p + 1));
                assert(is_hex(b@[p as int]));
                assert(is_hex(b@[p + 1]));
            }
            let hi = hex_digit_value(b[p]);
            let lo = hex_digit_value(b[p + 1]);
            data[j] = hi * 16 + lo;
            j = j + 1;
        }
        proof {
            assert(data@ =~= spec_uuid_bytes(b@));
        }
        Ok(Uuid { data })
    }

    /// Format the UUID in its text form, with lowercase digits.
    pub fn format(&self) -> (r: String)
        ensures
            r@ == spec_uuid_text(self.spec_bytes()).map_values(|c: u8| c as char),
    {
        let mut r = String::new();
        let mut i: usize = 0;
        while i < 36
            invariant
                i <= 36,
                self.data@.len() == 16,
                r@ == spec_uuid_text(self.data@).subrange(0, i as int).map_values(|c: u8| c as char),
            decreases 36 - i,
        {
            let c: u8 = if i == 8 || i == 13 || i == 18 || i == 23 {
                45
            } else {
                let (j, high): (usize, bool) = if i < 8 {
                    (i / 2, i % 2 == 0)
                } else if i < 13 {
                    ((i - 1) / 2, (i - 1) % 2 == 0)
                } else if i < 18 {
                    ((i - 2) / 2, (i - 2) % 2 == 0)
                } else if i < 23 {
                    ((i - 3) / 2, (i - 3) % 2 == 0)
                } else {
                    ((i - 4) / 2, (i - 4) % 2 == 0)
                };
                let v = if high { self.data[j] / 16 } else { self.data[j] % 16 };
                if v < 10 { 48 + v } else { 87 + v }
            };
            proof {
                assert(c == uuid_text_at(self.data@, i as int));
            }
            string_push(&mut r, c as char);
            proof {
                assert(spec_uuid_text(self.data@).subrange(0, i + 1).map_values(|c: u8| c as char) =~= spec_uuid_text(
                    self.data@,
                ).subrange(0, i as int).map_values(|c: u8| c as char).push(c as char));
            }
            i = i + 1;
        }
        proof {
            assert(spec_uuid_text(self.data@).subrange(0, 36) =~= spec_uuid_text(self.data@));
        }
        r
    }

    /// The text that displays a UUID: its text form.
    pub fn to_display_string(&self) -> (r: String)
        ensures
            r@ == spec_uuid_text(self.spec_bytes()).map_values(|c: u8| c as char),
    {
        self.format()
    }

    /// The text that shows a UUID for debugging: `Uuid(`, the text form, `)`.
    pub fn to_debug_string(&self) -> (r: String)
        ensures
            r@ == "Uuid("@ + spec_uuid_text(self.spec_bytes()).map_values(|c: u8| c as char) + ")"@,
    {
        let mut r = String::from_str("Uuid(");
        let f = self.format();
        r.append(f.as_str());
        r.append(")");
        r
    }

    /// Get the raw bytes of the UUID.
    pub fn as_bytes(&self) -> (r: &[u8; 16])
        ensures
            r@ == self.spec_bytes(),
    {
        &self.data
    }

    /// Create a UUID from raw bytes.
    pub fn from_bytes(bytes: [u8; 16]) -> (r: Self)
        ensures
            r.spec_bytes() == bytes@,
    {
        Uuid { data: bytes }
    }
}

impl Default for Uuid {
    fn default() -> (r: Self)
        ensures
            r.spec_bytes().len() == 16,
    {
        Self::new()
    }
}

impl std::str::FromStr for Uuid {
    type Err = Error;

    fn from_str(s: &str) -> Result<Self, Self::Err> {
        Self::parse(s)
    }
}

/// The text form of sixteen bytes is a valid UUID text, and parsing it gives
/// the same bytes back.
pub proof fn law_uuid_format_parse(d: Seq<u8>)
    requires
        d.len() == 16,
    ensures
        uuid_text_valid(spec_uuid_text(d)),
        !has_nul(spec_uuid_text(d)),
        spec_uuid_bytes(spec_uuid_text(d)) == d,
{
    let t = spec_uuid_text(d);
    assert forall|i: int| 0 <= i < 36 implies is_hex(#[trigger] t[i]) || (t[i] == 45 && is_dash_pos(i)) by {
        if !is_dash_pos(i) {
            assert(0 <= byte_at_pos(i) < 16);
        }
    }
    assert forall|j: int| 0 <= j < 16 implies #[trigger] spec_uuid_bytes(t)[j] == d[j] by {
        let p = pos_of_byte(j);
        assert(byte_at_pos(p) == j && is_high_pos(p) && !is_dash_pos(p));
        assert(byte_at_pos(p + 1) == j && !is_high_pos(p + 1) && !is_dash_pos(p + 1));
    }
    assert(spec_uuid_bytes(t) =~= d);
    if has_nul(t) {
        let i = choose|i: int| 0 <= i < t.len() && t[i] == 0;
        assert(is_hex(t[i]) || t[i] == 45);
    }
}

} // verus!
