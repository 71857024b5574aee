//! Parsing of dates in the formats of HTTP and of e-mail (RFC 822 and its
//! relatives), and the character masks they are recognised by. A date is
//! read as a C string: its bytes up to the first NUL.

use vstd::prelude::*;
use vstd::string::StringSliceAdditionalSpecFns;
use crate::text::{bytes_from, c_string, find_byte, first_index, lemma_first_index_bounds};
use crate::time::ctime_bytes;
use crate::time::{
    c_div, c_rem, day_name, day_number, digit_byte, explode_gmt, lemma_month_after_epoch,
    lemma_month_of_day, month_name, month_of_day, month_start, rfc822_bytes,
    time_seconds, two_digits, year_digits, Time,
};

verus! {

/// The byte at a position of a C string: NUL past its end.
pub open spec fn cbyte(s: Seq<u8>, i: int) -> u8 {
    if 0 <= i < s.len() {
        s[i]
    } else {
        0u8
    }
}

/// An uppercase ASCII letter.
pub open spec fn is_upper(b: u8) -> bool {
    65 <= b <= 90
}

/// A lowercase ASCII letter.
pub open spec fn is_lower(b: u8) -> bool {
    97 <= b <= 122
}

/// A decimal digit.
pub open spec fn is_digit(b: u8) -> bool {
    48 <= b <= 57
}

/// A hexadecimal digit.
pub open spec fn is_xdigit(b: u8) -> bool {
    is_digit(b) || (65 <= b <= 70) || (97 <= b <= 102)
}

/// White space, as C's `isspace` has it.
pub open spec fn is_space(b: u8) -> bool {
    b == 32 || (9 <= b <= 13)
}

/// Whether a byte fits a mask character: `@` an uppercase letter, `$` a
/// lowercase letter, `#` a digit, `&` a hexadecimal digit, `~` a digit or a
/// space, any other character itself.
pub open spec fn fits_mask(c: u8, x: u8) -> bool {
    if c == 64 {
        is_upper(x)
    } else if c == 36 {
        is_lower(x)
    } else if c == 35 {
        is_digit(x)
    } else if c == 38 {
        is_xdigit(x)
    } else if c == 126 {
        x == 32 || is_digit(x)
    } else {
        c == x
    }
}

/// Whether the text matches the mask from position `i` on: the mask's end
/// needs the text's end, `*` takes whatever is left, and a mask longer
/// than 256 characters never matches.
pub open spec fn mask_from(d: Seq<u8>, m: Seq<u8>, i: int) -> bool
    decreases 256 - i,
{
    if i >= 256 {
        false
    } else if cbyte(m, i) == 0 {
        cbyte(d, i) == 0
    } else if cbyte(m, i) == 42 {
        true
    } else if fits_mask(cbyte(m, i), cbyte(d, i)) {
        mask_from(d, m, i + 1)
    } else {
        false
    }
}

/// Whether a C string matches a mask.
pub open spec fn spec_checkmask(d: Seq<u8>, m: Seq<u8>) -> bool {
    mask_from(d, m, 0)
}

/// The masks of the date formats, in the order they are tried.
pub open spec fn format_mask(k: int) -> Seq<u8> {
    if k == 0 {
        seq![35u8, 35u8, 32u8, 64u8, 36u8, 36u8, 32u8, 35u8, 35u8, 35u8, 35u8, 32u8, 35u8, 35u8, 58u8, 35u8, 35u8, 58u8, 35u8, 35u8, 32u8, 42u8]
    } else if k == 1 {
        seq![35u8, 35u8, 45u8, 64u8, 36u8, 36u8, 45u8, 35u8, 35u8, 32u8, 35u8, 35u8, 58u8, 35u8, 35u8, 58u8, 35u8, 35u8, 32u8, 42u8]
    } else if k == 2 {
        seq![64u8, 36u8, 36u8, 32u8, 126u8, 35u8, 32u8, 35u8, 35u8, 58u8, 35u8, 35u8, 58u8, 35u8, 35u8, 32u8, 35u8, 35u8, 35u8, 35u8, 42u8]
    } else if k == 3 {
        seq![35u8, 32u8, 64u8, 36u8, 36u8, 32u8, 35u8, 35u8, 35u8, 35u8, 32u8, 35u8, 35u8, 58u8, 35u8, 35u8, 58u8, 35u8, 35u8, 32u8, 42u8]
    } else if k == 4 {
        seq![35u8, 35u8, 32u8, 64u8, 36u8, 36u8, 32u8, 35u8, 35u8, 32u8, 35u8, 35u8, 58u8, 35u8, 35u8, 58u8, 35u8, 35u8, 32u8, 42u8]
    } else if k == 5 {
        seq![32u8, 35u8, 32u8, 64u8, 36u8, 36u8, 32u8, 35u8, 35u8, 32u8, 35u8, 35u8, 58u8, 35u8, 35u8, 58u8, 35u8, 35u8, 32u8, 42u8]
    } else if k == 6 {
        seq![35u8, 32u8, 64u8, 36u8, 36u8, 32u8, 35u8, 35u8, 32u8, 35u8, 35u8, 58u8, 35u8, 35u8, 58u8, 35u8, 35u8, 32u8, 42u8]
    } else if k == 7 {
        seq![35u8, 35u8, 32u8, 64u8, 36u8, 36u8, 32u8, 35u8, 35u8, 32u8, 35u8, 35u8, 58u8, 35u8, 35u8, 32u8, 42u8]
    } else if k == 8 {
        seq![35u8, 32u8, 64u8, 36u8, 36u8, 32u8, 35u8, 35u8, 32u8, 35u8, 35u8, 58u8, 35u8, 35u8, 32u8, 42u8]
    } else if k == 9 {
        seq![35u8, 35u8, 32u8, 64u8, 36u8, 36u8, 32u8, 35u8, 35u8, 32u8, 35u8, 58u8, 35u8, 35u8, 58u8, 35u8, 35u8, 32u8, 42u8]
    } else if k == 10 {
        seq![35u8, 32u8, 64u8, 36u8, 36u8, 32u8, 35u8, 35u8, 32u8, 35u8, 58u8, 35u8, 35u8, 58u8, 35u8, 35u8, 32u8, 42u8]
    } else if k == 11 {
        seq![32u8, 35u8, 32u8, 64u8, 36u8, 36u8, 32u8, 35u8, 35u8, 35u8, 35u8, 32u8, 35u8, 35u8, 58u8, 35u8, 35u8, 58u8, 35u8, 35u8, 32u8, 42u8]
    } else {
        seq![35u8, 35u8, 45u8, 64u8, 36u8, 36u8, 45u8, 35u8, 35u8, 35u8, 35u8, 32u8, 35u8, 35u8, 58u8, 35u8, 35u8, 58u8, 35u8, 35u8, 32u8, 42u8]
    }
}

/// Whether a format has a year of four digits.
pub open spec fn year_four(k: int) -> bool {
    if k == 0 {
        true
    } else if k == 1 {
        false
    } else if k == 2 {
        true
    } else if k == 3 {
        true
    } else if k == 4 {
        false
    } else if k == 5 {
        false
    } else if k == 6 {
        false
    } else if k == 7 {
        false
    } else if k == 8 {
        false
    } else if k == 9 {
        false
    } else if k == 10 {
        false
    } else if k == 11 {
        true
    } else {
        true
    }
}

/// Where a format's year starts.
pub open spec fn year_at(k: int) -> int {
    if k == 0 {
        7
    } else if k == 1 {
        7
    } else if k == 2 {
        16
    } else if k == 3 {
        6
    } else if k == 4 {
        7
    } else if k == 5 {
        7
    } else if k == 6 {
        6
    } else if k == 7 {
        7
    } else if k == 8 {
        6
    } else if k == 9 {
        7
    } else if k == 10 {
        6
    } else if k == 11 {
        7
    } else {
        7
    }
}

/// How a format writes the day: two digits (0), one digit (1), or as `ctime` does (2).
pub open spec fn mday_kind(k: int) -> int {
    if k == 0 {
        0
    } else if k == 1 {
        0
    } else if k == 2 {
        2
    } else if k == 3 {
        1
    } else if k == 4 {
        0
    } else if k == 5 {
        1
    } else if k == 6 {
        1
    } else if k == 7 {
        0
    } else if k == 8 {
        1
    } else if k == 9 {
        0
    } else if k == 10 {
        1
    } else if k == 11 {
        1
    } else {
        0
    }
}

/// Where a format's day starts.
pub open spec fn mday_at(k: int) -> int {
    if k == 0 {
        0
    } else if k == 1 {
        0
    } else if k == 2 {
        4
    } else if k == 3 {
        0
    } else if k == 4 {
        0
    } else if k == 5 {
        1
    } else if k == 6 {
        0
    } else if k == 7 {
        0
    } else if k == 8 {
        0
    } else if k == 9 {
        0
    } else if k == 10 {
        0
    } else if k == 11 {
        1
    } else {
        0
    }
}

/// Where a format's month name starts.
pub open spec fn mon_at(k: int) -> int {
    if k == 0 {
        3
    } else if k == 1 {
        3
    } else if k == 2 {
        0
    } else if k == 3 {
        2
    } else if k == 4 {
        3
    } else if k == 5 {
        3
    } else if k == 6 {
        2
    } else if k == 7 {
        3
    } else if k == 8 {
        2
    } else if k == 9 {
        3
    } else if k == 10 {
        2
    } else if k == 11 {
        3
    } else {
        3
    }
}

/// How a format writes the time: with seconds (0), without (1), or with a one-digit hour (2).
pub open spec fn time_kind(k: int) -> int {
    if k == 0 {
        0
    } else if k == 1 {
        0
    } else if k == 2 {
        0
    } else if k == 3 {
        0
    } else if k == 4 {
        0
    } else if k == 5 {
        0
    } else if k == 6 {
        0
    } else if k == 7 {
        1
    } else if k == 8 {
        1
    } else if k == 9 {
        2
    } else if k == 10 {
        2
    } else if k == 11 {
        0
    } else {
        0
    }
}

/// Where a format's time starts.
pub open spec fn time_at(k: int) -> int {
    if k == 0 {
        12
    } else if k == 1 {
        10
    } else if k == 2 {
        7
    } else if k == 3 {
        11
    } else if k == 4 {
        10
    } else if k == 5 {
        10
    } else if k == 6 {
        9
    } else if k == 7 {
        10
    } else if k == 8 {
        9
    } else if k == 9 {
        9
    } else if k == 10 {
        8
    } else if k == 11 {
        12
    } else {
        12
    }
}

/// Where a format's zone starts, or -1 for a format without one.
pub open spec fn zone_at(k: int) -> int {
    if k == 0 {
        21
    } else if k == 1 {
        19
    } else if k == 2 {
        -1
    } else if k == 3 {
        20
    } else if k == 4 {
        19
    } else if k == 5 {
        19
    } else if k == 6 {
        18
    } else if k == 7 {
        -1
    } else if k == 8 {
        -1
    } else if k == 9 {
        18
    } else if k == 10 {
        17
    } else if k == 11 {
        21
    } else {
        21
    }
}

/// The value of the digit at a position.
pub open spec fn digit_at(d: Seq<u8>, i: int) -> int {
    cbyte(d, i) - 48
}

/// The value of the two digits at a position.
pub open spec fn two_at(d: Seq<u8>, i: int) -> int {
    digit_at(d, i) * 10 + digit_at(d, i + 1)
}

/// The fields that a date format gives: the year from 1900, the day of the
/// month, the time of day, and where the month's name and the zone stand.
pub struct DateFields {
    pub year: int,
    pub mday: int,
    pub hour: int,
    pub min: int,
    pub sec: int,
}

/// The fields of a date in format `k`; nothing for a four-digit year
/// before 1900.
pub open spec fn format_fields(d: Seq<u8>, k: int) -> Option<DateFields> {
    let y = two_at(d, year_at(k));
    if year_four(k) && y < 19 {
        None
    } else {
        let year = if year_four(k) {
            (y - 19) * 100 + two_at(d, year_at(k) + 2)
        } else if y < 70 {
            y + 100
        } else {
            y
        };
        let mday = if mday_kind(k) == 0 {
            two_at(d, mday_at(k))
        } else if mday_kind(k) == 1 {
            digit_at(d, mday_at(k))
        } else {
            (if cbyte(d, 4) == 32 {
                0
            } else {
                digit_at(d, 4) * 10
            }) + digit_at(d, 5)
        };
        let t = time_at(k);
        let hour = if time_kind(k) == 2 {
            digit_at(d, t + 1)
        } else {
            two_at(d, t)
        };
        let sec = if time_kind(k) == 1 {
            0
        } else {
            two_at(d, t + 6)
        };
        Some(DateFields { year, mday, hour, min: two_at(d, t + 3), sec })
    }
}

/// The first of the formats `k` up to `n` whose mask the date matches.
pub open spec fn first_format(d: Seq<u8>, k: int, n: int) -> int
    decreases n - k,
{
    if k >= n || spec_checkmask(d, format_mask(k)) {
        k
    } else {
        first_format(d, k + 1, n)
    }
}

/// The index of a month by its abbreviated name; 12 for none.
pub open spec fn month_index(a: u8, b: u8, c: u8) -> int {
    month_from(seq![a, b, c], 0)
}

/// The first month from `m` on with the given name; 12 for none.
pub open spec fn month_from(name: Seq<u8>, m: int) -> int
    decreases 12 - m,
{
    if m >= 12 || month_name(m) == name {
        m
    } else {
        month_from(name, m + 1)
    }
}

/// The leading decimal digits of a text.
pub open spec fn leading_digits(s: Seq<u8>) -> Seq<u8>
    decreases s.len(),
{
    if s.len() > 0 && is_digit(s[0]) {
        seq![s[0]] + leading_digits(s.skip(1))
    } else {
        seq![]
    }
}

/// The value of a run of decimal digits.
pub open spec fn decimal_value(s: Seq<u8>) -> int
    decreases s.len(),
{
    if s.len() == 0 {
        0
    } else {
        decimal_value(s.drop_last()) * 10 + (s.last() - 48)
    }
}

/// The index of the first byte at or after `i` that is not white space.
pub open spec fn skip_spaces(s: Seq<u8>, i: int) -> int
    decreases s.len() - i,
{
    if 0 <= i < s.len() && is_space(s[i]) {
        skip_spaces(s, i + 1)
    } else {
        i
    }
}

/// What C's `atoi` makes of a text: white space, a sign, digits.
pub open spec fn atoi(s: Seq<u8>) -> int {
    let t = s.skip(skip_spaces(s, 0));
    if cbyte(t, 0) == 45 {
        -decimal_value(leading_digits(t.skip(1)))
    } else if cbyte(t, 0) == 43 {
        decimal_value(leading_digits(t.skip(1)))
    } else {
        decimal_value(leading_digits(t))
    }
}

/// The seconds east of GMT that a zone `+hhmm` or `-hhmm` stands for;
/// anything else is GMT.
pub open spec fn zone_offset(d: Seq<u8>, at: int) -> int {
    if at < 0 {
        0
    } else {
        let v = atoi(d.skip(at + 1));
        let off = c_div(v, 100) * 3600 + c_rem(v, 100) * 60;
        if cbyte(d, at) == 45 {
            -off
        } else if cbyte(d, at) == 43 {
            off
        } else {
            0
        }
    }
}

/// Whether a zone's offset is within the range of the C integers that hold
/// it.
pub open spec fn zone_fits(d: Seq<u8>, at: int) -> bool {
    at < 0 || !(cbyte(d, at) == 45 || cbyte(d, at) == 43) || {
        let v = atoi(d.skip(at + 1));
        &&& -0x8000_0000 <= v <= 0x7fff_ffff
        &&& -0x7fff_ffff <= c_div(v, 100) * 3600 <= 0x7fff_ffff
        &&& -0x7fff_ffff <= c_div(v, 100) * 3600 + c_rem(v, 100) * 60 <= 0x7fff_ffff
    }
}

/// Whether a day exists: a day of a month of the right length, with
/// February's 29th only in leap years.
pub open spec fn valid_day(year: int, mon: int, mday: int) -> bool {
    &&& 0 < mday <= 31
    &&& !(mday == 31 && (mon == 3 || mon == 5 || mon == 8 || mon == 10))
    &&& !(mon == 1 && (mday > 29 || (mday == 29 && (year % 4 != 0 || (c_rem(year, 100) == 0
        && c_rem(year, 400) != 100)))))
}

/// The time in microseconds of a date in format `k`, if it is one: the
/// fields are checked, the zone's offset (when `zone` holds) is taken off,
/// and a date before 1970 in GMT is refused.
pub open spec fn format_value(d: Seq<u8>, k: int, zone: bool) -> Option<int> {
    match format_fields(d, k) {
        None => None,
        Some(f) => {
            let mon = month_index(
                cbyte(d, mon_at(k)),
                cbyte(d, mon_at(k) + 1),
                cbyte(d, mon_at(k) + 2),
            );
            if !valid_day(f.year, mon, f.mday) || f.hour > 23 || f.min > 59 || f.sec > 61 || mon
                == 12 {
                None
            } else {
                let secs = day_number(f.year, mon, f.mday) * 86400 + f.hour * 3600 + f.min * 60
                    + f.sec;
                if secs < 0 {
                    None
                } else {
                    Some(secs * 1_000_000 - (if zone {
                        zone_offset(d, zone_at(k))
                    } else {
                        0
                    }) * 1_000_000)
                }
            }
        },
    }
}

/// The start of the date after the weekday: past leading white space and
/// the first space after it.
pub open spec fn after_weekday(s: Seq<u8>) -> Option<int> {
    let i = skip_spaces(s, 0);
    if i >= s.len() {
        None
    } else {
        let j = i + first_index(s.skip(i), 32);
        if j >= s.len() {
            None
        } else {
            Some(j + 1)
        }
    }
}

/// The time in microseconds that `apr_date_parse_http` gives for a C
/// string: one of the first four formats after the weekday, with no zone.
pub open spec fn spec_parse_http(s: Seq<u8>) -> Option<int> {
    match after_weekday(s) {
        None => None,
        Some(at) => {
            let d = s.skip(at);
            let k = first_format(d, 0, 4);
            if k >= 4 {
                None
            } else {
                format_value(d, k, false)
            }
        },
    }
}

/// Where the date starts for `apr_date_parse_rfc`: at once when it starts
/// with a digit, else after the weekday.
pub open spec fn rfc_start(s: Seq<u8>) -> Option<int> {
    if is_digit(cbyte(s, 0)) {
        Some(0)
    } else {
        after_weekday(s)
    }
}

/// The time in microseconds that `apr_date_parse_rfc` gives for a C
/// string: any of the thirteen formats, with the zone's offset.
pub open spec fn spec_parse_rfc(s: Seq<u8>) -> Option<int> {
    match rfc_start(s) {
        None => None,
        Some(at) => {
            let d = s.skip(at);
            let k = first_format(d, 0, 13);
            if k >= 13 {
                None
            } else {
                format_value(d, k, true)
            }
        },
    }
}

/// What a parse hands back: no time where the date is bad, and none either
/// for a date that falls on the epoch itself, whose time is the value that
/// stands for a bad date.
pub open spec fn parsed_time(v: Option<int>) -> Option<int> {
    match v {
        Some(t) => if t == 0 {
            None
        } else {
            Some(t)
        },
        None => None,
    }
}

/// Whether the zone of an e-mail date is in range.
pub open spec fn rfc_zone_fits(s: Seq<u8>) -> bool {
    match rfc_start(s) {
        None => true,
        Some(at) => {
            let d = s.skip(at);
            let k = first_format(d, 0, 13);
            k >= 13 || zone_fits(d, zone_at(k))
        },
    }
}


// ---------------------------------------------------------------------------
// Code
// ---------------------------------------------------------------------------

/// The byte at a position of a C string, as code.
pub fn cbyte_exec(s: &[u8], i: usize) -> (r: u8)
    ensures
        r == cbyte(s@, i as int),
{
    if i < s.len() {
        s[i]
    } else {
        0u8
    }
}

/// Whether a byte fits a mask character, as code.
fn fits_mask_exec(c: u8, x: u8) -> (r: bool)
    ensures
        r == fits_mask(c, x),
{
    if c == 64 {
        65 <= x && x <= 90
    } else if c == 36 {
        97 <= x && x <= 122
    } else if c == 35 {
        48 <= x && x <= 57
    } else if c == 38 {
        (48 <= x && x <= 57) || (65 <= x && x <= 70) || (97 <= x && x <= 102)
    } else if c == 126 {
        x == 32 || (48 <= x && x <= 57)
    } else {
        c == x
    }
}

/// Whether a C string (given without its NUL) matches a mask.
fn mask_matches(d: &[u8], m: &[u8]) -> (r: bool)
    ensures
        r == spec_checkmask(d@, m@),
{
    let mut i: usize = 0;
    while i < 256
        invariant
            i <= 256,
            mask_from(d@, m@, 0) == mask_from(d@, m@, i as int),
        decreases 256 - i,
    {
        let c = cbyte_exec(m, i);
        let x = cbyte_exec(d, i);
        if c == 0 {
            return x == 0;
        }
        if c == 42 {
            return true;
        }
        if !fits_mask_exec(c, x) {
            return false;
        }
        i = i + 1;
    }
    false
}

/// The bytes of a string up to its first NUL.
fn c_string_of(s: &str) -> (r: Vec<u8>)
    ensures
        r@ == c_string(s.spec_bytes()),
{
    let b = s.as_bytes();
    let n = find_byte(b, 0u8);
    proof {
        lemma_first_index_bounds(b@, 0u8);
    }
    crate::text::bytes_prefix(b, n)
}

/// Compare a string to a mask: `@` an uppercase letter, `$` a lowercase
/// letter, `#` a digit, `&` a hexadecimal digit, `~` a digit or a space,
/// `*` whatever is left, any other character itself. Both are read up to a
/// NUL.
pub fn checkmask(data: &str, mask: &str) -> (r: bool)
    ensures
        r == spec_checkmask(c_string(data.spec_bytes()), c_string(mask.spec_bytes())),
{
    let d = c_string_of(data);
    let m = c_string_of(mask);
    mask_matches(d.as_slice(), m.as_slice())
}

/// The mask of a date format, as code.
fn format_mask_exec(k: usize) -> (r: Vec<u8>)
    requires
        k < 13,
    ensures
        r@ == format_mask(k as int),
{
    if k == 0 {
        let a: [u8; 22] = [35u8, 35u8, 32u8, 64u8, 36u8, 36u8, 32u8, 35u8, 35u8, 35u8, 35u8, 32u8, 35u8, 35u8, 58u8, 35u8, 35u8, 58u8, 35u8, 35u8, 32u8, 42u8];
        proof {
            assert(a@ =~= format_mask(0));
        }
        bytes_from(&a, 0)
    } else if k == 1 {
        let a: [u8; 20] = [35u8, 35u8, 45u8, 64u8, 36u8, 36u8, 45u8, 35u8, 35u8, 32u8, 35u8, 35u8, 58u8, 35u8, 35u8, 58u8, 35u8, 35u8, 32u8, 42u8];
        proof {
            assert(a@ =~= format_mask(1));
        }
        bytes_from(&a, 0)
    } else if k == 2 {
        let a: [u8; 21] = [64u8, 36u8, 36u8, 32u8, 126u8, 35u8, 32u8, 35u8, 35u8, 58u8, 35u8, 35u8, 58u8, 35u8, 35u8, 32u8, 35u8, 35u8, 35u8, 35u8, 42u8];
        proof {
            assert(a@ =~= format_mask(2));
        }
        bytes_from(&a, 0)
    } else if k == 3 {
        let a: [u8; 21] = [35u8, 32u8, 64u8, 36u8, 36u8, 32u8, 35u8, 35u8, 35u8, 35u8, 32u8, 35u8, 35u8, 58u8, 35u8, 35u8, 58u8, 35u8, 35u8, 32u8, 42u8];
        proof {
            assert(a@ =~= format_mask(3));
        }
        bytes_from(&a, 0)
    } else if k == 4 {
        let a: [u8; 20] = [35u8, 35u8, 32u8, 64u8, 36u8, 36u8, 32u8, 35u8, 35u8, 32u8, 35u8, 35u8, 58u8, 35u8, 35u8, 58u8, 35u8, 35u8, 32u8, 42u8];
        proof {
            assert(a@ =~= format_mask(4));
        }
        bytes_from(&a, 0)
    } else if k == 5 {
        let a: [u8; 20] = [32u8, 35u8, 32u8, 64u8, 36u8, 36u8, 32u8, 35u8, 35u8, 32u8, 35u8, 35u8, 58u8, 35u8, 35u8, 58u8, 35u8, 35u8, 32u8, 42u8];
        proof {
            assert(a@ =~= format_mask(5));
        }
        bytes_from(&a, 0)
    } else if k == 6 {
        let a: [u8; 19] = [35u8, 32u8, 64u8, 36u8, 36u8, 32u8, 35u8, 35u8, 32u8, 35u8, 35u8, 58u8, 35u8, 35u8, 58u8, 35u8, 35u8, 32u8, 42u8];
        proof {
            assert(a@ =~= format_mask(6));
        }
        bytes_from(&a, 0)
    } else if k == 7 {
        let a: [u8; 17] = [35u8, 35u8, 32u8, 64u8, 36u8, 36u8, 32u8, 35u8, 35u8, 32u8, 35u8, 35u8, 58u8, 35u8, 35u8, 32u8, 42u8];
        proof {
            assert(a@ =~= format_mask(7));
        }
        bytes_from(&a, 0)
    } else if k == 8 {
        let a: [u8; 16] = [35u8, 32u8, 64u8, 36u8, 36u8, 32u8, 35u8, 35u8, 32u8, 35u8, 35u8, 58u8, 35u8, 35u8, 32u8, 42u8];
        proof {
            assert(a@ =~= format_mask(8));
        }
        bytes_from(&a, 0)
    } else if k == 9 {
        let a: [u8; 19] = [35u8, 35u8, 32u8, 64u8, 36u8, 36u8, 32u8, 35u8, 35u8, 32u8, 35u8, 58u8, 35u8, 35u8, 58u8, 35u8, 35u8, 32u8, 42u8];
        proof {
            assert(a@ =~= format_mask(9));
        }
        bytes_from(&a, 0)
    } else if k == 10 {
        let a: [u8; 18] = [35u8, 32u8, 64u8, 36u8, 36u8, 32u8, 35u8, 35u8, 32u8, 35u8, 58u8, 35u8, 35u8, 58u8, 35u8, 35u8, 32u8, 42u8];
        proof {
            assert(a@ =~= format_mask(10));
        }
        bytes_from(&a, 0)
    } else if k == 11 {
        let a: [u8; 22] = [32u8, 35u8, 32u8, 64u8, 36u8, 36u8, 32u8, 35u8, 35u8, 35u8, 35u8, 32u8, 35u8, 35u8, 58u8, 35u8, 35u8, 58u8, 35u8, 35u8, 32u8, 42u8];
        proof {
            assert(a@ =~= format_mask(11));
        }
        bytes_from(&a, 0)
    } else {
        let a: [u8; 22] = [35u8, 35u8, 45u8, 64u8, 36u8, 36u8, 45u8, 35u8, 35u8, 35u8, 35u8, 32u8, 35u8, 35u8, 58u8, 35u8, 35u8, 58u8, 35u8, 35u8, 32u8, 42u8];
        proof {
            assert(a@ =~= format_mask(12));
        }
        bytes_from(&a, 0)
    }
}

fn year_four_exec(k: usize) -> (r: bool)
    requires
        k < 13,
    ensures
        r == year_four(k as int),
{
    if k == 0 {
        true
    } else if k == 1 {
        false
    } else if k == 2 {
        true
    } else if k == 3 {
        true
    } else if k == 4 {
        false
    } else if k == 5 {
        false
    } else if k == 6 {
        false
    } else if k == 7 {
        false
    } else if k == 8 {
        false
    } else if k == 9 {
        false
    } else if k == 10 {
        false
    } else if k == 11 {
        true
    } else {
        true
    }
}

fn year_at_exec(k: usize) -> (r: i64)
    requires
        k < 13,
    ensures
        r == year_at(k as int),
{
    if k == 0 {
        7
    } else if k == 1 {
        7
    } else if k == 2 {
        16
    } else if k == 3 {
        6
    } else if k == 4 {
        7
    } else if k == 5 {
        7
    } else if k == 6 {
        6
    } else if k == 7 {
        7
    } else if k == 8 {
        6
    } else if k == 9 {
        7
    } else if k == 10 {
        6
    } else if k == 11 {
        7
    } else {
        7
    }
}

fn mday_kind_exec(k: usize) -> (r: i64)
    requires
        k < 13,
    ensures
        r == mday_kind(k as int),
{
    if k == 0 {
        0
    } else if k == 1 {
        0
    } else if k == 2 {
        2
    } else if k == 3 {
        1
    } else if k == 4 {
        0
    } else if k == 5 {
        1
    } else if k == 6 {
        1
    } else if k == 7 {
        0
    } else if k == 8 {
        1
    } else if k == 9 {
        0
    } else if k == 10 {
        1
    } else if k == 11 {
        1
    } else {
        0
    }
}

fn mday_at_exec(k: usize) -> (r: i64)
    requires
        k < 13,
    ensures
        r == mday_at(k as int),
{
    if k == 0 {
        0
    } else if k == 1 {
        0
    } else if k == 2 {
        4
    } else if k == 3 {
        0
    } else if k == 4 {
        0
    } else if k == 5 {
        1
    } else if k == 6 {
        0
    } else if k == 7 {
        0
    } else if k == 8 {
        0
    } else if k == 9 {
        0
    } else if k == 10 {
        0
    } else if k == 11 {
        1
    } else {
        0
    }
}

fn mon_at_exec(k: usize) -> (r: i64)
    requires
        k < 13,
    ensures
        r == mon_at(k as int),
{
    if k == 0 {
        3
    } else if k == 1 {
        3
    } else if k == 2 {
        0
    } else if k == 3 {
        2
    } else if k == 4 {
        3
    } else if k == 5 {
        3
    } else if k == 6 {
        2
    } else if k == 7 {
        3
    } else if k == 8 {
        2
    } else if k == 9 {
        3
    } else if k == 10 {
        2
    } else if k == 11 {
        3
    } else {
        3
    }
}

fn time_kind_exec(k: usize) -> (r: i64)
    requires
        k < 13,
    ensures
        r == time_kind(k as int),
{
    if k == 0 {
        0
    } else if k == 1 {
        0
    } else if k == 2 {
        0
    } else if k == 3 {
        0
    } else if k == 4 {
        0
    } else if k == 5 {
        0
    } else if k == 6 {
        0
    } else if k == 7 {
        1
    } else if k == 8 {
        1
    } else if k == 9 {
        2
    } else if k == 10 {
        2
    } else if k == 11 {
        0
    } else {
        0
    }
}

fn time_at_exec(k: usize) -> (r: i64)
    requires
        k < 13,
    ensures
        r == time_at(k as int),
{
    if k == 0 {
        12
    } else if k == 1 {
        10
    } else if k == 2 {
        7
    } else if k == 3 {
        11
    } else if k == 4 {
        10
    } else if k == 5 {
        10
    } else if k == 6 {
        9
    } else if k == 7 {
        10
    } else if k == 8 {
        9
    } else if k == 9 {
        9
    } else if k == 10 {
        8
    } else if k == 11 {
        12
    } else {
        12
    }
}

fn zone_at_exec(k: usize) -> (r: i64)
    requires
        k < 13,
    ensures
        r == zone_at(k as int),
{
    if k == 0 {
        21
    } else if k == 1 {
        19
    } else if k == 2 {
        -1
    } else if k == 3 {
        20
    } else if k == 4 {
        19
    } else if k == 5 {
        19
    } else if k == 6 {
        18
    } else if k == 7 {
        -1
    } else if k == 8 {
        -1
    } else if k == 9 {
        18
    } else if k == 10 {
        17
    } else if k == 11 {
        21
    } else {
        21
    }
}


/// The value of the digit at a position, as code.
fn digit_at_exec(d: &[u8], i: usize) -> (r: i64)
    ensures
        r == digit_at(d@, i as int),
        -48 <= r < 208,
{
    cbyte_exec(d, i) as i64 - 48
}

/// The value of the two digits at a position, as code.
fn two_at_exec(d: &[u8], i: usize) -> (r: i64)
    requires
        i < 1000,
    ensures
        r == two_at(d@, i as int),
        -600 <= r < 2300,
{
    digit_at_exec(d, i) * 10 + digit_at_exec(d, i + 1)
}

/// The fields of a date, as code.
struct FieldsExec {
    year: i64,
    mday: i64,
    hour: i64,
    min: i64,
    sec: i64,
}

impl FieldsExec {
    spec fn model(&self) -> DateFields {
        DateFields {
            year: self.year as int,
            mday: self.mday as int,
            hour: self.hour as int,
            min: self.min as int,
            sec: self.sec as int,
        }
    }
}

/// The fields of a date in format `k`, as code.
fn format_fields_exec(d: &[u8], k: usize) -> (r: Option<FieldsExec>)
    requires
        k < 13,
    ensures
        match format_fields(d@, k as int) {
            None => r is None,
            Some(f) => r matches Some(g) && g.model() == f,
        },
        r matches Some(g) ==> -999_999 <= g.year <= 1_000_000 && -10_000 <= g.mday <= 10_000
            && -10_000 <= g.hour <= 10_000 && -10_000 <= g.min <= 10_000 && -10_000 <= g.sec
            <= 10_000,
{
    let ya = year_at_exec(k) as usize;
    let y = two_at_exec(d, ya);
    let four = year_four_exec(k);
    if four && y < 19 {
        return None;
    }
    let year = if four {
        (y - 19) * 100 + two_at_exec(d, ya + 2)
    } else if y < 70 {
        y + 100
    } else {
        y
    };
    let mk = mday_kind_exec(k);
    let ma = mday_at_exec(k) as usize;
    let mday = if mk == 0 {
        two_at_exec(d, ma)
    } else if mk == 1 {
        digit_at_exec(d, ma)
    } else {
        (if cbyte_exec(d, 4) == 32 {
            0
        } else {
            digit_at_exec(d, 4) * 10
        }) + digit_at_exec(d, 5)
    };
    let t = time_at_exec(k) as usize;
    let tk = time_kind_exec(k);
    let hour = if tk == 2 {
        digit_at_exec(d, t + 1)
    } else {
        two_at_exec(d, t)
    };
    let sec = if tk == 1 {
        0
    } else {
        two_at_exec(d, t + 6)
    };
    Some(FieldsExec { year, mday, hour, min: two_at_exec(d, t + 3), sec })
}

/// The first of the formats from `0` up to `n` whose mask the date matches.
fn first_format_exec(d: &[u8], n: usize) -> (r: usize)
    requires
        n <= 13,
    ensures
        r == first_format(d@, 0, n as int),
        r <= n,
{
    let mut k: usize = 0;
    while k < n
        invariant
            k <= n <= 13,
            first_format(d@, 0, n as int) == first_format(d@, k as int, n as int),
        decreases n - k,
    {
        let m = format_mask_exec(k);
        if mask_matches(d, m.as_slice()) {
            return k;
        }
        k = k + 1;
    }
    k
}

/// The index of a month by its abbreviated name, as code; 12 for none.
fn month_index_exec(a: u8, b: u8, c: u8) -> (r: i64)
    ensures
        r == month_index(a, b, c),
        0 <= r <= 12,
{
    let mut m: i64 = 0;
    while m < 12
        invariant
            0 <= m <= 12,
            month_from(seq![a, b, c], 0) == month_from(seq![a, b, c], m as int),
        decreases 12 - m,
    {
        let mut name: Vec<u8> = Vec::new();
        crate::time::push_month_name(&mut name, m);
        assert(name@ == month_name(m as int));
        if name[0] == a && name[1] == b && name[2] == c {
            assert(name@ =~= seq![a, b, c]);
            return m;
        }
        assert(month_name(m as int) != seq![a, b, c]) by {
            if month_name(m as int) == seq![a, b, c] {
                assert(name@[0] == a && name@[1] == b && name@[2] == c);
            }
        }
        m = m + 1;
    }
    m
}

/// Whether a day exists, as code.
fn valid_day_exec(year: i64, mon: i64, mday: i64) -> (r: bool)
    requires
        -1_000_000 <= year <= 1_000_000,
    ensures
        r == valid_day(year as int, mon as int, mday as int),
{
    if mday <= 0 || mday > 31 {
        return false;
    }
    if mday == 31 && (mon == 3 || mon == 5 || mon == 8 || mon == 10) {
        return false;
    }
    let a: i64 = if year >= 0 {
        year
    } else {
        -year
    };
    let m4: i64 = if year >= 0 || a % 4 == 0 {
        a % 4
    } else {
        4 - a % 4
    };
    let r100: i64 = if year >= 0 {
        a % 100
    } else {
        -(a % 100)
    };
    let r400: i64 = if year >= 0 {
        a % 400
    } else {
        -(a % 400)
    };
    assert(m4 == (year as int) % 4);
    assert(r100 == c_rem(year as int, 100));
    assert(r400 == c_rem(year as int, 400));
    if mon == 1 && (mday > 29 || (mday == 29 && (m4 != 0 || (r100 == 0 && r400 != 100)))) {
        return false;
    }
    true
}

/// The seconds of a date and time from the epoch, as code.
fn date_seconds(year: i64, mon: i64, mday: i64, hour: i64, min: i64, sec: i64) -> (r: i64)
    requires
        -999_999 <= year <= 1_000_000,
        0 <= mon < 12,
        -10_000 <= mday <= 10_000,
        -10_000 <= hour <= 10_000,
        -10_000 <= min <= 10_000,
        -10_000 <= sec <= 10_000,
    ensures
        r == day_number(year as int, mon as int, mday as int) * 86400 + hour * 3600 + min * 60
            + sec,
        -1_000_000_000_000_000 <= r <= 1_000_000_000_000_000,
{
    let kk = if mon < 2 {
        year - 1
    } else {
        year
    };
    let yd = crate::time::year_days_exec(kk);
    assert(-400_000_000 <= yd <= 400_000_000) by (nonlinear_arith)
        requires
            yd == kk * 365 + kk / 4 - kk / 100 + (kk / 100 + 3) / 4,
            -1_000_000 <= kk <= 1_000_000,
    ;
    let days = yd + crate::time::day_offset_exec(mon) + mday - 1 - 25508;
    days * 86400 + hour * 3600 + min * 60 + sec
}

/// Whether every byte of a text is a decimal digit.
pub open spec fn all_digits(s: Seq<u8>) -> bool {
    forall|i: int| 0 <= i < s.len() ==> is_digit(#[trigger] s[i])
}

/// The leading digits are digits, and they start with every run of digits
/// that starts the text.
pub proof fn lemma_leading_prefix(u: Seq<u8>, m: int)
    requires
        0 <= m <= u.len(),
        forall|k: int| 0 <= k < m ==> is_digit(#[trigger] u[k]),
    ensures
        leading_digits(u).len() >= m,
        leading_digits(u).take(m) == u.take(m),
        all_digits(leading_digits(u)),
        leading_digits(u).len() <= u.len(),
        leading_digits(u) == u.take(leading_digits(u).len() as int),
    decreases u.len(),
{
    if u.len() > 0 && is_digit(u[0]) {
        let rest = u.skip(1);
        if m > 0 {
            assert forall|k: int| 0 <= k < m - 1 implies is_digit(#[trigger] rest[k]) by {
                assert(rest[k] == u[k + 1]);
            }
            lemma_leading_prefix(rest, m - 1);
        } else {
            lemma_leading_prefix(rest, 0);
        }
        let l = leading_digits(u);
        let lr = leading_digits(rest);
        assert(l == seq![u[0]] + lr);
        assert(l.take(m) =~= u.take(m)) by {
            if m > 0 {
                assert(lr.take(m - 1) == rest.take(m - 1));
                assert forall|k: int| 0 <= k < m implies l.take(m)[k] == u.take(m)[k] by {
                    if k > 0 {
                        assert(lr.take(m - 1)[k - 1] == rest.take(m - 1)[k - 1]);
                    }
                }
            }
        }
        assert forall|i: int| 0 <= i < l.len() implies is_digit(#[trigger] l[i]) by {
            if i > 0 {
                assert(l[i] == lr[i - 1]);
            }
        }
        assert(l =~= u.take(l.len() as int)) by {
            assert forall|i: int| 0 <= i < l.len() implies l[i] == u.take(l.len() as int)[i] by {
                if i > 0 {
                    assert(lr[i - 1] == rest.take(lr.len() as int)[i - 1]);
                }
            }
        }
    } else {
        assert(leading_digits(u) =~= Seq::<u8>::empty());
    }
}

/// A run of digits read up to its first non-digit is the leading digits.
pub proof fn lemma_leading_exact(u: Seq<u8>, j: int)
    requires
        0 <= j <= u.len(),
        forall|k: int| 0 <= k < j ==> is_digit(#[trigger] u[k]),
        j == u.len() || !is_digit(u[j]),
    ensures
        leading_digits(u) == u.take(j),
    decreases u.len(),
{
    if j > 0 {
        let rest = u.skip(1);
        assert forall|k: int| 0 <= k < j - 1 implies is_digit(#[trigger] rest[k]) by {
            assert(rest[k] == u[k + 1]);
        }
        if j - 1 < rest.len() {
            assert(rest[j - 1] == u[j]);
        }
        lemma_leading_exact(rest, j - 1);
        assert(leading_digits(u) =~= u.take(j));
    } else {
        assert(leading_digits(u) =~= u.take(0));
    }
}

/// The value of digits is not negative.
pub proof fn lemma_decimal_nonneg(s: Seq<u8>)
    requires
        all_digits(s),
    ensures
        decimal_value(s) >= 0,
    decreases s.len(),
{
    if s.len() > 0 {
        assert(all_digits(s.drop_last()));
        lemma_decimal_nonneg(s.drop_last());
    }
}

/// The value of a prefix of digits is at most the value of the whole.
pub proof fn lemma_decimal_prefix_le(s: Seq<u8>, j: int)
    requires
        all_digits(s),
        0 <= j <= s.len(),
    ensures
        decimal_value(s.take(j)) <= decimal_value(s),
    decreases s.len(),
{
    if j < s.len() {
        let p = s.drop_last();
        assert(all_digits(p));
        lemma_decimal_prefix_le(p, j);
        assert(p.take(j) =~= s.take(j));
        lemma_decimal_nonneg(p);
    } else {
        assert(s.take(j) =~= s);
    }
}

/// What C's `atoi` makes of a text, as code, where the value fits an
/// `int`.
fn atoi_exec(s: &[u8]) -> (r: i64)
    requires
        -0x8000_0000 <= atoi(s@) <= 0x7fff_ffff,
    ensures
        r == atoi(s@),
{
    let mut i: usize = 0;
    while i < s.len() && (s[i] == 32 || (9 <= s[i] && s[i] <= 13))
        invariant
            i <= s@.len(),
            skip_spaces(s@, 0) == skip_spaces(s@, i as int),
        decreases s@.len() - i,
    {
        i = i + 1;
    }
    let t = bytes_from(s, i);
    let c = cbyte_exec(t.as_slice(), 0);
    let start: usize = if c == 45 || c == 43 {
        1
    } else {
        0
    };
    let u = bytes_from(t.as_slice(), start);
    proof {
        if start == 0 {
            assert(u@ =~= t@);
        }
    }
    let ghost v = decimal_value(leading_digits(u@));
    assert(v <= 0x8000_0000);
    let mut j: usize = 0;
    let mut acc: i64 = 0;
    while j < u.len() && 48 <= u[j] && u[j] <= 57
        invariant
            j <= u@.len(),
            forall|k: int| 0 <= k < j ==> is_digit(#[trigger] u@[k]),
            acc == decimal_value(u@.take(j as int)),
            v == decimal_value(leading_digits(u@)),
            v <= 0x8000_0000,
            0 <= acc <= 0x8000_0000,
        decreases u@.len() - j,
    {
        proof {
            lemma_leading_prefix(u@, j + 1);
            let l = leading_digits(u@);
            lemma_decimal_prefix_le(l, j + 1);
            assert(u@.take(j + 1).drop_last() =~= u@.take(j as int));
        }
        acc = acc * 10 + (u[j] as i64 - 48);
        j = j + 1;
    }
    proof {
        lemma_leading_exact(u@, j as int);
    }
    if c == 45 {
        -acc
    } else {
        acc
    }
}

/// The offset of a zone, as code.
fn zone_offset_exec(d: &[u8], at: i64) -> (r: i64)
    requires
        zone_fits(d@, at as int),
        -1 <= at < 100,
    ensures
        r == zone_offset(d@, at as int),
{
    if at < 0 {
        return 0;
    }
    let z = cbyte_exec(d, at as usize);
    if z != 45 && z != 43 {
        return 0;
    }
    let rest = if (at as usize) + 1 <= d.len() {
        bytes_from(d, (at as usize) + 1)
    } else {
        Vec::new()
    };
    proof {
        if (at as usize) + 1 > d@.len() {
            assert(rest@ =~= d@.skip(at + 1));
        }
    }
    let v = atoi_exec(rest.as_slice());
    let q: i64 = if v >= 0 {
        v / 100
    } else {
        -((-v) / 100)
    };
    let rm = v - 100 * q;
    let off = q * 3600 + rm * 60;
    if z == 45 {
        -off
    } else {
        off
    }
}


/// The time in microseconds of a date in format `k`, as code.
fn format_value_exec(d: &[u8], k: usize, zone: bool) -> (r: Option<i64>)
    requires
        k < 13,
        zone ==> zone_fits(d@, zone_at(k as int)),
    ensures
        match format_value(d@, k as int, zone) {
            None => r is None,
            Some(v) => r == Some(v as i64) && i64::MIN <= v <= i64::MAX,
        },
{
    let f = match format_fields_exec(d, k) {
        None => {
            return None;
        },
        Some(f) => f,
    };
    let ma = mon_at_exec(k) as usize;
    let mon = month_index_exec(cbyte_exec(d, ma), cbyte_exec(d, ma + 1), cbyte_exec(d, ma + 2));
    if !valid_day_exec(f.year, mon, f.mday) || f.hour > 23 || f.min > 59 || f.sec > 61 || mon == 12 {
        return None;
    }
    let secs = date_seconds(f.year, mon, f.mday, f.hour, f.min, f.sec);
    if secs < 0 {
        return None;
    }
    let off = if zone {
        zone_offset_exec(d, zone_at_exec(k))
    } else {
        0
    };
    Some(secs * 1_000_000 - off * 1_000_000)
}

/// The start of the date after the weekday, as code.
fn after_weekday_exec(s: &[u8]) -> (r: Option<usize>)
    ensures
        match after_weekday(s@) {
            None => r is None,
            Some(at) => r == Some(at as usize) && 0 <= at <= s@.len(),
        },
{
    let mut i: usize = 0;
    while i < s.len() && (s[i] == 32 || (9 <= s[i] && s[i] <= 13))
        invariant
            i <= s@.len(),
            skip_spaces(s@, 0) == skip_spaces(s@, i as int),
        decreases s@.len() - i,
    {
        i = i + 1;
    }
    if i >= s.len() {
        return None;
    }
    let rest = bytes_from(s, i);
    let j = find_byte(rest.as_slice(), 32u8);
    proof {
        lemma_first_index_bounds(rest@, 32u8);
    }
    if i + j >= s.len() {
        return None;
    }
    Some(i + j + 1)
}

/// Parses an HTTP date in one of three standard forms (RFC 1123, RFC 850,
/// `asctime`); no time comes back for a bad date, or for the epoch itself.
pub fn parse_http(data: &str) -> (r: Option<Time>)
    ensures
        match parsed_time(spec_parse_http(c_string(data.spec_bytes()))) {
            None => r is None,
            Some(v) => r matches Some(t) && t.spec_micros() == v,
        },
{
    let s = c_string_of(data);
    let at = match after_weekday_exec(s.as_slice()) {
        None => {
            return None;
        },
        Some(at) => at,
    };
    let d = bytes_from(s.as_slice(), at);
    let k = first_format_exec(d.as_slice(), 4);
    if k >= 4 {
        return None;
    }
    match format_value_exec(d.as_slice(), k, false) {
        None => None,
        Some(v) => if v == 0 {
            None
        } else {
            Some(Time::from_micros(v))
        },
    }
}

/// Parses a date in any of the formats of e-mail (RFC 822, RFC 1123,
/// RFC 850, `asctime`, and others with two-digit years, no seconds or a
/// one-digit hour), taking off a zone written `+hhmm` or `-hhmm`; no time
/// comes back for a bad date, or for the epoch itself.
pub fn parse_rfc(data: &str) -> (r: Option<Time>)
    requires
        rfc_zone_fits(c_string(data.spec_bytes())),
    ensures
        match parsed_time(spec_parse_rfc(c_string(data.spec_bytes()))) {
            None => r is None,
            Some(v) => r matches Some(t) && t.spec_micros() == v,
        },
{
    let s = c_string_of(data);
    let at = if s.len() > 0 && 48 <= s[0] && s[0] <= 57 {
        0
    } else {
        match after_weekday_exec(s.as_slice()) {
            None => {
                return None;
            },
            Some(at) => at,
        }
    };
    let d = bytes_from(s.as_slice(), at);
    proof {
        if at == 0 {
            assert(d@ =~= s@);
        }
    }
    let k = first_format_exec(d.as_slice(), 13);
    if k >= 13 {
        return None;
    }
    match format_value_exec(d.as_slice(), k, true) {
        None => None,
        Some(v) => if v == 0 {
            None
        } else {
            Some(Time::from_micros(v))
        },
    }
}

// ---------------------------------------------------------------------------
// Rendering and parsing back
// ---------------------------------------------------------------------------

/// The name of a day of the week is three letters, none of them a space.
proof fn lemma_day_name_letters(w: int)
    ensures
        day_name(w).len() == 3,
        forall|j: int| 0 <= j < 3 ==> #[trigger] day_name(w)[j] != 32 && !is_space(day_name(w)[j]),
{
}

/// The name of a month is an uppercase letter and two lowercase ones, and
/// it names that month.
proof fn lemma_month_name_parts(m: int)
    requires
        0 <= m < 12,
    ensures
        month_name(m).len() == 3,
        is_upper(month_name(m)[0]),
        is_lower(month_name(m)[1]),
        is_lower(month_name(m)[2]),
        month_index(month_name(m)[0], month_name(m)[1], month_name(m)[2]) == m,
{
    let n = month_name(m);
    assert(seq![n[0], n[1], n[2]] =~= n);
    reveal_with_fuel(month_from, 13);
}

/// Two digits written for a value below 100 read back as that value.
proof fn lemma_two_back(d: Seq<u8>, i: int, v: int)
    requires
        0 <= v < 100,
        0 <= i,
        i + 1 < d.len(),
        d[i] == digit_byte(v / 10),
        d[i + 1] == digit_byte(v % 10),
    ensures
        two_at(d, i) == v,
        is_digit(d[i]),
        is_digit(d[i + 1]),
{
}

/// Whether a text matches the first date format's mask, position by
/// position: `## @$$ #### ##:##:## *`.
proof fn lemma_mask_zero(d: Seq<u8>)
    requires
        d.len() >= 21,
        is_digit(d[0]),
        is_digit(d[1]),
        d[2] == 32,
        is_upper(d[3]),
        is_lower(d[4]),
        is_lower(d[5]),
        d[6] == 32,
        is_digit(d[7]),
        is_digit(d[8]),
        is_digit(d[9]),
        is_digit(d[10]),
        d[11] == 32,
        is_digit(d[12]),
        is_digit(d[13]),
        d[14] == 58,
        is_digit(d[15]),
        is_digit(d[16]),
        d[17] == 58,
        is_digit(d[18]),
        is_digit(d[19]),
        d[20] == 32,
    ensures
        spec_checkmask(d, format_mask(0)),
{
    let m = format_mask(0);
    assert(mask_from(d, m, 21));
    assert(mask_from(d, m, 20));
    assert(mask_from(d, m, 19));
    assert(mask_from(d, m, 18));
    assert(mask_from(d, m, 17));
    assert(mask_from(d, m, 16));
    assert(mask_from(d, m, 15));
    assert(mask_from(d, m, 14));
    assert(mask_from(d, m, 13));
    assert(mask_from(d, m, 12));
    assert(mask_from(d, m, 11));
    assert(mask_from(d, m, 10));
    assert(mask_from(d, m, 9));
    assert(mask_from(d, m, 8));
    assert(mask_from(d, m, 7));
    assert(mask_from(d, m, 6));
    assert(mask_from(d, m, 5));
    assert(mask_from(d, m, 4));
    assert(mask_from(d, m, 3));
    assert(mask_from(d, m, 2));
    assert(mask_from(d, m, 1));
    assert(mask_from(d, m, 0));
}

/// The calendar fields of a time after the epoch: in range, in a month
/// of the year from 1970, on a day that exists, and adding up to its
/// seconds.
proof fn lemma_explode_back(t: i64)
    requires
        t > 0,
    ensures
        explode_gmt(t).year >= 70,
        0 <= explode_gmt(t).mon < 12,
        1 <= explode_gmt(t).mday <= 31,
        0 <= explode_gmt(t).hour < 24,
        0 <= explode_gmt(t).min < 60,
        0 <= explode_gmt(t).sec < 60,
        0 <= explode_gmt(t).wday < 7,
        valid_day(explode_gmt(t).year, explode_gmt(t).mon, explode_gmt(t).mday),
        day_number(explode_gmt(t).year, explode_gmt(t).mon, explode_gmt(t).mday) * 86400
            + explode_gmt(t).hour * 3600 + explode_gmt(t).min * 60 + explode_gmt(t).sec
            == time_seconds(t),
{
    let e = explode_gmt(t);
    let tt = time_seconds(t);
    let dd = tt / 86400;
    let ss = tt % 86400;
    let i = month_of_day(dd);
    lemma_month_of_day(dd);
    lemma_month_after_epoch(dd);
    assert(day_number(e.year, e.mon, e.mday) == day_number(e.year, e.mon, 1) + e.mday - 1);
    assert(month_start(i) == day_number(i / 12, i % 12, 1));
    assert(ss == e.hour * 3600 + e.min * 60 + e.sec);
    assert(tt == dd * 86400 + ss);
}

/// The bytes of a time rendered in the format of RFC 822, one by one.
proof fn lemma_rfc822_layout(t: i64)
    requires
        t > 0,
        explode_gmt(t).year + 1900 <= 9999,
    ensures
        ({
            let e = explode_gmt(t);
            let dn = day_name(e.wday);
            let mn = month_name(e.mon);
            let yd = year_digits(e.year + 1900);
            rfc822_bytes(t) == seq![
                dn[0], dn[1], dn[2], 44u8, 32u8,
                digit_byte(e.mday / 10), digit_byte(e.mday % 10), 32u8,
                mn[0], mn[1], mn[2], 32u8,
                yd[0], yd[1], yd[2], yd[3], 32u8,
                digit_byte(e.hour / 10), digit_byte(e.hour % 10), 58u8,
                digit_byte(e.min / 10), digit_byte(e.min % 10), 58u8,
                digit_byte(e.sec / 10), digit_byte(e.sec % 10), 32u8,
                71u8, 77u8, 84u8,
            ]
        }),
{
    let e = explode_gmt(t);
    lemma_explode_back(t);
    lemma_day_name_letters(e.wday);
    lemma_month_name_parts(e.mon);
    let dn = day_name(e.wday);
    let mn = month_name(e.mon);
    let yd = year_digits(e.year + 1900);
    assert(rfc822_bytes(t) =~= seq![
        dn[0], dn[1], dn[2], 44u8, 32u8,
        digit_byte(e.mday / 10), digit_byte(e.mday % 10), 32u8,
        mn[0], mn[1], mn[2], 32u8,
        yd[0], yd[1], yd[2], yd[3], 32u8,
        digit_byte(e.hour / 10), digit_byte(e.hour % 10), 58u8,
        digit_byte(e.min / 10), digit_byte(e.min % 10), 58u8,
        digit_byte(e.sec / 10), digit_byte(e.sec % 10), 32u8,
        71u8, 77u8, 84u8,
    ]);
}

/// The four digits of a year are the two digits of its century and the
/// two of its year in the century.
proof fn lemma_year_digits(y: int)
    requires
        0 <= y <= 9999,
    ensures
        year_digits(y)[0] == digit_byte((y / 100) / 10),
        year_digits(y)[1] == digit_byte((y / 100) % 10),
        year_digits(y)[2] == digit_byte((y % 100) / 10),
        year_digits(y)[3] == digit_byte((y % 100) % 10),
{
    assert((y / 100) / 10 == y / 1000);
    assert((y / 100) % 10 == (y % 1000) / 100);
    assert((y % 100) % 10 == y % 10);
}

/// A date rendered in the format of RFC 822 and parsed back as an HTTP
/// date gives back the time, to the second, for every time after the
/// epoch that falls in a year of four digits.
pub proof fn law_rfc822_parse_http(t: i64)
    requires
        t > 0,
        t % 1_000_000 == 0,
        explode_gmt(t).year + 1900 <= 9999,
    ensures
        spec_parse_http(rfc822_bytes(t)) == Some(t as int),
{
    let e = explode_gmt(t);
    lemma_explode_back(t);
    lemma_rfc822_layout(t);
    lemma_day_name_letters(e.wday);
    lemma_month_name_parts(e.mon);
    let y4 = e.year + 1900;
    lemma_year_digits(y4);
    let s = rfc822_bytes(t);
    assert(skip_spaces(s, 0) == 0);
    assert(s.skip(0) =~= s);
    crate::text::lemma_first_index(s, 32u8, 4);
    assert(after_weekday(s) == Some(5int));
    let d = s.skip(5);
    lemma_two_back(d, 0, e.mday);
    lemma_two_back(d, 12, e.hour);
    lemma_two_back(d, 15, e.min);
    lemma_two_back(d, 18, e.sec);
    lemma_two_back(d, 7, y4 / 100);
    lemma_two_back(d, 9, y4 % 100);
    lemma_mask_zero(d);
    assert(first_format(d, 0, 4) == 0);
    assert(two_at(d, year_at(0)) == y4 / 100);
    assert(format_fields(d, 0) == Some(
        DateFields { year: e.year, mday: e.mday, hour: e.hour, min: e.min, sec: e.sec },
    ));
    assert(month_index(cbyte(d, 3), cbyte(d, 4), cbyte(d, 5)) == e.mon);
    assert(time_seconds(t) * 1_000_000 == t);
}

/// Whether a text matches the mask of the `ctime` format, position by
/// position: `@$$ ~# ##:##:## ####*`.
proof fn lemma_mask_ctime(d: Seq<u8>)
    requires
        d.len() >= 20,
        is_upper(d[0]),
        is_lower(d[1]),
        is_lower(d[2]),
        d[3] == 32,
        d[4] == 32 || is_digit(d[4]),
        is_digit(d[5]),
        d[6] == 32,
        is_digit(d[7]),
        is_digit(d[8]),
        d[9] == 58,
        is_digit(d[10]),
        is_digit(d[11]),
        d[12] == 58,
        is_digit(d[13]),
        is_digit(d[14]),
        d[15] == 32,
        is_digit(d[16]),
        is_digit(d[17]),
        is_digit(d[18]),
        is_digit(d[19]),
    ensures
        spec_checkmask(d, format_mask(2)),
        !spec_checkmask(d, format_mask(0)),
        !spec_checkmask(d, format_mask(1)),
{
    let m = format_mask(2);
    assert(mask_from(d, m, 20));
    assert(mask_from(d, m, 19));
    assert(mask_from(d, m, 18));
    assert(mask_from(d, m, 17));
    assert(mask_from(d, m, 16));
    assert(mask_from(d, m, 15));
    assert(mask_from(d, m, 14));
    assert(mask_from(d, m, 13));
    assert(mask_from(d, m, 12));
    assert(mask_from(d, m, 11));
    assert(mask_from(d, m, 10));
    assert(mask_from(d, m, 9));
    assert(mask_from(d, m, 8));
    assert(mask_from(d, m, 7));
    assert(mask_from(d, m, 6));
    assert(mask_from(d, m, 5));
    assert(mask_from(d, m, 4));
    assert(mask_from(d, m, 3));
    assert(mask_from(d, m, 2));
    assert(mask_from(d, m, 1));
    assert(mask_from(d, m, 0));
    assert(!mask_from(d, format_mask(0), 0));
    assert(!mask_from(d, format_mask(1), 0));
}

/// A date rendered in the format of `ctime` and parsed back as an HTTP
/// date gives back the time, to the second, for every time after the
/// epoch that falls in a year of four digits: in particular the day of the
/// month is read from both of its digits.
pub proof fn law_ctime_parse_http(t: i64)
    requires
        t > 0,
        t % 1_000_000 == 0,
        explode_gmt(t).year + 1900 <= 9999,
    ensures
        spec_parse_http(ctime_bytes(t)) == Some(t as int),
{
    let e = explode_gmt(t);
    lemma_explode_back(t);
    lemma_day_name_letters(e.wday);
    lemma_month_name_parts(e.mon);
    let y4 = e.year + 1900;
    lemma_year_digits(y4);
    let dn = day_name(e.wday);
    let mn = month_name(e.mon);
    let yd = year_digits(y4);
    let s = ctime_bytes(t);
    assert(s =~= seq![
        dn[0], dn[1], dn[2], 32u8,
        mn[0], mn[1], mn[2], 32u8,
        digit_byte(e.mday / 10), digit_byte(e.mday % 10), 32u8,
        digit_byte(e.hour / 10), digit_byte(e.hour % 10), 58u8,
        digit_byte(e.min / 10), digit_byte(e.min % 10), 58u8,
        digit_byte(e.sec / 10), digit_byte(e.sec % 10), 32u8,
        yd[0], yd[1], yd[2], yd[3],
    ]);
    assert(skip_spaces(s, 0) == 0);
    assert(s.skip(0) =~= s);
    crate::text::lemma_first_index(s, 32u8, 3);
    assert(after_weekday(s) == Some(4int));
    let d = s.skip(4);
    lemma_two_back(d, 4, e.mday);
    lemma_two_back(d, 7, e.hour);
    lemma_two_back(d, 10, e.min);
    lemma_two_back(d, 13, e.sec);
    lemma_two_back(d, 16, y4 / 100);
    lemma_two_back(d, 18, y4 % 100);
    assert(d[4] != 32);
    lemma_mask_ctime(d);
    assert(first_format(d, 2, 4) == 2);
    assert(first_format(d, 1, 4) == 2);
    assert(first_format(d, 0, 4) == 2);
    assert(format_fields(d, 2) == Some(
        DateFields { year: e.year, mday: e.mday, hour: e.hour, min: e.min, sec: e.sec },
    ));
    assert(month_index(cbyte(d, 0), cbyte(d, 1), cbyte(d, 2)) == e.mon);
    assert(time_seconds(t) * 1_000_000 == t);
}

/// The `asctime` form writes a day below ten with a space for its tens
/// digit: such a date, parsed as an HTTP date, gives back the time too.
pub proof fn law_asctime_space_day_parse_http(t: i64)
    requires
        t > 0,
        t % 1_000_000 == 0,
        explode_gmt(t).year + 1900 <= 9999,
        explode_gmt(t).mday < 10,
    ensures
        spec_parse_http(ctime_bytes(t).update(8, 32u8)) == Some(t as int),
{
    let e = explode_gmt(t);
    lemma_explode_back(t);
    lemma_day_name_letters(e.wday);
    lemma_month_name_parts(e.mon);
    let y4 = e.year + 1900;
    lemma_year_digits(y4);
    let dn = day_name(e.wday);
    let mn = month_name(e.mon);
    let yd = year_digits(y4);
    let s = ctime_bytes(t).update(8, 32u8);
    assert(s =~= seq![
        dn[0], dn[1], dn[2], 32u8,
        mn[0], mn[1], mn[2], 32u8,
        32u8, digit_byte(e.mday % 10), 32u8,
        digit_byte(e.hour / 10), digit_byte(e.hour % 10), 58u8,
        digit_byte(e.min / 10), digit_byte(e.min % 10), 58u8,
        digit_byte(e.sec / 10), digit_byte(e.sec % 10), 32u8,
        yd[0], yd[1], yd[2], yd[3],
    ]);
    assert(skip_spaces(s, 0) == 0);
    assert(s.skip(0) =~= s);
    crate::text::lemma_first_index(s, 32u8, 3);
    assert(after_weekday(s) == Some(4int));
    let d = s.skip(4);
    assert(digit_at(d, 5) == e.mday);
    lemma_two_back(d, 7, e.hour);
    lemma_two_back(d, 10, e.min);
    lemma_two_back(d, 13, e.sec);
    lemma_two_back(d, 16, y4 / 100);
    lemma_two_back(d, 18, y4 % 100);
    assert(d[4] == 32);
    lemma_mask_ctime(d);
    assert(first_format(d, 2, 4) == 2);
    assert(first_format(d, 1, 4) == 2);
    assert(first_format(d, 0, 4) == 2);
    assert(format_fields(d, 2) == Some(
        DateFields { year: e.year, mday: e.mday, hour: e.hour, min: e.min, sec: e.sec },
    ));
    assert(month_index(cbyte(d, 0), cbyte(d, 1), cbyte(d, 2)) == e.mon);
    assert(time_seconds(t) * 1_000_000 == t);
}

/// A time written in the form of RFC 850, with the year in two digits:
/// `Sun, 06-Nov-94 08:49:37 GMT`.
pub open spec fn rfc850_bytes(t: i64) -> Seq<u8> {
    let e = explode_gmt(t);
    day_name(e.wday) + seq![44u8, 32u8] + two_digits(e.mday) + seq![45u8] + month_name(e.mon)
        + seq![45u8] + two_digits(e.year % 100) + seq![32u8] + two_digits(e.hour) + seq![58u8]
        + two_digits(e.min) + seq![58u8] + two_digits(e.sec) + seq![32u8, 71u8, 77u8, 84u8]
}

/// Whether a text matches the mask of the RFC 850 format, position by
/// position: `##-@$$-## ##:##:## *`, and not that of RFC 1123.
proof fn lemma_mask_rfc850(d: Seq<u8>)
    requires
        d.len() >= 19,
        is_digit(d[0]),
        is_digit(d[1]),
        d[2] == 45,
        is_upper(d[3]),
        is_lower(d[4]),
        is_lower(d[5]),
        d[6] == 45,
        is_digit(d[7]),
        is_digit(d[8]),
        d[9] == 32,
        is_digit(d[10]),
        is_digit(d[11]),
        d[12] == 58,
        is_digit(d[13]),
        is_digit(d[14]),
        d[15] == 58,
        is_digit(d[16]),
        is_digit(d[17]),
        d[18] == 32,
    ensures
        spec_checkmask(d, format_mask(1)),
        !spec_checkmask(d, format_mask(0)),
{
    let m = format_mask(1);
    assert(mask_from(d, m, 19));
    assert(mask_from(d, m, 18));
    assert(mask_from(d, m, 17));
    assert(mask_from(d, m, 16));
    assert(mask_from(d, m, 15));
    assert(mask_from(d, m, 14));
    assert(mask_from(d, m, 13));
    assert(mask_from(d, m, 12));
    assert(mask_from(d, m, 11));
    assert(mask_from(d, m, 10));
    assert(mask_from(d, m, 9));
    assert(mask_from(d, m, 8));
    assert(mask_from(d, m, 7));
    assert(mask_from(d, m, 6));
    assert(mask_from(d, m, 5));
    assert(mask_from(d, m, 4));
    assert(mask_from(d, m, 3));
    assert(mask_from(d, m, 2));
    assert(mask_from(d, m, 1));
    assert(mask_from(d, m, 0));
    let m0 = format_mask(0);
    assert(!mask_from(d, m0, 2));
    assert(!mask_from(d, m0, 1));
    assert(!mask_from(d, m0, 0));
}

/// A date written in the form of RFC 850, with the year in two digits,
/// parsed as an HTTP date gives back the time for every year from 1970 to
/// 2069: a two-digit year below 70 is read in the 2000s, the others in
/// the 1900s.
pub proof fn law_rfc850_parse_http(t: i64)
    requires
        t > 0,
        t % 1_000_000 == 0,
        explode_gmt(t).year + 1900 <= 2069,
    ensures
        spec_parse_http(rfc850_bytes(t)) == Some(t as int),
{
    let e = explode_gmt(t);
    lemma_explode_back(t);
    lemma_day_name_letters(e.wday);
    lemma_month_name_parts(e.mon);
    let yy = e.year % 100;
    let dn = day_name(e.wday);
    let mn = month_name(e.mon);
    let s = rfc850_bytes(t);
    assert(s =~= seq![
        dn[0], dn[1], dn[2], 44u8, 32u8,
        digit_byte(e.mday / 10), digit_byte(e.mday % 10), 45u8,
        mn[0], mn[1], mn[2], 45u8,
        digit_byte(yy / 10), digit_byte(yy % 10), 32u8,
        digit_byte(e.hour / 10), digit_byte(e.hour % 10), 58u8,
        digit_byte(e.min / 10), digit_byte(e.min % 10), 58u8,
        digit_byte(e.sec / 10), digit_byte(e.sec % 10), 32u8,
        71u8, 77u8, 84u8,
    ]);
    assert(skip_spaces(s, 0) == 0);
    assert(s.skip(0) =~= s);
    crate::text::lemma_first_index(s, 32u8, 4);
    assert(after_weekday(s) == Some(5int));
    let d = s.skip(5);
    lemma_two_back(d, 0, e.mday);
    lemma_two_back(d, 7, yy);
    lemma_two_back(d, 10, e.hour);
    lemma_two_back(d, 13, e.min);
    lemma_two_back(d, 16, e.sec);
    lemma_mask_rfc850(d);
    assert(first_format(d, 1, 4) == 1);
    assert(first_format(d, 0, 4) == 1);
    assert(70 <= e.year < 170);
    assert((if yy < 70 { yy + 100 } else { yy }) == e.year);
    assert(format_fields(d, 1) == Some(
        DateFields { year: e.year, mday: e.mday, hour: e.hour, min: e.min, sec: e.sec },
    ));
    assert(month_index(cbyte(d, 3), cbyte(d, 4), cbyte(d, 5)) == e.mon);
    assert(time_seconds(t) * 1_000_000 == t);
}

/// The zone `+hhmm` or `-hhmm` at a position: its offset in seconds.
proof fn lemma_zone_digits(d: Seq<u8>, hh: int, mm: int)
    requires
        0 <= hh < 100,
        0 <= mm < 100,
        d.len() == 26,
        d.skip(22) == two_digits(hh) + two_digits(mm),
        d[21] == 43 || d[21] == 45,
    ensures
        zone_offset(d, 21) == (if d[21] == 43 {
            hh * 3600 + mm * 60
        } else {
            -(hh * 3600 + mm * 60)
        }),
{
    let u = d.skip(22);
    assert(skip_spaces(u, 0) == 0);
    assert(u.skip(0) =~= u);
    lemma_leading_exact(u, 4);
    assert(u.take(4) =~= u);
    let v = hh * 100 + mm;
    assert(u[0] == 48 + hh / 10);
    assert(u[1] == 48 + hh % 10);
    assert(u[2] == 48 + mm / 10);
    assert(u[3] == 48 + mm % 10);
    let u1 = seq![u[0]];
    let u2 = seq![u[0], u[1]];
    let u3 = seq![u[0], u[1], u[2]];
    assert(u1.drop_last() =~= Seq::<u8>::empty());
    assert(u2.drop_last() =~= u1);
    assert(u3.drop_last() =~= u2);
    assert(u.drop_last() =~= u3);
    assert(decimal_value(Seq::<u8>::empty()) == 0);
    assert(decimal_value(u1) == hh / 10);
    assert(decimal_value(u2) == hh);
    assert(decimal_value(u3) == hh * 10 + mm / 10);
    assert(decimal_value(u) == v);
    assert(cbyte(u, 0) == u[0]);
    assert(atoi(u) == v);
    assert(c_div(v, 100) == hh);
    assert(c_rem(v, 100) == mm);
}

/// A date in the form of RFC 822 whose zone is written as `+hhmm` (east of
/// GMT) or `-hhmm` (west) in place of `GMT`, parsed as an e-mail date,
/// gives the time written less the zone's offset: the same instant in
/// GMT.
#[verifier::spinoff_prover]
#[verifier::rlimit(40)]
pub proof fn law_rfc822_zone_parse_rfc(t: i64, east: bool, hh: int, mm: int)
    requires
        t > 0,
        t % 1_000_000 == 0,
        explode_gmt(t).year + 1900 <= 9999,
        0 <= hh < 100,
        0 <= mm < 100,
    ensures
        spec_parse_rfc(
            rfc822_bytes(t).take(26) + seq![if east { 43u8 } else { 45u8 }] + two_digits(hh)
                + two_digits(mm),
        ) == Some(
            t as int - (if east {
                hh * 3600 + mm * 60
            } else {
                -(hh * 3600 + mm * 60)
            }) * 1_000_000,
        ),
{
    let e = explode_gmt(t);
    lemma_explode_back(t);
    lemma_rfc822_layout(t);
    lemma_day_name_letters(e.wday);
    lemma_month_name_parts(e.mon);
    let y4 = e.year + 1900;
    lemma_year_digits(y4);
    let sign: u8 = if east { 43u8 } else { 45u8 };
    let s = rfc822_bytes(t).take(26) + seq![sign] + two_digits(hh) + two_digits(mm);
    assert(s.len() == 31);
    assert(forall|i: int| 0 <= i < 26 ==> s[i] == #[trigger] rfc822_bytes(t)[i]);
    assert(!is_digit(cbyte(s, 0)));
    assert(skip_spaces(s, 0) == 0);
    assert(s.skip(0) =~= s);
    crate::text::lemma_first_index(s, 32u8, 4);
    assert(after_weekday(s) == Some(5int));
    assert(rfc_start(s) == Some(5int));
    let d = s.skip(5);
    lemma_two_back(d, 0, e.mday);
    lemma_two_back(d, 12, e.hour);
    lemma_two_back(d, 15, e.min);
    lemma_two_back(d, 18, e.sec);
    lemma_two_back(d, 7, y4 / 100);
    lemma_two_back(d, 9, y4 % 100);
    lemma_mask_zero(d);
    assert(first_format(d, 0, 13) == 0);
    assert(format_fields(d, 0) == Some(
        DateFields { year: e.year, mday: e.mday, hour: e.hour, min: e.min, sec: e.sec },
    ));
    assert(month_index(cbyte(d, 3), cbyte(d, 4), cbyte(d, 5)) == e.mon);
    assert(cbyte(d, 21) == sign);
    assert(d.skip(22) =~= two_digits(hh) + two_digits(mm));
    lemma_zone_digits(d, hh, mm);
    let zo = if east {
        hh * 3600 + mm * 60
    } else {
        -(hh * 3600 + mm * 60)
    };
    assert(zone_offset(d, zone_at(0)) == zo);
    assert(time_seconds(t) * 1_000_000 == t);
    assert(format_value(d, 0, true) == Some(t as int - zo * 1_000_000));
    assert(spec_parse_rfc(s) == format_value(d, 0, true));
    assert(time_seconds(t) * 1_000_000 == t);
}

} // verus!
