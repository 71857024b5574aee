//! Time in microseconds since the epoch, its calendar fields in GMT, and
//! its rendering in the formats of `ctime` and RFC 822.

use vstd::prelude::*;
use vstd::std_specs::convert::FromSpecImpl;
use crate::text::string_from_utf8_lossy;

verus! {

/// Whether a year of the Gregorian calendar is a leap year.
pub open spec fn is_leap(y: int) -> bool {
    y % 4 == 0 && (y % 100 != 0 || y % 400 == 0)
}

/// The days before the first of March of a year since 1900, counted from
/// the first of March 1900, less one year's offset: the portable runtime's
/// count of whole years.
pub open spec fn year_days(k: int) -> int {
    k * 365 + k / 4 - k / 100 + (k / 100 + 3) / 4
}

/// One more year adds its days: 366 for a leap year, else 365.
#[verifier::spinoff_prover]
#[verifier::rlimit(40)]
proof fn lemma_year_days_step(k: int)
    ensures
        year_days(k + 1) - year_days(k) == 365 + (if is_leap(k + 1901) { 1int } else { 0int }),
{
}


/// The days from the first of March to the first of a month (0 for
/// January), for months counted from the first of March.
pub open spec fn day_offset(mon: int) -> int {
    if mon == 0 {
        306
    } else if mon == 1 {
        337
    } else if mon == 2 {
        0
    } else if mon == 3 {
        31
    } else if mon == 4 {
        61
    } else if mon == 5 {
        92
    } else if mon == 6 {
        122
    } else if mon == 7 {
        153
    } else if mon == 8 {
        184
    } else if mon == 9 {
        214
    } else if mon == 10 {
        245
    } else {
        275
    }
}

/// The number of the day `mday` of month `mon` (0 for January) of the year
/// `year` (counted from 1900), counted from the first of January 1970.
pub open spec fn day_number(year: int, mon: int, mday: int) -> int {
    let k = if mon < 2 {
        year - 1
    } else {
        year
    };
    year_days(k) + day_offset(mon) + mday - 1 - 25508
}

/// The number of days of a month (0 for January) of a year counted from
/// 1900.
pub open spec fn month_length(year: int, mon: int) -> int {
    if mon == 1 {
        if is_leap(year + 1900) {
            29
        } else {
            28
        }
    } else if mon == 3 || mon == 5 || mon == 8 || mon == 10 {
        30
    } else {
        31
    }
}

/// The first day of a month, by its index `12 * year + mon`.
pub open spec fn month_start(i: int) -> int {
    day_number(i / 12, i % 12, 1)
}

/// The length of a month, by its index.
pub open spec fn month_len_at(i: int) -> int {
    month_length(i / 12, i % 12)
}

/// A month starts where the one before it ends.
proof fn lemma_month_step(i: int)
    ensures
        month_start(i + 1) == month_start(i) + month_len_at(i),
        28 <= month_len_at(i) <= 31,
{
    let year = i / 12;
    let mon = i % 12;
    if mon == 1 {
        lemma_year_days_step(year - 1);
    }
    if mon == 11 {
        assert((i + 1) / 12 == year + 1);
        assert((i + 1) % 12 == 0);
    } else {
        assert((i + 1) / 12 == year);
        assert((i + 1) % 12 == mon + 1);
    }
}

/// Months that come later start after earlier months end.
proof fn lemma_month_order(i: int, j: int)
    requires
        i < j,
    ensures
        month_start(i) + month_len_at(i) <= month_start(j),
    decreases j - i,
{
    lemma_month_step(i);
    if i + 1 < j {
        lemma_month_order(i + 1, j);
        lemma_month_step(i + 1);
    }
}

/// The first days of two months are at least 28 days apart for each month
/// between them.
proof fn lemma_month_spread(i: int, j: int)
    requires
        i <= j,
    ensures
        month_start(j) - month_start(i) >= 28 * (j - i),
        month_start(j) - month_start(i) <= 31 * (j - i),
    decreases j - i,
{
    if i < j {
        lemma_month_spread(i + 1, j);
        lemma_month_step(i);
    }
}

/// Four hundred years are 146097 days.
proof fn lemma_era(i: int)
    ensures
        month_start(i + 4800) == month_start(i) + 146097,
{
    let year = i / 12;
    let mon = i % 12;
    assert((i + 4800) / 12 == year + 400);
    assert((i + 4800) % 12 == mon);
    let k = if mon < 2 {
        year - 1
    } else {
        year
    };
    assert((k + 400) / 4 == k / 4 + 100);
    assert((k + 400) / 100 == k / 100 + 4);
    assert(((k + 400) / 100 + 3) / 4 == (k / 100 + 3) / 4 + 1);
}


/// Whether the month of index `i` holds the day `d`.
pub open spec fn month_holds(i: int, d: int) -> bool {
    month_start(i) <= d < month_start(i) + month_len_at(i)
}

/// The index of the month that holds a day.
pub open spec fn month_of_day(d: int) -> int {
    choose|i: int| month_holds(i, d)
}

/// Only one month holds a day.
proof fn lemma_month_unique(i: int, j: int, d: int)
    requires
        month_holds(i, d),
        month_holds(j, d),
    ensures
        i == j,
{
    if i < j {
        lemma_month_order(i, j);
    } else if j < i {
        lemma_month_order(j, i);
    }
}

/// The months of whole eras from January 1970 start where the eras do.
proof fn lemma_eras(c: int)
    ensures
        month_start(840 + 4800 * c) == 146097 * c,
    decreases (if c < 0 { -c } else { c }),
{
    if c == 0 {
        assert(month_start(840) == 0);
    } else if c > 0 {
        lemma_eras(c - 1);
        lemma_era(840 + 4800 * (c - 1));
    } else {
        lemma_eras(c + 1);
        lemma_era(840 + 4800 * c);
    }
}

/// A month holding the day is found by walking from a month that starts
/// at or before it to one that starts after it.
proof fn lemma_find_month(i: int, d: int, limit: int)
    requires
        i < limit,
        month_start(i) <= d < month_start(limit),
    ensures
        exists|j: int| month_holds(j, d),
    decreases limit - i,
{
    lemma_month_step(i);
    if month_start(i + 1) <= d {
        if i + 1 == limit {
        } else {
            lemma_find_month(i + 1, d, limit);
        }
    } else {
        assert(month_holds(i, d));
    }
}

/// Every day lies in a month: the one that [`month_of_day`] picks, whose
/// length is a month's.
pub proof fn lemma_month_of_day(d: int)
    ensures
        month_holds(month_of_day(d), d),
        28 <= month_len_at(month_of_day(d)) <= 31,
        month_start(month_of_day(d) + 1) == month_start(month_of_day(d)) + month_len_at(
            month_of_day(d),
        ),
{
    let c = d / 146097;
    vstd::arithmetic::div_mod::lemma_fundamental_div_mod(d, 146097);
    lemma_eras(c);
    lemma_eras(c + 1);
    assert(840 + 4800 * (c + 1) == 840 + 4800 * c + 4800);
    assert(146097 * (c + 1) == 146097 * c + 146097);
    lemma_find_month(840 + 4800 * c, d, 840 + 4800 * c + 4800);
    lemma_month_step(month_of_day(d));
}

/// Days from the epoch on lie in months from January 1970 on.
pub proof fn lemma_month_after_epoch(d: int)
    requires
        d >= 0,
    ensures
        month_of_day(d) >= 840,
{
    lemma_month_of_day(d);
    let i = month_of_day(d);
    if i < 840 {
        lemma_month_order(i, 840);
        assert(month_start(840) == 0);
    }
}

/// Division rounded down, for a positive divisor.
fn floor_div(a: i64, b: i64) -> (q: i64)
    requires
        b > 0,
        -0x1000_0000_0000_0000 < a < 0x1000_0000_0000_0000,
    ensures
        q == a / b,
        a - b * q >= 0,
        a - b * q < b,
{
    if a >= 0 {
        let q = a / b;
        proof {
            vstd::arithmetic::div_mod::lemma_fundamental_div_mod(a as int, b as int);
        }
        q
    } else {
        let t = (-a - 1) / b;
        proof {
            vstd::arithmetic::div_mod::lemma_fundamental_div_mod((-a - 1) as int, b as int);
            let r = (-a - 1) % (b as int);
            assert(a == (-t - 1) * b + (b - 1 - r)) by (nonlinear_arith)
                requires
                    -a - 1 == b * t + r,
            ;
            vstd::arithmetic::div_mod::lemma_fundamental_div_mod_converse_div(
                a as int,
                b as int,
                -t - 1,
                b - 1 - r,
            );
        }
        proof {
            assert(0 <= t) by (nonlinear_arith)
                requires
                    -a - 1 >= 0,
                    b > 0,
                    t == (-a - 1) / (b as int),
            ;
            assert(t <= -a - 1) by (nonlinear_arith)
                requires
                    -a - 1 >= 0,
                    b > 0,
                    t == (-a - 1) / (b as int),
            ;
        }
        -t - 1
    }
}

/// The days of whole years from 1900, as code.
pub(crate) fn year_days_exec(k: i64) -> (r: i64)
    requires
        -1_000_000 <= k <= 1_000_000,
    ensures
        r == year_days(k as int),
{
    let q4 = floor_div(k, 4);
    let q100 = floor_div(k, 100);
    let q400 = floor_div(q100 + 3, 4);
    k * 365 + q4 - q100 + q400
}

/// The day offset of a month, as code.
pub(crate) fn day_offset_exec(mon: i64) -> (r: i64)
    requires
        0 <= mon < 12,
    ensures
        r == day_offset(mon as int),
{
    if mon == 0 {
        306
    } else if mon == 1 {
        337
    } else if mon == 2 {
        0
    } else if mon == 3 {
        31
    } else if mon == 4 {
        61
    } else if mon == 5 {
        92
    } else if mon == 6 {
        122
    } else if mon == 7 {
        153
    } else if mon == 8 {
        184
    } else if mon == 9 {
        214
    } else if mon == 10 {
        245
    } else {
        275
    }
}

/// The first day of a month, by its index, as code.
fn month_start_exec(i: i64) -> (r: i64)
    requires
        -10_000_000 <= i <= 10_000_000,
    ensures
        r == month_start(i as int),
{
    let year = floor_div(i, 12);
    let mon = i - 12 * year;
    assert(mon == (i as int) % 12);
    let k = if mon < 2 {
        year - 1
    } else {
        year
    };
    year_days_exec(k) + day_offset_exec(mon) + 1 - 1 - 25508
}

/// The index of the month that holds a day.
fn month_index_of_day(d: i64) -> (i: i64)
    requires
        -200_000_000 <= d <= 200_000_000,
    ensures
        month_holds(i as int, d as int),
        i as int == month_of_day(d as int),
        -10_000_000 <= i <= 10_000_000,
{
    let c = floor_div(d, 146097);
    assert(-1400 <= c <= 1400) by (nonlinear_arith)
        requires
            d - 146097 * c >= 0,
            d - 146097 * c < 146097,
            -200_000_000 <= d <= 200_000_000,
    ;
    let base = 840 + 4800 * c;
    proof {
        lemma_eras(c as int);
    }
    let mut i = base;
    while month_start_exec(i + 1) <= d
        invariant
            base == 840 + 4800 * c,
            month_start(base as int) == 146097 * c,
            d - 146097 * c < 146097,
            -200_000_000 <= d <= 200_000_000,
            -1400 <= c <= 1400,
            base <= i < base + 4800,
            month_start(i as int) <= d,
        decreases d - month_start(i as int),
    {
        proof {
            lemma_month_step(i as int);
            lemma_era(base as int);
            if i + 1 >= base + 4800 {
                lemma_month_spread(base + 4800, i + 1);
            }
        }
        i = i + 1;
    }
    proof {
        lemma_month_step(i as int);
        lemma_month_unique(i as int, month_of_day(d as int), d as int);
    }
    i
}


/// Division that rounds toward zero, as C divides.
pub open spec fn c_div(a: int, b: int) -> int {
    if a >= 0 {
        a / b
    } else {
        -((-a) / b)
    }
}

/// The remainder of division that rounds toward zero, as C takes it.
pub open spec fn c_rem(a: int, b: int) -> int {
    a - b * c_div(a, b)
}

/// The whole seconds of a time in microseconds, rounded toward zero.
pub open spec fn time_seconds(t: i64) -> int {
    c_div(t as int, 1_000_000)
}

/// The calendar fields of a time in GMT: the year from 1900, the month
/// from January (0), the day of the month, the time of day, and the day of
/// the week from Sunday (0).
pub struct Exploded {
    pub year: int,
    pub mon: int,
    pub mday: int,
    pub hour: int,
    pub min: int,
    pub sec: int,
    pub wday: int,
}

/// The calendar fields of a time in GMT.
pub open spec fn explode_gmt(t: i64) -> Exploded {
    let tt = time_seconds(t);
    let d = tt / 86400;
    let s = tt % 86400;
    let i = month_of_day(d);
    Exploded {
        year: i / 12,
        mon: i % 12,
        mday: d - month_start(i) + 1,
        hour: s / 3600,
        min: s % 3600 / 60,
        sec: s % 60,
        wday: (d + 4) % 7,
    }
}

/// The calendar fields as code.
struct ExplodedFields {
    year: i64,
    mon: i64,
    mday: i64,
    hour: i64,
    min: i64,
    sec: i64,
    wday: i64,
}

impl ExplodedFields {
    spec fn model(&self) -> Exploded {
        Exploded {
            year: self.year as int,
            mon: self.mon as int,
            mday: self.mday as int,
            hour: self.hour as int,
            min: self.min as int,
            sec: self.sec as int,
            wday: self.wday as int,
        }
    }
}

/// The whole seconds of a time, as code.
fn seconds_of(t: i64) -> (r: i64)
    ensures
        r == time_seconds(t),
        -10_000_000_000_000 <= r <= 10_000_000_000_000,
{
    if t >= 0 {
        t / 1_000_000
    } else {
        let u: i128 = -(t as i128);
        let q: i128 = u / 1_000_000;
        -(q as i64)
    }
}

/// The calendar fields of a time in GMT, as code.
fn explode(t: i64) -> (r: ExplodedFields)
    ensures
        r.model() == explode_gmt(t),
        0 <= r.mon < 12,
        1 <= r.mday <= 31,
        0 <= r.hour < 24,
        0 <= r.min < 60,
        0 <= r.sec < 60,
        0 <= r.wday < 7,
        -1_000_000 <= r.year <= 1_000_000,
{
    let tt = seconds_of(t);
    let d = floor_div(tt, 86400);
    let s = tt - 86400 * d;
    assert(-200_000_000 <= d <= 200_000_000) by (nonlinear_arith)
        requires
            tt - 86400 * d >= 0,
            tt - 86400 * d < 86400,
            -10_000_000_000_000 <= tt <= 10_000_000_000_000,
    ;
    assert(s == (tt as int) % 86400) by {
        vstd::arithmetic::div_mod::lemma_fundamental_div_mod_converse_mod(
            tt as int,
            86400,
            d as int,
            s as int,
        );
    }
    let i = month_index_of_day(d);
    let year = floor_div(i, 12);
    let mon = i - 12 * year;
    assert(mon == (i as int) % 12);
    let start = month_start_exec(i);
    let w = floor_div(d + 4, 7);
    let wday = d + 4 - 7 * w;
    assert(wday == (d + 4) % 7) by {
        vstd::arithmetic::div_mod::lemma_fundamental_div_mod_converse_mod(
            (d + 4) as int,
            7,
            w as int,
            wday as int,
        );
    }
    proof {
        lemma_month_step(i as int);
    }
    ExplodedFields {
        year,
        mon,
        mday: d - start + 1,
        hour: s / 3600,
        min: s % 3600 / 60,
        sec: s % 60,
        wday,
    }
}

/// The abbreviated name of a day of the week (0 for Sunday).
pub open spec fn day_name(w: int) -> Seq<u8> {
    if w == 0 {
        seq![83u8, 117u8, 110u8]
    } else if w == 1 {
        seq![77u8, 111u8, 110u8]
    } else if w == 2 {
        seq![84u8, 117u8, 101u8]
    } else if w == 3 {
        seq![87u8, 101u8, 100u8]
    } else if w == 4 {
        seq![84u8, 104u8, 117u8]
    } else if w == 5 {
        seq![70u8, 114u8, 105u8]
    } else {
        seq![83u8, 97u8, 116u8]
    }
}

/// The abbreviated name of a month (0 for January).
pub open spec fn month_name(m: int) -> Seq<u8> {
    if m == 0 {
        seq![74u8, 97u8, 110u8]
    } else if m == 1 {
        seq![70u8, 101u8, 98u8]
    } else if m == 2 {
        seq![77u8, 97u8, 114u8]
    } else if m == 3 {
        seq![65u8, 112u8, 114u8]
    } else if m == 4 {
        seq![77u8, 97u8, 121u8]
    } else if m == 5 {
        seq![74u8, 117u8, 110u8]
    } else if m == 6 {
        seq![74u8, 117u8, 108u8]
    } else if m == 7 {
        seq![65u8, 117u8, 103u8]
    } else if m == 8 {
        seq![83u8, 101u8, 112u8]
    } else if m == 9 {
        seq![79u8, 99u8, 116u8]
    } else if m == 10 {
        seq![78u8, 111u8, 118u8]
    } else {
        seq![68u8, 101u8, 99u8]
    }
}

/// The digit character of a value, as C computes it: `'0'` plus the value,
/// kept to a byte.
pub open spec fn digit_byte(v: int) -> u8 {
    (48 + v) as u8
}

/// The two digits of a value below 100.
pub open spec fn two_digits(v: int) -> Seq<u8> {
    seq![digit_byte(v / 10), digit_byte(v % 10)]
}

/// The four digits of a year, as C computes them (a year outside 0..9999
/// gives other characters).
pub open spec fn year_digits(y: int) -> Seq<u8> {
    seq![
        digit_byte(c_div(y, 1000)),
        digit_byte(c_div(c_rem(y, 1000), 100)),
        digit_byte(c_div(c_rem(y, 100), 10)),
        digit_byte(c_rem(y, 10)),
    ]
}

/// A time in the format of RFC 822: `Sun, 06 Nov 1994 08:49:37 GMT`.
pub open spec fn rfc822_bytes(t: i64) -> Seq<u8> {
    let e = explode_gmt(t);
    day_name(e.wday) + seq![44u8, 32u8] + two_digits(e.mday) + seq![32u8] + month_name(e.mon)
        + seq![32u8] + year_digits(e.year + 1900) + seq![32u8] + two_digits(e.hour) + seq![58u8]
        + two_digits(e.min) + seq![58u8] + two_digits(e.sec) + seq![32u8, 71u8, 77u8, 84u8]
}

/// A time in the format of `ctime`: `Sun Nov 06 08:49:37 1994`.
pub open spec fn ctime_bytes(t: i64) -> Seq<u8> {
    let e = explode_gmt(t);
    day_name(e.wday) + seq![32u8] + month_name(e.mon) + seq![32u8] + two_digits(e.mday) + seq![
        32u8,
    ] + two_digits(e.hour) + seq![58u8] + two_digits(e.min) + seq![58u8] + two_digits(e.sec)
        + seq![32u8] + year_digits(e.year + 1900)
}

/// Appends the name of a day of the week.
fn push_day_name(out: &mut Vec<u8>, w: i64)
    requires
        0 <= w < 7,
    ensures
        final(out)@ == old(out)@ + day_name(w as int),
{
    if w == 0 {
        out.push(83u8); out.push(117u8); out.push(110u8);
    } else if w == 1 {
        out.push(77u8); out.push(111u8); out.push(110u8);
    } else if w == 2 {
        out.push(84u8); out.push(117u8); out.push(101u8);
    } else if w == 3 {
        out.push(87u8); out.push(101u8); out.push(100u8);
    } else if w == 4 {
        out.push(84u8); out.push(104u8); out.push(117u8);
    } else if w == 5 {
        out.push(70u8); out.push(114u8); out.push(105u8);
    } else {
        out.push(83u8); out.push(97u8); out.push(116u8);
    }
    proof {
        assert(out@ =~= old(out)@ + day_name(w as int));
    }
}

/// Appends the name of a month.
pub(crate) fn push_month_name(out: &mut Vec<u8>, m: i64)
    requires
        0 <= m < 12,
    ensures
        final(out)@ == old(out)@ + month_name(m as int),
{
    if m == 0 {
        out.push(74u8); out.push(97u8); out.push(110u8);
    } else if m == 1 {
        out.push(70u8); out.push(101u8); out.push(98u8);
    } else if m == 2 {
        out.push(77u8); out.push(97u8); out.push(114u8);
    } else if m == 3 {
        out.push(65u8); out.push(112u8); out.push(114u8);
    } else if m == 4 {
        out.push(77u8); out.push(97u8); out.push(121u8);
    } else if m == 5 {
        out.push(74u8); out.push(117u8); out.push(110u8);
    } else if m == 6 {
        out.push(74u8); out.push(117u8); out.push(108u8);
    } else if m == 7 {
        out.push(65u8); out.push(117u8); out.push(103u8);
    } else if m == 8 {
        out.push(83u8); out.push(101u8); out.push(112u8);
    } else if m == 9 {
        out.push(79u8); out.push(99u8); out.push(116u8);
    } else if m == 10 {
        out.push(78u8); out.push(111u8); out.push(118u8);
    } else {
        out.push(68u8); out.push(101u8); out.push(99u8);
    }
    proof {
        assert(out@ =~= old(out)@ + month_name(m as int));
    }
}

/// Appends the two digits of a value below 100.
fn push_two_digits(out: &mut Vec<u8>, v: i64)
    requires
        0 <= v < 100,
    ensures
        final(out)@ == old(out)@ + two_digits(v as int),
{
    out.push((48 + v / 10) as u8);
    out.push((48 + v % 10) as u8);
    proof {
        assert(out@ =~= old(out)@ + two_digits(v as int));
    }
}

/// Appends the four digits of a year, as C computes them.
fn push_year_digits(out: &mut Vec<u8>, y: i64)
    requires
        -2_000_000 <= y <= 2_000_000,
    ensures
        final(out)@ == old(out)@ + year_digits(y as int),
{
    let a: i64 = if y >= 0 {
        y
    } else {
        -y
    };
    let sign: i64 = if y >= 0 {
        1
    } else {
        -1
    };
    let d0 = sign * (a / 1000);
    let r0 = sign * (a % 1000);
    let d1 = sign * (a % 1000 / 100);
    let r1 = sign * (a % 100);
    let d2 = sign * (a % 100 / 10);
    let d3 = sign * (a % 10);
    proof {
        let yi = y as int;
        assert(c_div(yi, 1000) == d0);
        assert(c_rem(yi, 1000) == r0);
        assert(c_div(c_rem(yi, 1000), 100) == d1);
        assert(c_rem(yi, 100) == r1);
        assert(c_div(c_rem(yi, 100), 10) == d2);
        assert(c_rem(yi, 10) == d3);
    }
    out.push((48 + d0) as u8);
    out.push((48 + d1) as u8);
    out.push((48 + d2) as u8);
    out.push((48 + d3) as u8);
    proof {
        assert(out@ =~= old(out)@ + year_digits(y as int));
    }
}



/// A time rendered in the format of RFC 822, as bytes.
fn render_rfc822(t: i64) -> (r: Vec<u8>)
    ensures
        r@ == rfc822_bytes(t),
{
    let e = explode(t);
    let mut out: Vec<u8> = Vec::new();
    push_day_name(&mut out, e.wday);
    out.push(44u8);
    out.push(32u8);
    push_two_digits(&mut out, e.mday);
    out.push(32u8);
    push_month_name(&mut out, e.mon);
    out.push(32u8);
    push_year_digits(&mut out, e.year + 1900);
    out.push(32u8);
    push_two_digits(&mut out, e.hour);
    out.push(58u8);
    push_two_digits(&mut out, e.min);
    out.push(58u8);
    push_two_digits(&mut out, e.sec);
    out.push(32u8);
    out.push(71u8);
    out.push(77u8);
    out.push(84u8);
    proof {
        assert(out@ =~= rfc822_bytes(t));
    }
    out
}

/// A time rendered in the format of `ctime`, as bytes.
fn render_ctime(t: i64) -> (r: Vec<u8>)
    ensures
        r@ == ctime_bytes(t),
{
    let e = explode(t);
    let mut out: Vec<u8> = Vec::new();
    push_day_name(&mut out, e.wday);
    out.push(32u8);
    push_month_name(&mut out, e.mon);
    out.push(32u8);
    push_two_digits(&mut out, e.mday);
    out.push(32u8);
    push_two_digits(&mut out, e.hour);
    out.push(58u8);
    push_two_digits(&mut out, e.min);
    out.push(58u8);
    push_two_digits(&mut out, e.sec);
    out.push(32u8);
    push_year_digits(&mut out, e.year + 1900);
    proof {
        assert(out@ =~= ctime_bytes(t));
    }
    out
}

/// Time in microseconds since the epoch.
#[derive(Debug, Clone, Copy, PartialEq, Eq, Structural, PartialOrd, Ord, Hash)]
pub struct Time(i64);

impl Time {
    /// The microseconds since the epoch.
    pub closed spec fn spec_micros(&self) -> i64 {
        self.0
    }

    /// Returns the current time, from the system clock.
    pub fn now() -> (r: Self) {
        let since = duration_since_epoch(&system_now());
        Time(time_of_reading(since))
    }

    /// Create a Time from microseconds since the Unix epoch.
    pub fn from_micros(micros: i64) -> (r: Self)
        ensures
            r.spec_micros() == micros,
    {
        Time(micros)
    }

    /// Get the time as microseconds since the Unix epoch.
    pub fn as_micros(&self) -> (r: i64)
        ensures
            r == self.spec_micros(),
    {
        self.0
    }

    /// Returns the time as a string in the format `Sun Nov 06 08:49:37 1994`,
    /// in GMT.
    pub fn ctime(&self) -> (r: String)
        ensures
            r@ == crate::text::utf8_lossy(ctime_bytes(self.spec_micros())),
            vstd::utf8::valid_utf8(ctime_bytes(self.spec_micros())) ==> r@
                == vstd::utf8::decode_utf8(ctime_bytes(self.spec_micros())),
    {
        let bytes = render_ctime(self.0);
        string_from_utf8_lossy(bytes.as_slice())
    }

    /// Returns the time as a string in the format `Sun, 06 Nov 1994 08:49:37 GMT`.
    pub fn rfc822_date(&self) -> (r: String)
        ensures
            r@ == crate::text::utf8_lossy(rfc822_bytes(self.spec_micros())),
            vstd::utf8::valid_utf8(rfc822_bytes(self.spec_micros())) ==> r@
                == vstd::utf8::decode_utf8(rfc822_bytes(self.spec_micros())),
    {
        let bytes = render_rfc822(self.0);
        string_from_utf8_lossy(bytes.as_slice())
    }
}

impl From<i64> for Time {
    fn from(time: i64) -> (r: Self) {
        Time(time)
    }
}

impl FromSpecImpl<i64> for Time {
    open spec fn obeys_from_spec() -> bool {
        true
    }

    closed spec fn from_spec(v: i64) -> Self {
        Time(v)
    }
}

impl From<Time> for i64 {
    fn from(time: Time) -> (r: Self) {
        time.0
    }
}

impl FromSpecImpl<Time> for i64 {
    open spec fn obeys_from_spec() -> bool {
        true
    }

    closed spec fn from_spec(v: Time) -> Self {
        v.0
    }
}

/// Trait for types that can be converted into a `Time`.
pub trait IntoTime {
    /// Converts the value into a `Time`.
    fn as_apr_time(&self) -> Time;
}

// ---------------------------------------------------------------------------
// System time
// ---------------------------------------------------------------------------

#[verifier::external_type_specification]
#[verifier::external_body]
pub struct ExSystemTime(std::time::SystemTime);

/// The current time of the system clock.
///
/// Calls `SystemTime::now`; nothing is stated of what it returns.
#[verifier::external_body]
fn system_now() -> (r: std::time::SystemTime) {
    std::time::SystemTime::now()
}

/// The whole seconds and the nanoseconds by which a system time lies
/// after the epoch (`Ok`), or before it (`Err`), as
/// `SystemTime::duration_since(UNIX_EPOCH)` gives them.
pub uninterp spec fn since_epoch_of(t: std::time::SystemTime) -> Result<(u64, u32), (u64, u32)>;

/// The system time that many seconds and nanoseconds after the epoch, as
/// `UNIX_EPOCH + Duration::new(secs, nanos)` gives it.
pub uninterp spec fn system_time_at(secs: u64, nanos: u32) -> std::time::SystemTime;

/// The whole seconds and the nanoseconds of a system time after the epoch
/// (`Ok`), or of how far it lies before the epoch (`Err`).
///
/// Calls `SystemTime::duration_since` with the epoch, and hands over the
/// duration (or, before the epoch, the error's duration) as its seconds and
/// its nanoseconds below a second; the result is named [`since_epoch_of`],
/// and the documentation of `Duration::subsec_nanos` states that the
/// nanoseconds are below one billion.
#[verifier::external_body]
fn duration_since_epoch(t: &std::time::SystemTime) -> (r: Result<(u64, u32), (u64, u32)>)
    ensures
        r == since_epoch_of(*t),
        r matches Ok((_, n)) ==> n < 1_000_000_000,
        r matches Err((_, n)) ==> n < 1_000_000_000,
{
    match t.duration_since(std::time::UNIX_EPOCH) {
        Ok(d) => Ok((d.as_secs(), d.subsec_nanos())),
        Err(e) => Err((e.duration().as_secs(), e.duration().subsec_nanos())),
    }
}

/// The system time that many seconds and nanoseconds after the epoch.
///
/// Adds `Duration::new(secs, nanos)` to `UNIX_EPOCH`; the result is named
/// [`system_time_at`]. With the nanoseconds below one billion,
/// `Duration::new` does not carry, and with the seconds bounded the sum
/// does not overflow.
#[verifier::external_body]
fn epoch_plus(secs: u64, nanos: u32) -> (r: std::time::SystemTime)
    requires
        nanos < 1_000_000_000,
        secs <= 18_446_744_073_709,
    ensures
        r == system_time_at(secs, nanos),
{
    std::time::UNIX_EPOCH + std::time::Duration::new(secs, nanos)
}

/// The microseconds of a duration given as seconds and nanoseconds.
pub open spec fn micros_of(secs: u64, nanos: u32) -> int {
    secs * 1_000_000 + nanos / 1000
}

/// The microseconds of a duration, cut to a time as a machine cast does.
pub fn micros_as_time(secs: u64, nanos: u32) -> (r: i64)
    ensures
        r == micros_of(secs, nanos) as i64,
{
    let us: u128 = (secs as u128) * 1_000_000 + ((nanos / 1000) as u128);
    us as i64
}

/// The microseconds of a duration given as seconds and nanoseconds, a
/// part of a microsecond counted as a whole one.
pub open spec fn micros_ceil_of(secs: u64, nanos: u32) -> int {
    secs * 1_000_000 + (nanos + 999) / 1000
}

/// A time that many seconds and nanoseconds before the epoch, in whole
/// microseconds rounded down (toward the past), as the system clock's
/// seconds and microseconds give it.
pub fn micros_before_epoch(secs: u64, nanos: u32) -> (r: i64)
    ensures
        r == (-micros_ceil_of(secs, nanos)) as i64,
{
    let us: i128 = (secs as i128) * 1_000_000 + (((nanos as u64 + 999) / 1000) as i128);
    (-us) as i64
}

/// The time that a reading of the clock gives: the microseconds after the
/// epoch, or, for a reading before the epoch, the microseconds before it
/// rounded toward the past.
pub fn time_of_reading(since: Result<(u64, u32), (u64, u32)>) -> (r: i64)
    ensures
        since matches Ok((s, n)) ==> r == micros_of(s, n) as i64,
        since matches Err((s, n)) ==> r == (-micros_ceil_of(s, n)) as i64,
{
    match since {
        Ok((secs, nanos)) => micros_as_time(secs, nanos),
        Err((secs, nanos)) => micros_before_epoch(secs, nanos),
    }
}

/// The time of a duration since the epoch: zero for a time before the
/// epoch, else its microseconds cut to a time.
pub open spec fn spec_apr_time_of_duration(since: Result<(u64, u32), (u64, u32)>) -> i64 {
    match since {
        Ok((s, n)) => micros_of(s, n) as i64,
        Err(_) => 0,
    }
}

/// The time of a duration since the epoch: zero for a time before the
/// epoch, else its microseconds cut to a time.
pub fn apr_time_of_duration(since: Result<(u64, u32), (u64, u32)>) -> (r: i64)
    ensures
        r == spec_apr_time_of_duration(since),
{
    match since {
        Ok((secs, nanos)) => micros_as_time(secs, nanos),
        Err(_) => 0,
    }
}

/// Convert SystemTime to apr_time_t (microseconds since Unix epoch); a time
/// before the epoch gives zero.
pub fn to_apr_time(system_time: std::time::SystemTime) -> (r: i64)
    ensures
        r == spec_apr_time_of_duration(since_epoch_of(system_time)),
{
    apr_time_of_duration(duration_since_epoch(&system_time))
}

/// The seconds and nanoseconds of a time taken as an unsigned count of
/// microseconds, as a machine cast does.
pub open spec fn spec_duration_of_apr_time(apr_time: i64) -> (u64, u32) {
    (((apr_time as u64) / 1_000_000) as u64, (((apr_time as u64) % 1_000_000) * 1000) as u32)
}

/// The seconds and nanoseconds of a time taken as an unsigned count of
/// microseconds, as a machine cast does.
pub fn duration_of_apr_time(apr_time: i64) -> (r: (u64, u32))
    ensures
        r == spec_duration_of_apr_time(apr_time),
        r.1 < 1_000_000_000,
        r.0 <= 18_446_744_073_709,
{
    let us = apr_time as u64;
    (us / 1_000_000, ((us % 1_000_000) * 1000) as u32)
}

/// A time not before the epoch, taken to seconds and nanoseconds and back,
/// is the same time; a time before the epoch converts to zero.
pub proof fn law_apr_time_round_trip(t: i64, d: (u64, u32))
    ensures
        t >= 0 ==> spec_apr_time_of_duration(Ok(spec_duration_of_apr_time(t))) == t,
        spec_apr_time_of_duration(Err(d)) == 0,
{
    if t >= 0 {
        let u = t as u64;
        assert(u == t);
        let s = (u / 1_000_000) as u64;
        let n = ((u % 1_000_000) * 1000) as u32;
        assert(spec_duration_of_apr_time(t) == (s, n));
        assert(n / 1000 == u % 1_000_000);
        assert(s * 1_000_000 + u % 1_000_000 == u);
        assert(micros_of(s, n) == t);
    }
}

/// Of two durations since the epoch that fit a time, the later one never
/// converts to an earlier time.
pub proof fn law_apr_time_monotone(a: (u64, u32), b: (u64, u32))
    requires
        a.1 < 1_000_000_000,
        b.1 < 1_000_000_000,
        a.0 < b.0 || (a.0 == b.0 && a.1 <= b.1),
        micros_of(b.0, b.1) <= i64::MAX,
    ensures
        spec_apr_time_of_duration(Ok(a)) <= spec_apr_time_of_duration(Ok(b)),
{
    assert(a.1 / 1000 < 1_000_000);
    assert(b.1 / 1000 < 1_000_000);
    if a.0 < b.0 {
        assert(a.0 * 1_000_000 + 1_000_000 <= b.0 * 1_000_000) by (nonlinear_arith)
            requires
                a.0 < b.0,
        ;
    } else {
        assert(a.1 / 1000 <= b.1 / 1000) by (nonlinear_arith)
            requires
                a.1 <= b.1,
        ;
    }
    assert(0 <= micros_of(a.0, a.1) <= micros_of(b.0, b.1));
}

/// Convert apr_time_t to SystemTime: the epoch plus the time taken as an
/// unsigned count of microseconds.
pub fn to_system_time(apr_time: i64) -> (r: std::time::SystemTime)
    ensures
        r == system_time_at(
            spec_duration_of_apr_time(apr_time).0,
            spec_duration_of_apr_time(apr_time).1,
        ),
{
    let (secs, nanos) = duration_of_apr_time(apr_time);
    epoch_plus(secs, nanos)
}

impl From<std::time::SystemTime> for Time {
    fn from(system_time: std::time::SystemTime) -> (r: Self)
        ensures
            r.spec_micros() == spec_apr_time_of_duration(since_epoch_of(system_time)),
    {
        Time(to_apr_time(system_time))
    }
}

impl FromSpecImpl<std::time::SystemTime> for Time {
    open spec fn obeys_from_spec() -> bool {
        true
    }

    closed spec fn from_spec(v: std::time::SystemTime) -> Self {
        Time(spec_apr_time_of_duration(since_epoch_of(v)))
    }
}

impl From<Time> for std::time::SystemTime {
    fn from(time: Time) -> (r: Self)
        ensures
            r == system_time_at(
                spec_duration_of_apr_time(time.spec_micros()).0,
                spec_duration_of_apr_time(time.spec_micros()).1,
            ),
    {
        to_system_time(time.0)
    }
}

impl FromSpecImpl<Time> for std::time::SystemTime {
    open spec fn obeys_from_spec() -> bool {
        true
    }

    open spec fn from_spec(v: Time) -> Self {
        system_time_at(
            spec_duration_of_apr_time(v.spec_micros()).0,
            spec_duration_of_apr_time(v.spec_micros()).1,
        )
    }
}

} // verus!
