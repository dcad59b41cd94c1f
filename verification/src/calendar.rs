//! Proleptic Gregorian calendar dates of UTC timestamps, and their "YYYYMMDD" writing.
use chrono::{DateTime, Datelike};
use vstd::prelude::*;
use crate::decimal::{padded_digits, push_u64_padded, all_digits, digits_value, is_digit, lemma_padded_digits, lemma_nat_digits, lemma_digits_injective};

verus! {

pub open spec fn is_leap_year(y: int) -> bool {
    (y % 4 == 0 && y % 100 != 0) || y % 400 == 0
}

pub open spec fn days_in_month(y: int, m: int) -> int {
    if m == 2 {
        if is_leap_year(y) { 29 } else { 28 }
    } else if m == 4 || m == 6 || m == 9 || m == 11 {
        30
    } else {
        31
    }
}

/// Days of year `y` that precede the first day of month `m`.
pub open spec fn days_before_month(y: int, m: int) -> int {
    let common: int = if m <= 1 { 0 }
        else if m == 2 { 31 }
        else if m == 3 { 59 }
        else if m == 4 { 90 }
        else if m == 5 { 120 }
        else if m == 6 { 151 }
        else if m == 7 { 181 }
        else if m == 8 { 212 }
        else if m == 9 { 243 }
        else if m == 10 { 273 }
        else if m == 11 { 304 }
        else { 334 };
    if m > 2 && is_leap_year(y) { common + 1 } else { common }
}

/// A well-formed calendar date.
pub open spec fn valid_civil(y: int, m: int, d: int) -> bool {
    1 <= m <= 12 && 1 <= d <= days_in_month(y, m)
}

/// Days from 1970-01-01 to the date `y-m-d` of the proleptic Gregorian calendar.
pub open spec fn days_from_civil(y: int, m: int, d: int) -> int {
    let p = y - 1;
    365 * p + p / 4 - p / 100 + p / 400 + days_before_month(y, m) + d - 719163
}

pub const MILLIS_PER_DAY: i64 = 86_400_000;

/// Bound on timestamps, about 253,000 years either side of 1970, within which a UTC
/// date always exists.
pub const MILLIS_RANGE: i64 = 8_000_000_000_000_000;

/// The (year, month, day) that chrono gives for a UTC timestamp in milliseconds,
/// or `None` when chrono cannot represent it.
pub uninterp spec fn chrono_utc_date(millis: i64) -> Option<(int, int, int)>;

/// Whether chrono can represent the timestamp (`DateTime::from_timestamp_millis` is `Some`).
pub open spec fn utc_millis_valid(millis: i64) -> bool {
    chrono_utc_date(millis) is Some
}

/// The UTC calendar date of a timestamp, from `chrono::DateTime::from_timestamp_millis`
/// and the `Datelike` accessors. The contract claims that the date is a valid date of
/// the proleptic Gregorian calendar, that it is the date of day `millis / 86_400_000`
/// counted from 1970-01-01, and that every timestamp within `MILLIS_RANGE` has one.
#[verifier::external_body]
pub(crate) fn utc_date_from_millis(millis: i64) -> (r: Option<(i32, u32, u32)>)
    ensures
        r is None ==> chrono_utc_date(millis) is None,
        r matches Some(t) ==> chrono_utc_date(millis) == Some((t.0 as int, t.1 as int, t.2 as int)),
        r matches Some(t) ==> valid_civil(t.0 as int, t.1 as int, t.2 as int),
        r matches Some(t) ==> days_from_civil(t.0 as int, t.1 as int, t.2 as int)
            == millis as int / MILLIS_PER_DAY as int,
        -MILLIS_RANGE <= millis <= MILLIS_RANGE ==> r is Some,
{
    match DateTime::from_timestamp_millis(millis) {
        Some(dt) => Some((dt.year(), dt.month(), dt.day())),
        None => None,
    }
}

/// Whether chrono can represent the timestamp.
pub fn millis_is_valid(millis: i64) -> (r: bool)
    ensures
        r == utc_millis_valid(millis),
{
    utc_date_from_millis(millis).is_some()
}

/// What the chrono call establishes of a timestamp: it has a valid date, and that date
/// is day `millis / 86_400_000` counted from 1970-01-01.
pub open spec fn chrono_date_facts(millis: i64) -> bool {
    chrono_utc_date(millis) is Some && {
        let t = chrono_utc_date(millis)->0;
        valid_civil(t.0, t.1, t.2) && days_from_civil(t.0, t.1, t.2) == millis as int / MILLIS_PER_DAY as int
    }
}

/// A year as chrono's `%Y` writes it: four digits for years 0..=9999, otherwise a sign
/// followed by at least four digits.
pub open spec fn year_text(y: int) -> Seq<char> {
    if 0 <= y <= 9999 {
        padded_digits(y as nat, 4)
    } else if y > 9999 {
        seq!['+'] + padded_digits(y as nat, 4)
    } else {
        seq!['-'] + padded_digits((-y) as nat, 4)
    }
}

/// A date written as `%Y%m%d`.
pub open spec fn ymd_text(y: int, m: int, d: int) -> Seq<char> {
    year_text(y) + padded_digits(m as nat, 2) + padded_digits(d as nat, 2)
}

/// The `%Y%m%d` writing of the UTC date of a timestamp.
pub open spec fn utc_ymd_text(millis: i64) -> Seq<char> {
    let t = chrono_utc_date(millis)->0;
    ymd_text(t.0, t.1, t.2)
}

/// Appends the `%Y%m%d` writing of the UTC date of `millis`.
pub fn push_utc_ymd(out: &mut Vec<char>, millis: i64)
    requires
        -MILLIS_RANGE <= millis <= MILLIS_RANGE,
    ensures
        final(out)@ == old(out)@ + utc_ymd_text(millis),
        chrono_date_facts(millis),
{
    let date = utc_date_from_millis(millis);
    let (y, m, d) = match date {
        Some(t) => t,
        None => {
            proof { assert(false); }
            (0, 1, 1)
        },
    };
    let ghost start = out@;
    if 0 <= y && y <= 9999 {
        push_u64_padded(out, y as u64, 4);
    } else if y > 9999 {
        out.push('+');
        push_u64_padded(out, y as u64, 4);
    } else {
        out.push('-');
        let ny: i64 = -(y as i64);
        push_u64_padded(out, ny as u64, 4);
    }
    assert(out@ =~= start + year_text(y as int));
    push_u64_padded(out, m as u64, 2);
    push_u64_padded(out, d as u64, 2);
    assert(out@ =~= start + utc_ymd_text(millis));
}


fn push_year(out: &mut Vec<char>, y: i32)
    ensures
        final(out)@ == old(out)@ + year_text(y as int),
{
    let ghost start = out@;
    if 0 <= y && y <= 9999 {
        push_u64_padded(out, y as u64, 4);
    } else if y > 9999 {
        out.push('+');
        push_u64_padded(out, y as u64, 4);
    } else {
        out.push('-');
        let ny: i64 = -(y as i64);
        push_u64_padded(out, ny as u64, 4);
    }
    assert(out@ =~= start + year_text(y as int));
}

/// `%H:%M:%S` of a count of seconds within a day.
pub open spec fn time_of_day_text(secs: int) -> Seq<char> {
    padded_digits((secs / 3600) as nat, 2) + seq![':'] + padded_digits(((secs % 3600) / 60) as nat, 2)
        + seq![':'] + padded_digits((secs % 60) as nat, 2)
}

fn push_time_of_day(out: &mut Vec<char>, secs: u64)
    ensures
        final(out)@ == old(out)@ + time_of_day_text(secs as int),
{
    let ghost start = out@;
    push_u64_padded(out, secs / 3600, 2);
    out.push(':');
    push_u64_padded(out, (secs % 3600) / 60, 2);
    out.push(':');
    push_u64_padded(out, secs % 60, 2);
    assert(out@ =~= start + time_of_day_text(secs as int));
}

/// A UTC timestamp as chrono's `%Y-%m-%d %H:%M:%S UTC`.
pub open spec fn utc_datetime_text(millis: i64) -> Seq<char> {
    let t = chrono_utc_date(millis)->0;
    let secs = (millis as int % MILLIS_PER_DAY as int) / 1000;
    year_text(t.0) + seq!['-'] + padded_digits(t.1 as nat, 2) + seq!['-'] + padded_digits(t.2 as nat, 2)
        + seq![' '] + time_of_day_text(secs) + " UTC"@
}

/// Appends the `%Y-%m-%d %H:%M:%S UTC` writing of a timestamp.
pub fn push_utc_datetime(out: &mut Vec<char>, millis: i64)
    requires
        -MILLIS_RANGE <= millis <= MILLIS_RANGE,
    ensures
        final(out)@ == old(out)@ + utc_datetime_text(millis),
{
    let date = utc_date_from_millis(millis);
    let (y, m, d) = match date {
        Some(t) => t,
        None => {
            proof { assert(false); }
            (0, 1, 1)
        },
    };
    let ghost start = out@;
    push_year(out, y);
    out.push('-');
    push_u64_padded(out, m as u64, 2);
    out.push('-');
    push_u64_padded(out, d as u64, 2);
    out.push(' ');
    let ghost mid = out@;
    let in_day: i64 = millis % MILLIS_PER_DAY;
    let in_day: i64 = if in_day < 0 { in_day + MILLIS_PER_DAY } else { in_day };
    assert(in_day as int == millis as int % MILLIS_PER_DAY as int);
    let secs: u64 = (in_day / 1000) as u64;
    push_time_of_day(out, secs);
    crate::text::push_str(out, " UTC");
    assert(out@ =~= start + utc_datetime_text(millis));
}


/// What chrono's `DateTime::to_rfc3339` writes for a timestamp.
pub uninterp spec fn chrono_rfc3339(millis: i64) -> Seq<char>;

/// `DateTime::from_timestamp_millis(millis)` then `to_rfc3339()`. The contract names
/// the text; timestamps are kept within `MILLIS_RANGE`, where the date exists.
#[verifier::external_body]
pub(crate) fn rfc3339_of_millis(millis: i64) -> (r: String)
    requires
        -MILLIS_RANGE <= millis <= MILLIS_RANGE,
    ensures
        r@ == chrono_rfc3339(millis),
{
    match DateTime::from_timestamp_millis(millis) {
        Some(dt) => dt.to_rfc3339(),
        None => String::new(),
    }
}


proof fn lemma_year_text_shape(y: int)
    ensures
        0 <= y <= 9999 ==> year_text(y).len() == 4 && all_digits(year_text(y)) && digits_value(year_text(y)) == y,
        y > 9999 ==> year_text(y)[0] == '+' && all_digits(year_text(y).drop_first())
            && digits_value(year_text(y).drop_first()) == y,
        y < 0 ==> year_text(y)[0] == '-' && all_digits(year_text(y).drop_first())
            && digits_value(year_text(y).drop_first()) == -y,
        year_text(y).len() >= 4,
{
    if 0 <= y <= 9999 {
        lemma_nat_digits(y as nat);
        lemma_padded_digits(y as nat, 4);
    } else if y > 9999 {
        lemma_padded_digits(y as nat, 4);
        assert(year_text(y).drop_first() =~= padded_digits(y as nat, 4));
    } else {
        lemma_padded_digits((-y) as nat, 4);
        assert(year_text(y).drop_first() =~= padded_digits((-y) as nat, 4));
    }
}

proof fn lemma_year_text_injective(a: int, b: int)
    requires
        year_text(a) == year_text(b),
    ensures
        a == b,
{
    lemma_year_text_shape(a);
    lemma_year_text_shape(b);
    let ta = year_text(a);
    if 0 <= a <= 9999 {
        assert(is_digit(ta[0]));
    }
    if 0 <= b <= 9999 {
        assert(is_digit(year_text(b)[0]));
    }
}

proof fn lemma_two_digits(n: nat)
    requires
        n < 100,
    ensures
        padded_digits(n, 2).len() == 2,
        all_digits(padded_digits(n, 2)),
        digits_value(padded_digits(n, 2)) == n,
{
    lemma_nat_digits(n);
    lemma_padded_digits(n, 2);
}

/// Two valid dates with the same `%Y%m%d` writing are the same date.
pub proof fn lemma_ymd_text_injective(y1: int, m1: int, d1: int, y2: int, m2: int, d2: int)
    requires
        valid_civil(y1, m1, d1),
        valid_civil(y2, m2, d2),
        ymd_text(y1, m1, d1) == ymd_text(y2, m2, d2),
    ensures
        y1 == y2 && m1 == m2 && d1 == d2,
{
    lemma_two_digits(m1 as nat);
    lemma_two_digits(d1 as nat);
    lemma_two_digits(m2 as nat);
    lemma_two_digits(d2 as nat);
    let a = ymd_text(y1, m1, d1);
    let b = ymd_text(y2, m2, d2);
    let l: int = a.len() as int;
    assert(year_text(y1).len() == l - 4);
    assert(year_text(y2).len() == l - 4);
    assert(a.subrange(0, l - 4) =~= year_text(y1));
    assert(b.subrange(0, l - 4) =~= year_text(y2));
    assert(a.subrange(l - 4, l - 2) =~= padded_digits(m1 as nat, 2));
    assert(b.subrange(l - 4, l - 2) =~= padded_digits(m2 as nat, 2));
    assert(a.subrange(l - 2, l) =~= padded_digits(d1 as nat, 2));
    assert(b.subrange(l - 2, l) =~= padded_digits(d2 as nat, 2));
    lemma_year_text_injective(y1, y2);
}

/// Candles of different UTC days get different market slugs: the `%Y%m%d` writings
/// of timestamps whose chrono dates are known (as the slug builder establishes) differ
/// when the timestamps fall on different days.
pub proof fn lemma_different_days_different_dates(a: i64, b: i64)
    requires
        chrono_date_facts(a),
        chrono_date_facts(b),
        a as int / MILLIS_PER_DAY as int != b as int / MILLIS_PER_DAY as int,
    ensures
        utc_ymd_text(a) != utc_ymd_text(b),
{
    let ta = chrono_utc_date(a)->0;
    let tb = chrono_utc_date(b)->0;
    if utc_ymd_text(a) == utc_ymd_text(b) {
        lemma_ymd_text_injective(ta.0, ta.1, ta.2, tb.0, tb.1, tb.2);
    }
}

/// The days of year `y`.
pub open spec fn days_in_year(y: int) -> int {
    if is_leap_year(y) { 366 } else { 365 }
}

proof fn lemma_div_step(y: int, k: int)
    requires
        k > 0,
    ensures
        y / k - (y - 1) / k == (if y % k == 0 { 1int } else { 0int }),
{
    assert(y / k - (y - 1) / k == (if y % k == 0 { 1int } else { 0int })) by (nonlinear_arith)
        requires k > 0;
}

proof fn lemma_divides_chain(y: int)
    ensures
        y % 400 == 0 ==> y % 100 == 0,
        y % 100 == 0 ==> y % 4 == 0,
{
    assert(y % 400 == 0 ==> y % 100 == 0) by (nonlinear_arith);
    assert(y % 100 == 0 ==> y % 4 == 0) by (nonlinear_arith);
}

/// The first day of year `y + 1` follows the last day of year `y`.
proof fn lemma_year_step(y: int)
    ensures
        days_from_civil(y + 1, 1, 1) == days_from_civil(y, 1, 1) + days_in_year(y),
{
    lemma_div_step(y, 4);
    lemma_div_step(y, 100);
    lemma_div_step(y, 400);
    lemma_divides_chain(y);
}

/// Years that come later start later: at least a whole year after the start of an
/// earlier year.
proof fn lemma_year_start_monotone(y1: int, y2: int)
    requires
        y1 < y2,
    ensures
        days_from_civil(y1, 1, 1) + days_in_year(y1) <= days_from_civil(y2, 1, 1),
    decreases y2 - y1,
{
    lemma_year_step(y1);
    if y1 + 1 < y2 {
        lemma_year_start_monotone(y1 + 1, y2);
        lemma_year_step(y1 + 1);
    }
}

/// A valid date is a day of its year: its count lies in the span of that year.
proof fn lemma_day_within_year(y: int, m: int, d: int)
    requires
        valid_civil(y, m, d),
    ensures
        days_from_civil(y, 1, 1) <= days_from_civil(y, m, d) < days_from_civil(y, 1, 1) + days_in_year(y),
{
}

/// Within a year, distinct valid dates have distinct day counts.
proof fn lemma_day_of_year_injective(y: int, m1: int, d1: int, m2: int, d2: int)
    requires
        valid_civil(y, m1, d1),
        valid_civil(y, m2, d2),
        days_before_month(y, m1) + d1 == days_before_month(y, m2) + d2,
    ensures
        m1 == m2 && d1 == d2,
{
}

/// The day count of a valid date determines the date.
pub proof fn lemma_days_from_civil_injective(y1: int, m1: int, d1: int, y2: int, m2: int, d2: int)
    requires
        valid_civil(y1, m1, d1),
        valid_civil(y2, m2, d2),
        days_from_civil(y1, m1, d1) == days_from_civil(y2, m2, d2),
    ensures
        y1 == y2 && m1 == m2 && d1 == d2,
{
    lemma_day_within_year(y1, m1, d1);
    lemma_day_within_year(y2, m2, d2);
    if y1 < y2 {
        lemma_year_start_monotone(y1, y2);
    } else if y2 < y1 {
        lemma_year_start_monotone(y2, y1);
    } else {
        lemma_day_of_year_injective(y1, m1, d1, m2, d2);
    }
}

/// Timestamps of the same UTC day have the same `%Y%m%d` writing, and timestamps of
/// different days different ones (for timestamps whose chrono dates are known, as
/// the slug builder establishes).
pub proof fn lemma_same_date_iff_same_day(a: i64, b: i64)
    requires
        chrono_date_facts(a),
        chrono_date_facts(b),
    ensures
        (utc_ymd_text(a) == utc_ymd_text(b)) <==> (a as int / MILLIS_PER_DAY as int == b as int / MILLIS_PER_DAY as int),
{
    let ta = chrono_utc_date(a)->0;
    let tb = chrono_utc_date(b)->0;
    if a as int / MILLIS_PER_DAY as int == b as int / MILLIS_PER_DAY as int {
        lemma_days_from_civil_injective(ta.0, ta.1, ta.2, tb.0, tb.1, tb.2);
    } else {
        lemma_different_days_different_dates(a, b);
    }
}

} // verus!
