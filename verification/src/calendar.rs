//! Dates of the Gregorian calendar, extended backwards, by days since 1970-01-01.

use crate::text::{padded, push_padded};
use vstd::prelude::*;

verus! {

pub open spec fn is_leap(year: int) -> bool {
    year % 4 == 0 && (year % 100 != 0 || year % 400 == 0)
}

pub open spec fn month_length(year: int, month: int) -> int {
    if month == 2 {
        if is_leap(year) {
            29
        } else {
            28
        }
    } else if month == 4 || month == 6 || month == 9 || month == 11 {
        30
    } else {
        31
    }
}

pub open spec fn is_date(year: int, month: int, day: int) -> bool {
    1 <= month <= 12 && 1 <= day <= month_length(year, month)
}

/// Days from the start of year 1 to the start of `year`.
pub open spec fn days_before_year(year: int) -> int {
    let y = year - 1;
    365 * y + y / 4 - y / 100 + y / 400
}

/// Days from the start of `year` to the start of its `month`.
pub open spec fn days_before_month(year: int, month: int) -> int
    decreases month,
{
    if month <= 1 {
        0
    } else {
        days_before_month(year, month - 1) + month_length(year, month - 1)
    }
}

/// Days from 1970-01-01 to a date.
pub open spec fn day_number(year: int, month: int, day: int) -> int {
    days_before_year(year) - 719162 + days_before_month(year, month) + day - 1
}

/// The date that falls `z` days after 1970-01-01.
pub open spec fn civil(z: int) -> (int, int, int) {
    choose|c: (int, int, int)| is_date(c.0, c.1, c.2) && day_number(c.0, c.1, c.2) == z
}

/// A year is as long as its months.
proof fn lemma_months(year: int)
    ensures
        days_before_month(year, 1) == 0,
        days_before_month(year, 2) == 31,
        days_before_month(year, 3) == 31 + month_length(year, 2),
        days_before_month(year, 4) == 62 + month_length(year, 2),
        days_before_month(year, 5) == 92 + month_length(year, 2),
        days_before_month(year, 6) == 123 + month_length(year, 2),
        days_before_month(year, 7) == 153 + month_length(year, 2),
        days_before_month(year, 8) == 184 + month_length(year, 2),
        days_before_month(year, 9) == 215 + month_length(year, 2),
        days_before_month(year, 10) == 245 + month_length(year, 2),
        days_before_month(year, 11) == 276 + month_length(year, 2),
        days_before_month(year, 12) == 306 + month_length(year, 2),
        days_before_month(year, 13) == 337 + month_length(year, 2),
        days_before_year(year + 1) - days_before_year(year) == 337 + month_length(year, 2),
{
    reveal_with_fuel(days_before_month, 14);
}

/// Days from the first of March of year 0 to that of `y`, a year being counted from March on.
spec fn march_days(y: int) -> int {
    365 * y + y / 4 - y / 100 + y / 400
}

/// The year, counted from March on, that a day of a span of 400 years falls into.
proof fn lemma_year_of_era(doe: u32)
    by (bit_vector)
    requires
        doe < 146097,
    ensures
        ({
            let yoe = ((doe + doe / 36524 - doe / 1460 - doe / 146096) / 365) as u32;
            &&& yoe <= 399
            &&& 365 * yoe + yoe / 4 - yoe / 100 <= doe
            &&& doe - (365 * yoe + yoe / 4 - yoe / 100) <= 365
            &&& (yoe == 399 || doe < 365 * (yoe + 1) + (yoe + 1) / 4 - (yoe + 1) / 100)
        }),
{
}

/// Years counted from March on, in spans of 400.
proof fn lemma_march_days(era: int, yoe: int)
    requires
        0 <= yoe <= 399,
    ensures
        march_days(400 * era + yoe) == 146097 * era + 365 * yoe + yoe / 4 - yoe / 100,
{
    let y = 400 * era + yoe;
    assert(y / 4 == 100 * era + yoe / 4);
    assert(y / 100 == 4 * era + yoe / 100);
    assert(y / 400 == era);
}

/// The first of March of `y`.
proof fn lemma_first_of_march(y: int)
    ensures
        days_before_year(y) + days_before_month(y, 3) == march_days(y) - 306,
{
    lemma_months(y);
}

/// Days from the first of March to the start of the month that comes `mp` months later.
proof fn lemma_month_of_year(doy: int)
    requires
        0 <= doy <= 365,
    ensures
        ({
            let mp = (5 * doy + 2) / 153;
            &&& 0 <= mp <= 11
            &&& (153 * mp + 2) / 5 <= doy
            &&& mp < 11 ==> doy < (153 * (mp + 1) + 2) / 5
        }),
{
}

/// The date that `doy` days after the first of March of `y` fall on.
proof fn lemma_date_in_year(y: int, doy: int)
    requires
        0 <= doy <= 365,
        doy == 365 ==> is_leap(y + 1),
    ensures
        ({
            let mp = (5 * doy + 2) / 153;
            let day = doy - (153 * mp + 2) / 5 + 1;
            let month = if mp < 10 {
                mp + 3
            } else {
                mp - 9
            };
            let year = if month <= 2 {
                y + 1
            } else {
                y
            };
            &&& is_date(year, month, day)
            &&& day_number(year, month, day) == march_days(y) + doy - 719468
        }),
{
    lemma_month_of_year(doy);
    lemma_first_of_march(y);
    lemma_months(y);
    lemma_months(y + 1);
    let mp = (5 * doy + 2) / 153;
    assert(mp == 0 || mp == 1 || mp == 2 || mp == 3 || mp == 4 || mp == 5 || mp == 6 || mp == 7 || mp == 8 || mp
        == 9 || mp == 10 || mp == 11);
}

proof fn lemma_leap_in_era(era: int, yoe: int)
    ensures
        is_leap(400 * era + yoe + 1) == is_leap(yoe + 1),
{
}

/// `a / b`, rounded down.
fn floor_div(a: i64, b: u64) -> (r: i64)
    requires
        2 <= b <= 1_000_000,
    ensures
        0 <= a - r * b < b,
        i64::MIN / 2 - 1 <= r <= i64::MAX / 2,
        b >= 1000 ==> i64::MIN / 1000 - 1 <= r <= i64::MAX / 1000,
        a >= 0 ==> r >= 0,
{
    if a >= 0 {
        let q: u64 = a as u64 / b;
        proof {
            lemma_quotient(a as int, b as int);
        }
        q as i64
    } else {
        let m: u64 = (-(a + 1)) as u64;
        let q: u64 = m / b;
        proof {
            lemma_quotient(m as int, b as int);
            assert((-(q as int) - 1) * b == -(q * b) - b) by (nonlinear_arith);
        }
        -(q as i64) - 1
    }
}

proof fn lemma_quotient(a: int, b: int)
    requires
        0 <= a <= i64::MAX,
        2 <= b,
    ensures
        0 <= a - (a / b) * b < b,
        0 <= a / b <= i64::MAX / 2,
        b >= 1000 ==> a / b <= i64::MAX / 1000,
{
    vstd::arithmetic::div_mod::lemma_fundamental_div_mod(a, b);
    vstd::arithmetic::mul::lemma_mul_is_commutative(a / b, b);
    let q = a / b;
    assert(q >= 0 && q * 2 <= a) by (nonlinear_arith)
        requires
            q == a / b,
            b >= 2,
            a >= 0,
            0 <= a - q * b,
    ;
    if b >= 1000 {
        assert(q * 1000 <= a) by (nonlinear_arith)
            requires
                b >= 1000,
                q >= 0,
                0 <= a - q * b,
        ;
    }
}

/// The year, counted from March on, that a day of a span of 400 years falls into, and the day's
/// number in that year.
fn year_of_era(doe: u32) -> (r: (u32, u32))
    requires
        doe < 146097,
    ensures
        r.0 <= 399,
        r.1 <= 365,
        365 * r.0 + r.0 / 4 - r.0 / 100 + r.1 == doe,
        r.1 == 365 ==> is_leap(r.0 + 1),
{
    proof {
        lemma_year_of_era(doe);
    }
    let yoe: u32 = (doe + doe / 36524 - doe / 1460 - doe / 146_096) / 365;
    let doy: u32 = doe - (365 * yoe + yoe / 4 - yoe / 100);
    (yoe, doy)
}

/// The date that falls `z_in` days after 1970-01-01, as year, month and day.
pub fn civil_from_days(z_in: i64) -> (r: (i64, u32, u32))
    ensures
        is_date(r.0 as int, r.1 as int, r.2 as int),
        day_number(r.0 as int, r.1 as int, r.2 as int) == z_in,
        (r.0 as int, r.1 as int, r.2 as int) == civil(z_in as int),
        z_in >= 0 ==> r.0 >= 1970,
{
    // The first of March of year 0 lies 719468 days before 1970: four spans of 400 years, and 135080.
    let span: i64 = floor_div(z_in, 146_097);
    let ahead: u32 = (z_in as i128 - span as i128 * 146_097) as u32 + 135_080;
    let (era, doe): (i64, u32) = if ahead < 146_097 {
        (span + 4, ahead)
    } else {
        (span + 5, ahead - 146_097)
    };
    let (yoe, doy) = year_of_era(doe);
    let y: i64 = yoe as i64 + era * 400;
    proof {
        lemma_march_days(era as int, yoe as int);
        lemma_leap_in_era(era as int, yoe as int);
        lemma_date_in_year(y as int, doy as int);
    }
    let mp: u32 = (5 * doy + 2) / 153;
    let day: u32 = doy - (153 * mp + 2) / 5 + 1;
    let month: u32 = if mp < 10 {
        mp + 3
    } else {
        mp - 9
    };
    let year: i64 = if month <= 2 {
        y + 1
    } else {
        y
    };
    proof {
        lemma_months(year as int);
        if z_in >= 0 && year < 1970 {
            lemma_years_increase(year + 1, 1970);
        }
        lemma_civil(year as int, month as int, day as int);
    }
    (year, month, day)
}

/// Later years begin later.
proof fn lemma_years_increase(a: int, b: int)
    requires
        a <= b,
    ensures
        days_before_year(a) <= days_before_year(b),
    decreases b - a,
{
    if a < b {
        lemma_months(a);
        lemma_years_increase(a + 1, b);
    }
}

/// A date lies in its year.
proof fn lemma_date_lies_in_year(year: int, month: int, day: int)
    requires
        is_date(year, month, day),
    ensures
        days_before_year(year) - 719162 <= day_number(year, month, day) < days_before_year(year + 1) - 719162,
{
    lemma_months(year);
}

/// Two dates that are the same number of days from 1970-01-01 are the same date: `civil_from_days`
/// is the only way to read a day number.
pub proof fn law_day_number_names_one_date(y1: int, m1: int, d1: int, y2: int, m2: int, d2: int)
    requires
        is_date(y1, m1, d1),
        is_date(y2, m2, d2),
        day_number(y1, m1, d1) == day_number(y2, m2, d2),
    ensures
        y1 == y2 && m1 == m2 && d1 == d2,
{
    lemma_date_lies_in_year(y1, m1, d1);
    lemma_date_lies_in_year(y2, m2, d2);
    if y1 < y2 {
        lemma_years_increase(y1 + 1, y2);
    }
    if y2 < y1 {
        lemma_years_increase(y2 + 1, y1);
    }
    lemma_months(y1);
}

/// A date is what its day number reads as.
pub proof fn lemma_civil(year: int, month: int, day: int)
    requires
        is_date(year, month, day),
    ensures
        civil(day_number(year, month, day)) == (year, month, day),
{
    let z = day_number(year, month, day);
    let c = (year, month, day);
    assert(is_date(c.0, c.1, c.2) && day_number(c.0, c.1, c.2) == z);
    let found = civil(z);
    law_day_number_names_one_date(found.0, found.1, found.2, year, month, day);
}

/// A moment as days and seconds of the day.
proof fn lemma_time_of_day(secs: int, days: int, rest: int)
    requires
        secs == days * 86400 + rest,
        0 <= rest < 86400,
    ensures
        secs / 86400 == days,
        secs % 86400 == rest,
        secs % 3600 == rest % 3600,
        secs % 60 == rest % 60,
{
    vstd::arithmetic::div_mod::lemma_mod_multiples_vanish(24 * days, rest, 3600);
    vstd::arithmetic::div_mod::lemma_mod_multiples_vanish(1440 * days, rest, 60);
}

/// The hours, minutes and seconds of a day make up its seconds.
proof fn lemma_clock(rest: int)
    requires
        0 <= rest < 86400,
    ensures
        rest / 3600 * 3600 + rest % 3600 / 60 * 60 + rest % 60 == rest,
        rest % 3600 % 60 == rest % 60,
{
}

/// The UTC date and time that is `secs` seconds after 1970-01-01T00:00:00, as year, month, day, hour,
/// minute and second. The clock is the caller's.
pub fn utc_now(secs: i64) -> (r: (i64, u32, u32, u32, u32, u32))
    ensures
        is_date(r.0 as int, r.1 as int, r.2 as int),
        (r.0 as int, r.1 as int, r.2 as int) == civil(secs as int / 86400),
        r.3 == secs as int % 86400 / 3600,
        r.4 == secs as int % 3600 / 60,
        r.5 == secs as int % 60,
        day_number(r.0 as int, r.1 as int, r.2 as int) * 86400 + r.3 * 3600 + r.4 * 60 + r.5 == secs,
        secs >= 0 ==> r.0 >= 1970,
{
    let days: i64 = floor_div(secs, 86_400);
    let day_secs: u32 = (secs as i128 - days as i128 * 86_400) as u32;
    let (year, month, day) = civil_from_days(days);
    proof {
        lemma_time_of_day(secs as int, days as int, day_secs as int);
        lemma_clock(day_secs as int);
    }
    (year, month, day, day_secs / 3600, (day_secs % 3600) / 60, day_secs % 60)
}

/// A date as `YYYY-MM-DD`.
pub open spec fn date_text(z: int) -> Seq<char> {
    let c = civil(z);
    padded(c.0 as nat, 4) + "-"@ + padded(c.1 as nat, 2) + "-"@ + padded(c.2 as nat, 2)
}

/// The time of day `ms` milliseconds after midnight, as `HH:MM:SS.mmm`.
pub open spec fn clock_text(ms: int) -> Seq<char> {
    padded((ms / 3600000) as nat, 2) + ":"@ + padded((ms / 60000 % 60) as nat, 2) + ":"@ + padded(
        (ms / 1000 % 60) as nat,
        2,
    ) + "."@ + padded((ms % 1000) as nat, 3)
}

/// Appends the date that falls `days` days after 1970-01-01.
pub fn push_date(out: &mut String, days: i64)
    requires
        0 <= days,
    ensures
        final(out)@ == old(out)@ + date_text(days as int),
{
    let (year, month, day) = civil_from_days(days);
    push_padded(out, year as u64, 4);
    out.append("-");
    push_padded(out, month as u64, 2);
    out.append("-");
    push_padded(out, day as u64, 2);
    assert(out@ =~= old(out)@ + date_text(days as int));
}

/// Appends the time of day.
pub fn push_clock(out: &mut String, ms: u64)
    ensures
        final(out)@ == old(out)@ + clock_text(ms as int),
{
    push_padded(out, ms / 3_600_000, 2);
    out.append(":");
    push_padded(out, ms / 60_000 % 60, 2);
    out.append(":");
    push_padded(out, ms / 1000 % 60, 2);
    out.append(".");
    push_padded(out, ms % 1000, 3);
    assert(out@ =~= old(out)@ + clock_text(ms as int));
}

} // verus!
