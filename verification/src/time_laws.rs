//! Laws of dates and times as they are written.

use crate::calendar::{civil, clock_text, date_text, day_number, days_before_month, is_date, lemma_civil, month_length};
use crate::protect_controller::iso8601;
use crate::rtsp_laws::lemma_padding;
use crate::text::{all_digits, decimal, digits_value, law_decimal_reads_back, padded};
use vstd::prelude::*;

verus! {

/// A number that fits fills its field, and the field reads back as the number.
proof fn lemma_field(n: nat, width: int)
    requires
        width == 2 ==> n < 100,
        width == 3 ==> n < 1000,
        width == 4 ==> n < 10000,
        2 <= width <= 4,
    ensures
        padded(n, width).len() == width,
        digits_value(padded(n, width)) == n,
        all_digits(padded(n, width)),
{
    law_decimal_reads_back(n);
    reveal_with_fuel(decimal, 5);
    assert(decimal(n).len() <= width);
    if decimal(n).len() < width {
        lemma_padding(width - decimal(n).len(), decimal(n));
    }
}

/// A time of day is written as hours, minutes, seconds and milliseconds, in fields of two, two, two
/// and three digits, and reads back as itself.
pub proof fn law_clock_reads_back(hour: int, minute: int, second: int, milli: int)
    requires
        0 <= hour < 24,
        0 <= minute < 60,
        0 <= second < 60,
        0 <= milli < 1000,
    ensures
        ({
            let t = clock_text(((hour * 60 + minute) * 60 + second) * 1000 + milli);
            &&& t.len() == 12
            &&& digits_value(t.subrange(0, 2)) == hour
            &&& t[2] == ':'
            &&& digits_value(t.subrange(3, 5)) == minute
            &&& t[5] == ':'
            &&& digits_value(t.subrange(6, 8)) == second
            &&& t[8] == '.'
            &&& digits_value(t.subrange(9, 12)) == milli
        }),
{
    let ms = ((hour * 60 + minute) * 60 + second) * 1000 + milli;
    assert(ms / 3600000 == hour);
    assert(ms / 60000 % 60 == minute);
    assert(ms / 1000 % 60 == second);
    assert(ms % 1000 == milli);
    let a = padded(hour as nat, 2);
    let b = padded(minute as nat, 2);
    let c = padded(second as nat, 2);
    let d = padded(milli as nat, 3);
    lemma_field(hour as nat, 2);
    lemma_field(minute as nat, 2);
    lemma_field(second as nat, 2);
    lemma_field(milli as nat, 3);
    reveal_strlit(":");
    reveal_strlit(".");
    let t = clock_text(ms);
    assert(t =~= a + ":"@ + b + ":"@ + c + "."@ + d);
    assert(t.subrange(0, 2) =~= a);
    assert(t.subrange(3, 5) =~= b);
    assert(t.subrange(6, 8) =~= c);
    assert(t.subrange(9, 12) =~= d);
}

/// A date is written as year, month and day, in fields of four, two and two digits, and reads back as
/// itself.
pub proof fn law_date_reads_back(year: int, month: int, day: int)
    requires
        is_date(year, month, day),
        0 <= year <= 9999,
    ensures
        ({
            let t = date_text(day_number(year, month, day));
            &&& t.len() == 10
            &&& digits_value(t.subrange(0, 4)) == year
            &&& t[4] == '-'
            &&& digits_value(t.subrange(5, 7)) == month
            &&& t[7] == '-'
            &&& digits_value(t.subrange(8, 10)) == day
        }),
{
    lemma_civil(year, month, day);
    let a = padded(year as nat, 4);
    let b = padded(month as nat, 2);
    let c = padded(day as nat, 2);
    lemma_field(year as nat, 4);
    lemma_field(month as nat, 2);
    lemma_field(day as nat, 2);
    reveal_strlit("-");
    let t = date_text(day_number(year, month, day));
    assert(t =~= a + "-"@ + b + "-"@ + c);
    assert(t.subrange(0, 4) =~= a);
    assert(t.subrange(5, 7) =~= b);
    assert(t.subrange(8, 10) =~= c);
}

/// A moment is written as its date, `T`, its time of day and `+00:00`.
pub proof fn law_moment_is_date_and_clock(days: int, ms: int)
    requires
        0 <= days,
        0 <= ms < 86_400_000,
    ensures
        iso8601(days * 86_400_000 + ms) == date_text(days) + "T"@ + clock_text(ms) + "+00:00"@,
{
    let t = days * 86_400_000 + ms;
    assert(t / 86_400_000 == days && t % 86_400_000 == ms);
}

/// Days follow each other: after a day comes the next one of its month, after the last day of a month
/// the first of the next, and after the last day of December the first of January. Day 0 is
/// 1970-01-01. April, June, September and November have 30 days, February has 28, or 29 in a year
/// that 4 divides, unless 100 divides it and 400 does not, and the others have 31.
pub proof fn law_days_follow_each_other(year: int, month: int, day: int)
    requires
        is_date(year, month, day),
    ensures
        day_number(1970, 1, 1) == 0,
        ({
            let leap = year % 4 == 0 && (year % 100 != 0 || year % 400 == 0);
            let length: int = if month == 2 && leap {
                29
            } else if month == 2 {
                28
            } else if month == 4 || month == 6 || month == 9 || month == 11 {
                30
            } else {
                31
            };
            let today = day_number(year, month, day);
            &&& 1 <= day <= length
            &&& civil(today) == (year, month, day)
            &&& civil(today + 1) == (if day < length {
                (year, month, day + 1)
            } else if month < 12 {
                (year, month + 1, 1int)
            } else {
                (year + 1, 1int, 1int)
            })
        }),
{
    reveal_with_fuel(days_before_month, 13);
    lemma_civil(year, month, day);
    let length = month_length(year, month);
    if day < length {
        lemma_civil(year, month, day + 1);
    } else if month < 12 {
        lemma_civil(year, month + 1, 1);
        assert(days_before_month(year, month + 1) == days_before_month(year, month) + length);
    } else {
        lemma_civil(year + 1, 1, 1);
    }
}

} // verus!
