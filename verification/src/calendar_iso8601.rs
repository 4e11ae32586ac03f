//! ISO 8601 calendar conversion functions.
//!
//! Uses the "chronological Julian day", which for this library defines
//! 2000-01-01 to be day 0, and converts between that day number and the
//! proleptic Gregorian calendar. This module just does the math and works on
//! untyped values.

use vstd::prelude::*;
use crate::div_mod::div_mod;

verus! {

/// The number of days in 400 years.
pub const EPOCH_LEN: i64 = 146097;

/// Whether the year has a 29th of February.
pub open spec fn is_leap_year(year: int) -> bool {
    year % 4 == 0 && (year % 100 != 0 || year % 400 == 0)
}

/// The number of days of a year without a leap day that come before the
/// first day of the month.
pub open spec fn month_start(month: int) -> int
    recommends
        1 <= month <= 12,
{
    if month <= 1 {
        0
    } else if month == 2 {
        31
    } else if month == 3 {
        59
    } else if month == 4 {
        90
    } else if month == 5 {
        120
    } else if month == 6 {
        151
    } else if month == 7 {
        181
    } else if month == 8 {
        212
    } else if month == 9 {
        243
    } else if month == 10 {
        273
    } else if month == 11 {
        304
    } else {
        334
    }
}

/// The number of days in the month of the year.
pub open spec fn days_in_month(year: int, month: int) -> int
    recommends
        1 <= month <= 12,
{
    if month == 2 {
        if is_leap_year(year) {
            29
        } else {
            28
        }
    } else if month == 4 || month == 6 || month == 9 || month == 11 {
        30
    } else {
        31
    }
}

/// Whether the three numbers are a date of the calendar.
pub open spec fn is_date(year: int, month: int, day: int) -> bool {
    1 <= month <= 12 && 1 <= day <= days_in_month(year, month)
}

/// The number of leap years from year 1 to `year`, both included; for a year
/// before 1, minus the number of those after `year` up to year 0.
pub open spec fn leap_years_through(year: int) -> int {
    year / 4 - year / 100 + year / 400
}

/// The day number of the first of January of the year.
pub open spec fn year_start(year: int) -> int {
    365 * (year - 2000) + leap_years_through(year - 1) - leap_years_through(1999)
}

/// The day number of a date: the number of days from 2000-01-01 to it.
/// A day outside the month counts on from the month's first day.
pub open spec fn day_number(year: int, month: int, day: int) -> int
    recommends
        1 <= month <= 12,
{
    year_start(year) + month_start(month) + (if month > 2 && is_leap_year(year) {
        1int
    } else {
        0int
    }) + day - 1
}

/// The date that follows a date.
pub open spec fn next_date(year: int, month: int, day: int) -> (int, int, int)
    recommends
        is_date(year, month, day),
{
    if day < days_in_month(year, month) {
        (year, month, day + 1)
    } else if month < 12 {
        (year, month + 1, 1)
    } else {
        (year + 1, 1, 1)
    }
}

/// The date of a day number: the one date whose day number it is.
pub open spec fn date_of_day(cjd: int) -> (int, int, int) {
    choose|t: (int, int, int)| is_date(t.0, t.1, t.2) && day_number(t.0, t.1, t.2) == cjd
}

fn month_offset(month: i64) -> (r: i64)
    requires
        1 <= month <= 12,
    ensures
        r == month_start(month as int),
{
    if month == 1 {
        0
    } else if month == 2 {
        31
    } else if month == 3 {
        59
    } else if month == 4 {
        90
    } else if month == 5 {
        120
    } else if month == 6 {
        151
    } else if month == 7 {
        181
    } else if month == 8 {
        212
    } else if month == 9 {
        243
    } else if month == 10 {
        273
    } else if month == 11 {
        304
    } else {
        334
    }
}

/// The day number of the first of January, taken apart by cycles of 400
/// years: `b` whole cycles and `a` years into the next.
proof fn lemma_year_start_cycle(b: int, a: int)
    requires
        0 <= a < 400,
    ensures
        year_start(2000 + 400 * b + a) == 146097 * b + 365 * a + (if a == 0 {
            0
        } else {
            1 + (a - 1) / 4 - (a - 1) / 100
        }),
        is_leap_year(2000 + 400 * b + a) == (a % 4 == 0 && (a % 100 != 0 || a == 0)),
{
}

/// The leap days of a cycle of 400 years that come before the first of
/// March of its year `a`.
proof fn lemma_leap_days_in_cycle(a: int)
    requires
        0 <= a < 400,
    ensures
        (if a == 0 {
            0
        } else {
            1 + (a - 1) / 4 - (a - 1) / 100
        }) + (if a % 4 == 0 && (a % 100 != 0 || a == 0) {
            1int
        } else {
            0int
        }) == 1 + a / 4 - a / 100,
{
}

/// A date whose day number is a 64-bit number lies in a year that is far
/// from the ends of the 64-bit range.
proof fn lemma_year_in_range(year: int, month: int, day: int)
    requires
        1 <= month <= 12,
        i64::MIN <= day <= i64::MAX,
        i64::MIN <= day_number(year, month, day) <= i64::MAX,
    ensures
        -0x1000_0000_0000_0000 <= year - 2000 <= 0x1000_0000_0000_0000,
{
}

/// Convert an ISO 8601 date to a chronological Julian day.
pub fn to_cjd(year: i64, month: i64, day: i64) -> (cjd: i64)
    requires
        1 <= month <= 12,
        i64::MIN <= day_number(year as int, month as int, day as int) <= i64::MAX,
    ensures
        cjd == day_number(year as int, month as int, day as int),
{
    proof {
        lemma_year_in_range(year as int, month as int, day as int);
    }
    let y: i64 = year - 2000;
    let (b, a) = div_mod(y, 400);
    proof {
        lemma_year_start_cycle(b as int, a as int);
        lemma_leap_days_in_cycle(a as int);
    }
    let mut leap: i64 = 1 + a / 4 - a / 100;
    if month <= 2 && (a % 4) == 0 && ((a % 100) != 0 || a == 0) {
        leap = leap - 1;
    }
    let total: i128 = 146097 * (b as i128) + 365 * (a as i128) + (month_offset(month) as i128) + (
    day as i128) - 1 + (leap as i128);
    total as i64
}

/// The day of the year that the block decomposition of a day number leaves:
/// `t1` cycles of 400 years, then `t2` centuries, `t3` spans of 4 years and
/// `t4` years, and `rest` days, counted from -1 in a leap year and from 0 in
/// any other.
proof fn lemma_blocks(cjd: int, t1: int, t2: int, t3: int, t4: int, rest: int)
    requires
        0 <= t2 <= 3,
        0 <= t3 <= 24,
        0 <= t4 <= 3,
        cjd == 146097 * t1 + 36524 * t2 + 1461 * t3 + 365 * t4 + rest + 1,
    ensures
        is_leap_year(2000 + 400 * t1 + 100 * t2 + 4 * t3 + t4) == (t4 == 0 && (t3 != 0 || t2
            == 0)),
        cjd == year_start(2000 + 400 * t1 + 100 * t2 + 4 * t3 + t4) + rest + (if t4 == 0 && (t3
            != 0 || t2 == 0) {
            1int
        } else {
            0int
        }),
{
    let a = 100 * t2 + 4 * t3 + t4;
    lemma_year_start_cycle(t1, a);
    if a != 0 {
        assert((a - 1) / 4 == 25 * t2 + t3 + (if t4 == 0 {
            -1int
        } else {
            0int
        }));
        assert((a - 1) / 100 == t2 + (if t3 == 0 && t4 == 0 {
            -1int
        } else {
            0int
        }));
    }
}

/// The month and the day that the day of a year falls on, as `from_cjd`
/// finds them: `rest` is the day of the year, counted from -1 in a leap year
/// and from 0 in any other.
proof fn lemma_month_day(year: int, rest: int, guess: int, m: int, d: int)
    requires
        -1 <= rest <= 364,
        rest == -1 ==> is_leap_year(year),
        guess == (if rest < 0 {
            1
        } else {
            rest / 29 + 1
        }),
        m == (if guess > 12 || (guess > 1 && rest < month_start(guess)) {
            guess - 1
        } else {
            guess
        }),
        d == rest - month_start(m) + 1,
    ensures
        1 <= m <= 12,
        is_leap_year(year) && m <= 2 && d + 1 == 32 ==> is_date(year, 2, 1) && day_number(
            year,
            2,
            1,
        ) == year_start(year) + rest + 1,
        is_leap_year(year) && m <= 2 && d + 1 != 32 ==> is_date(year, m, d + 1) && day_number(
            year,
            m,
            d + 1,
        ) == year_start(year) + rest + 1,
        is_leap_year(year) && m > 2 ==> is_date(year, m, d) && day_number(year, m, d)
            == year_start(year) + rest + 1,
        !is_leap_year(year) ==> is_date(year, m, d) && day_number(year, m, d) == year_start(year)
            + rest,
{
}

/// Convert a chronological Julian day to an ISO 8601 date.
pub fn from_cjd(cjd: i64) -> (date: (i64, i64, i64))
    ensures
        is_date(date.0 as int, date.1 as int, date.2 as int),
        day_number(date.0 as int, date.1 as int, date.2 as int) == cjd,
        (date.0 as int, date.1 as int, date.2 as int) == date_of_day(cjd as int),
{
    let (t1, d) = div_mod(cjd, EPOCH_LEN);
    let t2: i64 = (d - 1) / 36524;
    let d: i64 = (d - 1) % 36524;
    let t3: i64 = (d + 1) / 1461;
    let d: i64 = (d + 1) % 1461;
    let t4: i64 = (d - 1) / 365;
    let d: i64 = (d - 1) % 365;
    let y: i64 = 2000 + t1 * 400 + t2 * 100 + t3 * 4 + t4;
    let ghost rest = d as int;
    proof {
        lemma_blocks(cjd as int, t1 as int, t2 as int, t3 as int, t4 as int, rest);
    }

    let mut m: i64 = d / 29 + 1;
    let ghost guess = m as int;
    if m > 12 || (m > 1 && d < month_offset(m)) {
        m = m - 1;
    }
    let mut d: i64 = d - month_offset(m) + 1;
    proof {
        lemma_month_day(y as int, rest, guess, m as int, d as int);
    }
    if t4 == 0 && (t3 != 0 || t2 == 0) && m <= 2 {
        d = d + 1;
        if d == 32 {
            m = 2;
            d = 1;
        }
    }
    proof {
        lemma_date_of_day_is(cjd as int, y as int, m as int, d as int);
    }
    (y, m, d)
}

/// Of two years, the later one starts at least 365 days later.
proof fn lemma_year_start_increasing(y1: int, y2: int)
    requires
        y1 < y2,
    ensures
        year_start(y1) + 365 + (if is_leap_year(y1) {
            1int
        } else {
            0int
        }) <= year_start(y2),
{
}

/// Day numbers order dates as the calendar does: the earlier date has the
/// smaller day number.
pub proof fn lemma_day_number_increasing(y1: int, m1: int, d1: int, y2: int, m2: int, d2: int)
    requires
        is_date(y1, m1, d1),
        is_date(y2, m2, d2),
        y1 < y2 || (y1 == y2 && (m1 < m2 || (m1 == m2 && d1 < d2))),
    ensures
        day_number(y1, m1, d1) < day_number(y2, m2, d2),
{
    if y1 < y2 {
        lemma_year_start_increasing(y1, y2);
    }
}

/// Two dates with the same day number are the same date.
pub proof fn lemma_day_number_injective(y1: int, m1: int, d1: int, y2: int, m2: int, d2: int)
    requires
        is_date(y1, m1, d1),
        is_date(y2, m2, d2),
        day_number(y1, m1, d1) == day_number(y2, m2, d2),
    ensures
        y1 == y2 && m1 == m2 && d1 == d2,
{
    if y1 < y2 || (y1 == y2 && (m1 < m2 || (m1 == m2 && d1 < d2))) {
        lemma_day_number_increasing(y1, m1, d1, y2, m2, d2);
    } else if y2 < y1 || (y2 == y1 && (m2 < m1 || (m2 == m1 && d2 < d1))) {
        lemma_day_number_increasing(y2, m2, d2, y1, m1, d1);
    }
}

/// A date with the day number `cjd` is the date of that day.
pub proof fn lemma_date_of_day_is(cjd: int, year: int, month: int, day: int)
    requires
        is_date(year, month, day),
        day_number(year, month, day) == cjd,
    ensures
        date_of_day(cjd) == (year, month, day),
{
    let w = (year, month, day);
    assert(is_date(w.0, w.1, w.2) && day_number(w.0, w.1, w.2) == cjd);
    let t = date_of_day(cjd);
    lemma_day_number_injective(t.0, t.1, t.2, year, month, day);
}

/// Every day number is the day number of a date: converting a day number to
/// its date and back gives the day number again.
pub proof fn lemma_day_number_of_date_of_day(cjd: int)
    ensures
        is_date(date_of_day(cjd).0, date_of_day(cjd).1, date_of_day(cjd).2),
        day_number(date_of_day(cjd).0, date_of_day(cjd).1, date_of_day(cjd).2) == cjd,
{
    let t1 = cjd / 146097;
    let d0 = cjd % 146097;
    let t2 = if d0 == 0 { 0 } else { (d0 - 1) / 36524 };
    let d1 = if d0 == 0 { -1 } else { (d0 - 1) % 36524 };
    let t3 = (d1 + 1) / 1461;
    let d2 = (d1 + 1) % 1461;
    let t4 = if d2 == 0 { 0 } else { (d2 - 1) / 365 };
    let rest = if d2 == 0 { -1 } else { (d2 - 1) % 365 };
    let year = 2000 + 400 * t1 + 100 * t2 + 4 * t3 + t4;
    lemma_blocks(cjd, t1, t2, t3, t4, rest);
    let guess = if rest < 0 { 1 } else { rest / 29 + 1 };
    let m = if guess > 12 || (guess > 1 && rest < month_start(guess)) { guess - 1 } else { guess };
    let d = rest - month_start(m) + 1;
    lemma_month_day(year, rest, guess, m, d);
    if is_leap_year(year) && m <= 2 {
        if d + 1 == 32 {
            lemma_date_of_day_is(cjd, year, 2, 1);
        } else {
            lemma_date_of_day_is(cjd, year, m, d + 1);
        }
    } else {
        lemma_date_of_day_is(cjd, year, m, d);
    }
}

/// Converting a date to its day number and back gives the date again.
pub proof fn lemma_date_of_day_number(year: int, month: int, day: int)
    requires
        is_date(year, month, day),
    ensures
        date_of_day(day_number(year, month, day)) == (year, month, day),
{
    lemma_date_of_day_is(day_number(year, month, day), year, month, day);
}

/// The day numbers of consecutive dates are consecutive: there is no gap
/// and no repeat at the end of a month or of a year, nor at a 29th of
/// February.
pub proof fn lemma_next_date_consecutive(year: int, month: int, day: int)
    requires
        is_date(year, month, day),
    ensures
        is_date(
            next_date(year, month, day).0,
            next_date(year, month, day).1,
            next_date(year, month, day).2,
        ),
        day_number(
            next_date(year, month, day).0,
            next_date(year, month, day).1,
            next_date(year, month, day).2,
        ) == day_number(year, month, day) + 1,
{
}

} // verus!
