//! Calendar dates in ISO 8601 text.

use vstd::prelude::*;
use vstd::string::StringSliceAdditionalSpecFns;
use crate::ascii::{LETTER_W, MINUS, NINE, PLUS, ZERO};
use crate::decimal::{
    decimal_value, digit_run, is_digit, lemma_decimal_value_push, lemma_digit_run_is,
};

verus! {

/// A calendar date as it was written: a year alone, or a year with a month,
/// a month and a day, a day of the year, a week, or a week and a weekday.
#[derive(PartialEq, Eq, Structural, PartialOrd, Ord, Clone, Copy, Debug, Hash)]
pub enum Date {
    Year(i64),
    YearMonth(i64, i64),
    YearMonthDay(i64, i64, i64),
    YearDay(i64, i64),
    YearWeek(i64, i64),
    YearWeekDay(i64, i64, i64),
}

/// The number that a text of decimal digits stands for, or the largest
/// 64-bit number where it stands for a larger one.
pub open spec fn saturated_value(ds: Seq<u8>) -> int {
    if decimal_value(ds) <= i64::MAX {
        decimal_value(ds) as int
    } else {
        i64::MAX as int
    }
}

/// The value of the run of digits that starts at `from`.
pub open spec fn int_at(s: Seq<u8>, from: int) -> int {
    saturated_value(s.subrange(from, from + digit_run(s, from)))
}

/// What follows the year and `-W`: a week of two digits, then the end of the
/// text or `-` and a weekday of one digit. The week's digits start at `from`.
pub open spec fn week_text(s: Seq<u8>, year: int, from: int) -> Option<Date> {
    let n = digit_run(s, from);
    let week = int_at(s, from);
    let end = from + n;
    if n != 2 || week < 1 || week > 53 {
        None
    } else if end == s.len() {
        Some(Date::YearWeek(year as i64, week as i64))
    } else if s[end] != MINUS {
        None
    } else {
        let day = int_at(s, end + 1);
        if end + 1 + digit_run(s, end + 1) != s.len() || digit_run(s, end + 1) != 1 || day < 1
            || day > 7 {
            None
        } else {
            Some(Date::YearWeekDay(year as i64, week as i64, day as i64))
        }
    }
}

/// What follows the year and `-` where no `W` comes next: a month of two
/// digits, then the end of the text or `-` and a day of two digits; or a day
/// of the year of three digits. The digits start at `from`.
pub open spec fn month_or_day_text(s: Seq<u8>, year: int, from: int) -> Option<Date> {
    let n = digit_run(s, from);
    let value = int_at(s, from);
    let end = from + n;
    if n == 2 {
        if value < 1 || value > 12 {
            None
        } else if end == s.len() {
            Some(Date::YearMonth(year as i64, value as i64))
        } else if s[end] != MINUS {
            None
        } else {
            let day = int_at(s, end + 1);
            if end + 1 + digit_run(s, end + 1) != s.len() || digit_run(s, end + 1) != 2 || day
                < 1 || day > 31 {
                None
            } else {
                Some(Date::YearMonthDay(year as i64, value as i64, day as i64))
            }
        }
    } else if n == 3 {
        if end != s.len() || value < 1 || value > 366 {
            None
        } else {
            Some(Date::YearDay(year as i64, value as i64))
        }
    } else {
        None
    }
}

/// The date that a text stands for, or `None` where it is no date.
///
/// A date is an optional sign and a year of four digits or more, then
/// nothing, or `-` and one of: a month, a month and a day, a day of the
/// year, `W` and a week, `W` and a week and a weekday. A month is 1 to 12, a
/// day of the month 1 to 31 whatever the month, a day of the year 1 to 366,
/// a week 1 to 53, a weekday 1 to 7. A year too large for 64 bits counts as
/// the largest 64-bit number.
pub open spec fn date_text(s: Seq<u8>) -> Option<Date> {
    if s.len() == 0 {
        None
    } else {
        let start: int = if s[0] == MINUS || s[0] == PLUS {
            1
        } else {
            0
        };
        let n = digit_run(s, start);
        let end = start + n;
        let year = if s[0] == MINUS {
            -int_at(s, start)
        } else {
            int_at(s, start)
        };
        if n < 4 {
            None
        } else if end == s.len() {
            Some(Date::Year(year as i64))
        } else if s[end] != MINUS || s.len() - end < 2 {
            None
        } else if s[end + 1] == LETTER_W {
            week_text(s, year, end + 2)
        } else {
            month_or_day_text(s, year, end + 1)
        }
    }
}

/// Read an integer from a bytestring, from the index `from` on. Returns the
/// integer and the number of its digits. An integer too large for 64 bits is
/// read as the largest 64-bit number.
pub fn read_int(s: &[u8], from: usize) -> (r: (i64, usize))
    requires
        from <= s.len(),
    ensures
        r.1 == digit_run(s@, from as int),
        from + r.1 <= s.len(),
        r.0 == int_at(s@, from as int),
        0 <= r.0,
{
    let mut value: i64 = 0;
    let mut i: usize = from;
    assert(s@.subrange(from as int, from as int) =~= Seq::<u8>::empty());
    while i < s.len() && s[i] >= ZERO && s[i] <= NINE
        invariant
            from <= i <= s.len(),
            forall|k: int| from <= k < i ==> is_digit(#[trigger] s@[k]),
            value == saturated_value(s@.subrange(from as int, i as int)),
        decreases s.len() - i,
    {
        let d: i64 = (s[i] - ZERO) as i64;
        proof {
            assert(s@.subrange(from as int, i + 1) =~= s@.subrange(from as int, i as int).push(
                s@[i as int],
            ));
            lemma_decimal_value_push(s@.subrange(from as int, i as int), s@[i as int]);
        }
        value = match value.checked_mul(10) {
            Some(n) => match n.checked_add(d) {
                Some(n) => n,
                None => i64::MAX,
            },
            None => i64::MAX,
        };
        i = i + 1;
    }
    proof {
        lemma_digit_run_is(s@, from as int, i as int);
    }
    (value, i - from)
}

/// Parse a date in ISO 8601 format, given as bytes.
pub fn parse_date_bytes(s: &[u8]) -> (r: Option<Date>)
    ensures
        r == date_text(s@),
{
    if s.len() == 0 {
        return None;
    }
    let negative: bool = s[0] == MINUS;
    let start: usize = if s[0] == MINUS || s[0] == PLUS {
        1
    } else {
        0
    };
    let (year, n) = read_int(s, start);
    if n < 4 {
        return None;
    }
    let year: i64 = if negative {
        -year
    } else {
        year
    };
    let end: usize = start + n;
    if end == s.len() {
        return Some(Date::Year(year));
    }
    if s[end] != MINUS || s.len() - end < 2 {
        return None;
    }
    if s[end + 1] == LETTER_W {
        let (week, n) = read_int(s, end + 2);
        let end: usize = end + 2 + n;
        if n != 2 || week < 1 || week > 53 {
            return None;
        }
        if end == s.len() {
            return Some(Date::YearWeek(year, week));
        }
        if s[end] != MINUS {
            return None;
        }
        let (day, n) = read_int(s, end + 1);
        if end + 1 + n != s.len() || n != 1 || day < 1 || day > 7 {
            return None;
        }
        Some(Date::YearWeekDay(year, week, day))
    } else {
        let (value, n) = read_int(s, end + 1);
        let end: usize = end + 1 + n;
        if n == 2 {
            let month: i64 = value;
            if month < 1 || month > 12 {
                return None;
            }
            if end == s.len() {
                return Some(Date::YearMonth(year, month));
            }
            if s[end] != MINUS {
                return None;
            }
            let (day, n) = read_int(s, end + 1);
            if end + 1 + n != s.len() || n != 2 || day < 1 || day > 31 {
                return None;
            }
            Some(Date::YearMonthDay(year, month, day))
        } else if n == 3 {
            let day: i64 = value;
            if end != s.len() || day < 1 || day > 366 {
                return None;
            }
            Some(Date::YearDay(year, day))
        } else {
            None
        }
    }
}

/// Parse a date in ISO 8601 format.
pub fn parse_date(s: &str) -> (r: Option<Date>)
    ensures
        r == date_text(s.spec_bytes()),
{
    parse_date_bytes(s.as_bytes())
}

} // verus!
