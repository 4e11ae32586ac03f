//! Durations: signed counts of ticks.

use vstd::prelude::*;
use vstd::string::StringSliceAdditionalSpecFns;
use crate::duration_text::{
    duration_text, duration_ticks, lemma_duration_text_ascii, read_duration, write_duration,
};
use crate::fmtutil::{ascii_chars, field_text, string_from_ascii, write_field, Formatter};
use crate::posix::{Timespec, Timeval};
use crate::tick;
use crate::tick::round_half_even;

verus! {

/// An absolute amount of time, independent of time zones and calendars.
/// A duration can express the positive or negative difference between two
/// instants in time according to a particular clock.
#[derive(PartialEq, Eq, Structural, Ord, Clone, Copy, Debug, Hash)]
pub struct Duration {
    pub ticks: i64,
}

impl Default for Duration {
    fn default() -> (r: Duration)
        ensures
            r.ticks == 0,
    {
        Duration { ticks: 0 }
    }
}

impl core::ops::Add for Duration {
    type Output = Duration;

    fn add(self, rhs: Duration) -> (r: Duration) {
        Duration { ticks: self.ticks + rhs.ticks }
    }
}

impl vstd::std_specs::ops::AddSpecImpl for Duration {
    open spec fn obeys_add_spec() -> bool {
        true
    }

    open spec fn add_req(self, rhs: Duration) -> bool {
        i64::MIN <= self.ticks + rhs.ticks <= i64::MAX
    }

    open spec fn add_spec(self, rhs: Duration) -> Duration {
        Duration { ticks: (self.ticks + rhs.ticks) as i64 }
    }
}

impl core::ops::Sub for Duration {
    type Output = Duration;

    fn sub(self, rhs: Duration) -> (r: Duration) {
        Duration { ticks: self.ticks - rhs.ticks }
    }
}

impl vstd::std_specs::ops::SubSpecImpl for Duration {
    open spec fn obeys_sub_spec() -> bool {
        true
    }

    open spec fn sub_req(self, rhs: Duration) -> bool {
        i64::MIN <= self.ticks - rhs.ticks <= i64::MAX
    }

    open spec fn sub_spec(self, rhs: Duration) -> Duration {
        Duration { ticks: (self.ticks - rhs.ticks) as i64 }
    }
}

impl core::ops::Neg for Duration {
    type Output = Duration;

    fn neg(self) -> (r: Duration) {
        Duration { ticks: -self.ticks }
    }
}

impl vstd::std_specs::ops::NegSpecImpl for Duration {
    open spec fn obeys_neg_spec() -> bool {
        true
    }

    open spec fn neg_req(self) -> bool {
        self.ticks != i64::MIN
    }

    open spec fn neg_spec(self) -> Duration {
        Duration { ticks: (-self.ticks) as i64 }
    }
}

impl core::ops::Mul<i64> for Duration {
    type Output = Duration;

    fn mul(self, rhs: i64) -> (r: Duration) {
        Duration { ticks: rhs * self.ticks }
    }
}

impl vstd::std_specs::ops::MulSpecImpl<i64> for Duration {
    open spec fn obeys_mul_spec() -> bool {
        true
    }

    open spec fn mul_req(self, rhs: i64) -> bool {
        i64::MIN <= rhs * self.ticks <= i64::MAX
    }

    open spec fn mul_spec(self, rhs: i64) -> Duration {
        Duration { ticks: (rhs * self.ticks) as i64 }
    }
}

impl Duration {
    /// Parse a duration from its ISO 8601 text, given as bytes: `PT`, the
    /// seconds as a decimal number, possibly negative, possibly using a
    /// comma, and `S`; the letters are case-insensitive. Returns `None`
    /// where the text is no duration, or stands for one that is no 64-bit
    /// tick count.
    pub fn from_utf8(s: &[u8]) -> (r: Option<Duration>)
        ensures
            r == match duration_ticks(s@) {
                Some(t) => Some(Duration { ticks: t as i64 }),
                None => None,
            },
    {
        match read_duration(s) {
            Some(ticks) => Some(Duration { ticks: ticks }),
            None => None,
        }
    }

    /// Parse a duration from its ISO 8601 text.
    pub fn from_str(s: &str) -> (r: Option<Duration>)
        ensures
            r == match duration_ticks(s.spec_bytes()) {
                Some(t) => Some(Duration { ticks: t as i64 }),
                None => None,
            },
    {
        Duration::from_utf8(s.as_bytes())
    }

    /// Convert a duration to its ISO 8601 text in UTF-8, with the given
    /// number of fractional digits, or with as many as it needs where none
    /// is given.
    pub fn to_utf8(&self, precision: Option<usize>) -> (out: Vec<u8>)
        ensures
            out@ == duration_text(self.ticks as int, precision),
    {
        let mut out: Vec<u8> = Vec::with_capacity(32);
        write_duration(&mut out, self.ticks, precision);
        out
    }

    /// Write the duration as a field of text: its ISO 8601 text with the
    /// formatter's precision, padded to the formatter's width.
    pub fn fmt(&self, f: &Formatter, out: &mut Vec<u8>)
        ensures
            final(out)@ == old(out)@ + field_text(*f, duration_text(self.ticks as int, f.precision)),
    {
        let data: Vec<u8> = self.to_utf8(f.precision);
        write_field(out, f, data.as_slice());
    }

    /// The ISO 8601 text of the duration, with as many fractional digits as
    /// it needs.
    pub fn to_string(&self) -> (r: String)
        ensures
            r@ == ascii_chars(duration_text(self.ticks as int, None)),
    {
        let data: Vec<u8> = self.to_utf8(None);
        proof {
            lemma_duration_text_ascii(self.ticks as int, None);
        }
        string_from_ascii(data)
    }

    /// The sum of two durations, or `None` where it is no 64-bit tick count.
    pub fn checked_add(&self, rhs: &Duration) -> (r: Option<Duration>)
        ensures
            i64::MIN <= self.ticks + rhs.ticks <= i64::MAX ==> r == Some(
                Duration { ticks: (self.ticks + rhs.ticks) as i64 },
            ),
            !(i64::MIN <= self.ticks + rhs.ticks <= i64::MAX) ==> r.is_none(),
    {
        match self.ticks.checked_add(rhs.ticks) {
            Some(x) => Some(Duration { ticks: x }),
            None => None,
        }
    }

    /// The difference of two durations, or `None` where it is no 64-bit
    /// tick count.
    pub fn checked_sub(&self, rhs: &Duration) -> (r: Option<Duration>)
        ensures
            i64::MIN <= self.ticks - rhs.ticks <= i64::MAX ==> r == Some(
                Duration { ticks: (self.ticks - rhs.ticks) as i64 },
            ),
            !(i64::MIN <= self.ticks - rhs.ticks <= i64::MAX) ==> r.is_none(),
    {
        match self.ticks.checked_sub(rhs.ticks) {
            Some(x) => Some(Duration { ticks: x }),
            None => None,
        }
    }

    /// The shortest, most negative duration.
    pub fn min_value() -> (r: Duration)
        ensures
            r.ticks == i64::MIN,
    {
        Duration { ticks: i64::MIN }
    }

    /// The longest duration.
    pub fn max_value() -> (r: Duration)
        ensures
            r.ticks == i64::MAX,
    {
        Duration { ticks: i64::MAX }
    }

    /// Convert from microseconds to a duration. No overflow protection: the
    /// caller keeps the tick count inside 64 bits.
    pub fn from_microseconds(n: i64) -> (r: Duration)
        requires
            i64::MIN <= tick::MICROSECOND * n <= i64::MAX,
        ensures
            r.ticks == tick::MICROSECOND * n,
    {
        Duration { ticks: tick::MICROSECOND * n }
    }

    /// Convert from milliseconds to a duration. No overflow protection.
    pub fn from_milliseconds(n: i64) -> (r: Duration)
        requires
            i64::MIN <= tick::MILLISECOND * n <= i64::MAX,
        ensures
            r.ticks == tick::MILLISECOND * n,
    {
        Duration { ticks: tick::MILLISECOND * n }
    }

    /// Convert from seconds to a duration. No overflow protection.
    pub fn from_seconds(n: i64) -> (r: Duration)
        requires
            i64::MIN <= tick::SECOND * n <= i64::MAX,
        ensures
            r.ticks == tick::SECOND * n,
    {
        Duration { ticks: tick::SECOND * n }
    }

    /// Convert from standard minutes to a duration. No overflow protection.
    pub fn from_minutes(n: i64) -> (r: Duration)
        requires
            i64::MIN <= tick::MINUTE * n <= i64::MAX,
        ensures
            r.ticks == tick::MINUTE * n,
    {
        Duration { ticks: tick::MINUTE * n }
    }

    /// Convert from standard hours to a duration. No overflow protection.
    pub fn from_hours(n: i64) -> (r: Duration)
        requires
            i64::MIN <= tick::HOUR * n <= i64::MAX,
        ensures
            r.ticks == tick::HOUR * n,
    {
        Duration { ticks: tick::HOUR * n }
    }

    /// Convert from standard days to a duration. No overflow protection.
    pub fn from_standard_days(n: i64) -> (r: Duration)
        requires
            i64::MIN <= tick::DAY * n <= i64::MAX,
        ensures
            r.ticks == tick::DAY * n,
    {
        Duration { ticks: tick::DAY * n }
    }

    /// Convert from standard weeks to a duration. No overflow protection.
    pub fn from_standard_weeks(n: i64) -> (r: Duration)
        requires
            i64::MIN <= tick::STANDARD_WEEK * n <= i64::MAX,
        ensures
            r.ticks == tick::STANDARD_WEEK * n,
    {
        Duration { ticks: tick::STANDARD_WEEK * n }
    }

    /// Convert to whole seconds, with rounding.
    pub fn to_seconds(&self) -> (r: i64)
        ensures
            r == round_half_even(self.ticks as int, tick::SECOND as int),
    {
        tick::to_sec(self.ticks)
    }

    /// Convert to whole milliseconds, with rounding.
    pub fn to_milliseconds(&self) -> (r: i64)
        ensures
            r == round_half_even(self.ticks as int, tick::MILLISECOND as int),
    {
        tick::to_msec(self.ticks)
    }

    /// Convert to whole microseconds, with rounding.
    pub fn to_microseconds(&self) -> (r: i64)
        ensures
            r == round_half_even(self.ticks as int, tick::MICROSECOND as int),
    {
        tick::to_usec(self.ticks)
    }

    /// Convert to a POSIX timespec structure: the whole seconds, rounded
    /// down, and the rest in nanoseconds.
    pub fn to_timespec(&self) -> (r: Timespec)
        ensures
            r.tv_sec == self.ticks as int / tick::SECOND as int,
            r.tv_nsec == (self.ticks as int % tick::SECOND as int) * tick::PER_NANOSECOND,
    {
        let (sec, nsec) = tick::to_sec_nsec(self.ticks);
        Timespec { tv_sec: sec, tv_nsec: nsec as i64 }
    }

    /// Convert to a POSIX timeval structure, with rounding to the nearest
    /// microsecond.
    pub fn to_timeval(&self) -> (r: Timeval)
        ensures
            r.tv_sec == round_half_even(self.ticks as int, tick::MICROSECOND as int) / 1_000_000,
            r.tv_usec == round_half_even(self.ticks as int, tick::MICROSECOND as int) % 1_000_000,
    {
        let (sec, usec) = tick::to_sec_usec(self.ticks);
        Timeval { tv_sec: sec, tv_usec: usec as i64 }
    }
}

} // verus!
