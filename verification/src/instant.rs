//! Instants: tick counts since the epoch 2000-01-01T00:00:00Z, and their
//! ISO 8601 text.

use vstd::prelude::*;
use crate::ascii::{COLON, LETTER_T, LETTER_Z, MINUS};
use crate::calendar_iso8601::{date_of_day, from_cjd};
use crate::decimal::{
    decimal_digits, lemma_decimal_digits_are_digits, lemma_padded_digits_are_digits,
    lemma_pow10_values, padded_digits, pow10, write_decimal, write_padded,
};
use crate::div_mod::div_mod;
use crate::duration::Duration;
use crate::fmtutil::{
    ascii_chars, field_text, is_ascii_text, string_from_ascii, write_field, Formatter,
};
use crate::posix::{Timespec, Timeval};
use crate::tick;
use crate::tick::{checked_ticks, round_half_even};

verus! {

/// An absolute moment in time, independent of time zones and calendars.
/// This uses the default time scale, which does not account for leap seconds.
#[derive(PartialEq, Eq, Structural, Ord, Clone, Copy, Debug, Hash)]
pub struct Instant {
    pub ticks: i64,
}

/// The Unix epoch, in days.
pub const UNIX_EPOCH_DAY: i64 = -10957;

/// This library's epoch, relative to the Unix epoch, in seconds.
pub const EPOCH_UNIX_SECOND: i64 = 946_684_800;

/// The Unix epoch, January 1, 1970, in ticks.
pub const UNIX_EPOCH_TICKS: i64 = -9_466_848_000_000_000;

/// A number written in at least `width` digits, with zeros in front where
/// it has fewer.
pub open spec fn zero_padded(n: nat, width: nat) -> Seq<u8> {
    if n < pow10(width) {
        padded_digits(n, width)
    } else {
        decimal_digits(n)
    }
}

/// A year written in at least four characters, of which a minus sign is
/// one where the year is negative.
pub open spec fn year_text(year: int) -> Seq<u8> {
    if year >= 0 {
        zero_padded(year as nat, 4)
    } else {
        seq![MINUS] + zero_padded((-year) as nat, 3)
    }
}

/// The text of an instant: its date and its time of day to the second, as
/// `YYYY-MM-DDTHH:MM:SSZ`. The day is the number of whole days since the
/// epoch, rounded down, and the time of day is what is left.
pub open spec fn instant_text(ticks: int) -> Seq<u8> {
    let date = date_of_day(ticks / (tick::DAY as int));
    let second = (ticks % (tick::DAY as int)) / (tick::SECOND as int);
    year_text(date.0) + seq![MINUS] + padded_digits(date.1 as nat, 2) + seq![MINUS]
        + padded_digits(date.2 as nat, 2) + seq![LETTER_T] + padded_digits(
        (second / 3600) as nat,
        2,
    ) + seq![COLON] + padded_digits((second / 60 % 60) as nat, 2) + seq![COLON] + padded_digits(
        (second % 60) as nat,
        2,
    ) + seq![LETTER_Z]
}

/// Append a year: see `year_text`.
fn write_year(out: &mut Vec<u8>, year: i64)
    requires
        i64::MIN < year,
    ensures
        final(out)@ == old(out)@ + year_text(year as int),
{
    proof {
        lemma_pow10_values();
    }
    if year >= 0 {
        if year < 10_000 {
            write_padded(out, year as u64, 4);
        } else {
            write_decimal(out, year as u64);
        }
    } else {
        out.push(MINUS);
        let mag: u64 = (-year) as u64;
        if mag < 1_000 {
            write_padded(out, mag, 3);
        } else {
            write_decimal(out, mag);
        }
    }
    assert(final(out)@ =~= old(out)@ + year_text(year as int));
}

/// The text of an instant holds ASCII characters only.
pub proof fn lemma_instant_text_ascii(ticks: int)
    ensures
        is_ascii_text(instant_text(ticks)),
{
    let date = date_of_day(ticks / (tick::DAY as int));
    let second = (ticks % (tick::DAY as int)) / (tick::SECOND as int);
    if date.0 >= 0 {
        lemma_padded_digits_are_digits(date.0 as nat, 4);
        lemma_decimal_digits_are_digits(date.0 as nat);
    } else {
        lemma_padded_digits_are_digits((-date.0) as nat, 3);
        lemma_decimal_digits_are_digits((-date.0) as nat);
    }
    lemma_padded_digits_are_digits(date.1 as nat, 2);
    lemma_padded_digits_are_digits(date.2 as nat, 2);
    lemma_padded_digits_are_digits((second / 3600) as nat, 2);
    lemma_padded_digits_are_digits((second / 60 % 60) as nat, 2);
    lemma_padded_digits_are_digits((second % 60) as nat, 2);
}

impl core::ops::Add<Duration> for Instant {
    type Output = Instant;

    fn add(self, rhs: Duration) -> (r: Instant) {
        Instant { ticks: self.ticks + rhs.ticks }
    }
}

impl vstd::std_specs::ops::AddSpecImpl<Duration> for Instant {
    open spec fn obeys_add_spec() -> bool {
        true
    }

    open spec fn add_req(self, rhs: Duration) -> bool {
        i64::MIN <= self.ticks + rhs.ticks <= i64::MAX
    }

    open spec fn add_spec(self, rhs: Duration) -> Instant {
        Instant { ticks: (self.ticks + rhs.ticks) as i64 }
    }
}

impl core::ops::Sub<Duration> for Instant {
    type Output = Instant;

    fn sub(self, rhs: Duration) -> (r: Instant) {
        Instant { ticks: self.ticks - rhs.ticks }
    }
}

impl vstd::std_specs::ops::SubSpecImpl<Duration> for Instant {
    open spec fn obeys_sub_spec() -> bool {
        true
    }

    open spec fn sub_req(self, rhs: Duration) -> bool {
        i64::MIN <= self.ticks - rhs.ticks <= i64::MAX
    }

    open spec fn sub_spec(self, rhs: Duration) -> Instant {
        Instant { ticks: (self.ticks - rhs.ticks) as i64 }
    }
}

impl core::ops::Sub<Instant> for Instant {
    type Output = Duration;

    fn sub(self, rhs: Instant) -> (r: Duration) {
        Duration { ticks: self.ticks - rhs.ticks }
    }
}

impl vstd::std_specs::ops::SubSpecImpl<Instant> for Instant {
    open spec fn obeys_sub_spec() -> bool {
        true
    }

    open spec fn sub_req(self, rhs: Instant) -> bool {
        i64::MIN <= self.ticks - rhs.ticks <= i64::MAX
    }

    open spec fn sub_spec(self, rhs: Instant) -> Duration {
        Duration { ticks: (self.ticks - rhs.ticks) as i64 }
    }
}

impl Instant {
    /// The Unix epoch: January 1, 1970.
    pub fn unix_epoch() -> (r: Instant)
        ensures
            r.ticks == tick::DAY * UNIX_EPOCH_DAY,
    {
        Instant { ticks: UNIX_EPOCH_TICKS }
    }

    /// The earliest instant.
    pub fn min_value() -> (r: Instant)
        ensures
            r.ticks == i64::MIN,
    {
        Instant { ticks: i64::MIN }
    }

    /// The latest instant.
    pub fn max_value() -> (r: Instant)
        ensures
            r.ticks == i64::MAX,
    {
        Instant { ticks: i64::MAX }
    }

    /// Convert an instant to its ISO 8601 text in UTF-8.
    pub fn to_utf8(&self) -> (out: Vec<u8>)
        ensures
            out@ == instant_text(self.ticks as int),
    {
        let mut out: Vec<u8> = Vec::with_capacity(32);
        let (cjd, tickrem) = div_mod(self.ticks, tick::DAY);
        let (y, m, d) = from_cjd(cjd);
        let ss: i64 = tickrem / tick::SECOND;
        let mm: i64 = ss / 60;
        let ss: i64 = ss % 60;
        let hh: i64 = mm / 60;
        let mm: i64 = mm % 60;
        write_year(&mut out, y);
        out.push(MINUS);
        write_padded(&mut out, m as u64, 2);
        out.push(MINUS);
        write_padded(&mut out, d as u64, 2);
        out.push(LETTER_T);
        write_padded(&mut out, hh as u64, 2);
        out.push(COLON);
        write_padded(&mut out, mm as u64, 2);
        out.push(COLON);
        write_padded(&mut out, ss as u64, 2);
        out.push(LETTER_Z);
        assert(out@ =~= instant_text(self.ticks as int));
        out
    }

    /// Write the instant as a field of text: its ISO 8601 text, padded to
    /// the formatter's width.
    pub fn fmt(&self, f: &Formatter, out: &mut Vec<u8>)
        ensures
            final(out)@ == old(out)@ + field_text(*f, instant_text(self.ticks as int)),
    {
        let data: Vec<u8> = self.to_utf8();
        write_field(out, f, data.as_slice());
    }

    /// The ISO 8601 text of the instant.
    pub fn to_string(&self) -> (r: String)
        ensures
            r@ == ascii_chars(instant_text(self.ticks as int)),
    {
        let data: Vec<u8> = self.to_utf8();
        proof {
            lemma_instant_text_ascii(self.ticks as int);
        }
        string_from_ascii(data)
    }

    /// Convert from a POSIX timespec structure. The input must measure
    /// time since the POSIX epoch, using the POSIX time scale. The
    /// nanoseconds are rounded to the nearest tick. Returns `None` where the
    /// result is no 64-bit tick count.
    pub fn from_timespec(value: &Timespec) -> (r: Option<Duration>)
        ensures
            r == match checked_ticks(
                (value.tv_sec - EPOCH_UNIX_SECOND) * tick::SECOND + round_half_even(
                    value.tv_nsec as int,
                    tick::PER_NANOSECOND as int,
                ),
            ) {
                Some(n) => Some(Duration { ticks: n }),
                None => None,
            },
    {
        let sec: i64 = match value.tv_sec.checked_add(-EPOCH_UNIX_SECOND) {
            Some(n) => n,
            None => {
                return None;
            },
        };
        match tick::from_sec_nsec(sec, value.tv_nsec) {
            Some(n) => Some(Duration { ticks: n }),
            None => None,
        }
    }

    /// Convert from a POSIX timeval structure. The input must measure
    /// time since the POSIX epoch, using the POSIX time scale. Returns
    /// `None` where the result is no 64-bit tick count.
    pub fn from_timesval(value: &Timeval) -> (r: Option<Duration>)
        ensures
            r == match checked_ticks(
                (value.tv_sec - EPOCH_UNIX_SECOND) * tick::SECOND + value.tv_usec
                    * tick::MICROSECOND,
            ) {
                Some(n) => Some(Duration { ticks: n }),
                None => None,
            },
    {
        let sec: i64 = match value.tv_sec.checked_add(-EPOCH_UNIX_SECOND) {
            Some(n) => n,
            None => {
                return None;
            },
        };
        match tick::from_sec_usec(sec, value.tv_usec) {
            Some(n) => Some(Duration { ticks: n }),
            None => None,
        }
    }

    /// Convert to a POSIX timeval structure. The resulting structure
    /// will measure time since the POSIX epoch, using the POSIX time scale.
    pub fn to_timeval(&self) -> (r: Timeval)
        ensures
            r.tv_sec == round_half_even(self.ticks as int, tick::MICROSECOND as int) / 1_000_000
                + EPOCH_UNIX_SECOND,
            r.tv_usec == round_half_even(self.ticks as int, tick::MICROSECOND as int) % 1_000_000,
    {
        let (sec, usec) = tick::to_sec_usec(self.ticks);
        Timeval { tv_sec: sec + EPOCH_UNIX_SECOND, tv_usec: usec as i64 }
    }

    /// Convert to a POSIX timespec structure. The resulting structure
    /// will measure time since the POSIX epoch, using the POSIX time scale.
    pub fn to_timespec(&self) -> (r: Timespec)
        ensures
            r.tv_sec == self.ticks as int / tick::SECOND as int + EPOCH_UNIX_SECOND,
            r.tv_nsec == (self.ticks as int % tick::SECOND as int) * tick::PER_NANOSECOND,
    {
        let (sec, nsec) = tick::to_sec_nsec(self.ticks);
        Timespec { tv_sec: sec + EPOCH_UNIX_SECOND, tv_nsec: nsec as i64 }
    }
}

} // verus!
