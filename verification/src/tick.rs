//! Tick arithmetic: the sizes of the time units in ticks of 100 ns, and
//! conversions between tick counts and counts of larger units.

use vstd::prelude::*;
use crate::div_mod::div_mod;

verus! {

/// The number of nanoseconds in a tick.
pub const PER_NANOSECOND: i64 = 100;

/// The number of ticks in a microsecond.
pub const MICROSECOND: i64 = 10;

/// The number of ticks in a millisecond.
pub const MILLISECOND: i64 = 10_000;

/// The number of ticks in a second.
pub const SECOND: i64 = 10_000_000;

/// The number of ticks in a standard minute.
pub const MINUTE: i64 = 600_000_000;

/// The number of ticks in a standard hour.
pub const HOUR: i64 = 36_000_000_000;

/// The number of ticks in a standard day.
pub const DAY: i64 = 864_000_000_000;

/// The number of ticks in a standard day of 24 hours.
pub const STANDARD_DAY: i64 = 864_000_000_000;

/// The number of ticks in a standard week of seven standard days.
pub const STANDARD_WEEK: i64 = 6_048_000_000_000;

/// The largest magnitude of a unit that `from_larger_units` accepts.
pub const UNIT_LIMIT: i64 = 0x4000_0000;

/// The number of whole units nearest to `ticks`. Where `ticks` lies halfway
/// between two counts, the even one is taken.
pub open spec fn round_half_even(ticks: int, unit: int) -> int
    recommends
        unit > 0,
{
    let q = ticks / unit;
    let r = ticks % unit;
    if 2 * r > unit || (2 * r == unit && q % 2 != 0) {
        q + 1
    } else {
        q
    }
}

/// `Some(n)` where `n` is a 64-bit tick count, `None` where it is not.
pub open spec fn checked_ticks(n: int) -> Option<i64> {
    if i64::MIN <= n <= i64::MAX {
        Some(n as i64)
    } else {
        None
    }
}

/// The rounded count is the nearest one: it lies no more than half a unit
/// from the tick count, and where it lies exactly half a unit from it, the
/// count is even.
pub proof fn lemma_round_half_even_nearest(ticks: int, unit: int)
    requires
        unit > 0,
    ensures
        2 * vstd::math::abs(round_half_even(ticks, unit) * unit - ticks) <= unit,
        2 * vstd::math::abs(round_half_even(ticks, unit) * unit - ticks) == unit
            ==> round_half_even(ticks, unit) % 2 == 0,
{
    let q = ticks / unit;
    let r = ticks % unit;
    vstd::arithmetic::div_mod::lemma_fundamental_div_mod(ticks, unit);
    assert(q * unit - ticks == -r) by (nonlinear_arith)
        requires
            ticks == unit * q + r,
    ;
    assert((q + 1) * unit - ticks == unit - r) by (nonlinear_arith)
        requires
            ticks == unit * q + r,
    ;
}

/// No other count is as near: a count that lies no more than half a unit
/// from the tick count, and is even where it lies exactly half a unit from
/// it, is the rounded count.
pub proof fn lemma_round_half_even_unique(ticks: int, unit: int, count: int)
    requires
        unit > 0,
        2 * vstd::math::abs(count * unit - ticks) <= unit,
        2 * vstd::math::abs(count * unit - ticks) == unit ==> count % 2 == 0,
    ensures
        count == round_half_even(ticks, unit),
{
    let n = round_half_even(ticks, unit);
    lemma_round_half_even_nearest(ticks, unit);
    let a = count * unit - ticks;
    let b = n * unit - ticks;
    assert((count - n) * unit == a - b) by (nonlinear_arith)
        requires
            a == count * unit - ticks,
            b == n * unit - ticks,
    ;
    assert(-1 <= count - n <= 1) by (nonlinear_arith)
        requires
            (count - n) * unit == a - b,
            -unit <= a - b <= unit,
            unit > 0,
    ;
    if count - n == 1 {
        assert(1 * unit == unit);
        assert(2 * a == unit && 2 * b == -unit);
    } else if count - n == -1 {
        assert((-1) * unit == -unit);
        assert(2 * a == -unit && 2 * b == unit);
    }
}

/// Convert ticks to a larger unit, rounding to the nearest even integer.
pub fn to_larger_unit(ticks: i64, unit: i64) -> (total: i64)
    requires
        unit > 0,
    ensures
        total == round_half_even(ticks as int, unit as int),
{
    let (q, rem) = div_mod(ticks, unit);
    let rest: i64 = unit - rem;
    if rem > rest || (rem == rest && q % 2 != 0) {
        assert(q < i64::MAX) by (nonlinear_arith)
            requires
                q * unit + rem == ticks,
                0 < rem < unit,
                ticks <= i64::MAX,
                q <= i64::MAX,
        ;
        q + 1
    } else {
        q
    }
}

/// Convert ticks to whole seconds, with rounding.
pub fn to_sec(ticks: i64) -> (r: i64)
    ensures
        r == round_half_even(ticks as int, SECOND as int),
{
    to_larger_unit(ticks, SECOND)
}

/// Convert ticks to whole milliseconds, with rounding.
pub fn to_msec(ticks: i64) -> (r: i64)
    ensures
        r == round_half_even(ticks as int, MILLISECOND as int),
{
    to_larger_unit(ticks, MILLISECOND)
}

/// Convert ticks to whole microseconds, with rounding.
pub fn to_usec(ticks: i64) -> (r: i64)
    ensures
        r == round_half_even(ticks as int, MICROSECOND as int),
{
    to_larger_unit(ticks, MICROSECOND)
}

/// Convert ticks to seconds and fractional microseconds, with rounding.
pub fn to_sec_usec(ticks: i64) -> (r: (i64, i32))
    ensures
        r.0 == round_half_even(ticks as int, MICROSECOND as int) / 1_000_000,
        r.1 == round_half_even(ticks as int, MICROSECOND as int) % 1_000_000,
{
    let total_usec: i64 = to_larger_unit(ticks, MICROSECOND);
    let (sec, usec) = div_mod(total_usec, 1_000_000);
    (sec, usec as i32)
}

/// Convert ticks to seconds and fractional nanoseconds.
pub fn to_sec_nsec(ticks: i64) -> (r: (i64, i32))
    ensures
        r.0 == ticks as int / SECOND as int,
        r.1 == (ticks as int % SECOND as int) * PER_NANOSECOND,
{
    let (sec, rem) = div_mod(ticks, SECOND);
    (sec, (rem * PER_NANOSECOND) as i32)
}

/// The low 32 bits of a 64-bit number, and the rest shifted down, are its
/// remainder and its floor quotient by 2^32.
proof fn lemma_split_halves(v: i64)
    ensures
        0 <= (v & 0xffff_ffff) < 0x1_0000_0000,
        -0x8000_0000 <= (v >> 32) < 0x8000_0000,
        (v >> 32) * 0x1_0000_0000 + (v & 0xffff_ffff) == v,
{
    let hi: i64 = v >> 32;
    let lo: i64 = v & 0xffff_ffff;
    assert(0 <= lo && lo < 0x1_0000_0000) by (bit_vector)
        requires
            lo == v & 0xffff_ffff,
    ;
    assert(-0x8000_0000 <= hi && hi < 0x8000_0000) by (bit_vector)
        requires
            hi == v >> 32,
    ;
    assert(v == (hi << 32) | lo) by (bit_vector)
        requires
            hi == v >> 32,
            lo == v & 0xffff_ffff,
    ;
    lemma_join_halves(hi, lo);
}

/// A high half that fits in 32 bits, shifted up and joined with a low half,
/// is the high half times 2^32 plus the low half.
proof fn lemma_join_halves(hi: i64, lo: i64)
    requires
        -0x8000_0000 <= hi < 0x8000_0000,
        0 <= lo < 0x1_0000_0000,
    ensures
        ((hi << 32) | lo) == hi * 0x1_0000_0000 + lo,
{
    let up: i64 = hi << 32;
    assert(up == hi * 0x1_0000_0000) by (bit_vector)
        requires
            up == hi << 32,
            -0x8000_0000 <= hi && hi < 0x8000_0000,
    ;
    assert((up | lo) == up + lo) by (bit_vector)
        requires
            up == hi << 32,
            0 <= lo && lo < 0x1_0000_0000,
    ;
}

/// Convert from larger units to ticks: `v1` units of `u1` ticks and `v2`
/// units of `u2` ticks. Each value is split in two halves of 32 bits, so that
/// no partial product leaves the 64-bit range even where the values are
/// large. Returns `None` where the sum is no 64-bit tick count.
pub fn from_larger_units(v1: i64, v2: i64, u1: i64, u2: i64) -> (r: Option<i64>)
    requires
        -UNIT_LIMIT <= u1 <= UNIT_LIMIT,
        -UNIT_LIMIT <= u2 <= UNIT_LIMIT,
    ensures
        r == checked_ticks(v1 * u1 + v2 * u2),
{
    let h1: i64 = v1 >> 32;
    let h2: i64 = v2 >> 32;
    let l1: i64 = v1 & 0xffff_ffff;
    let l2: i64 = v2 & 0xffff_ffff;
    proof {
        lemma_split_halves(v1);
        lemma_split_halves(v2);
        lemma_partial_products(h1 as int, l1 as int, u1 as int);
        lemma_partial_products(h2 as int, l2 as int, u2 as int);
    }
    let hi: i64 = h1 * u1 + h2 * u2;
    let lo: i64 = l1 * u1 + l2 * u2;
    proof {
        lemma_split_halves(lo);
    }
    let hi: i64 = hi + (lo >> 32);
    let lo: i64 = lo & 0xffff_ffff;
    assert(hi * 0x1_0000_0000 + lo == v1 * u1 + v2 * u2) by (nonlinear_arith)
        requires
            hi == h1 * u1 + h2 * u2 + (l1 * u1 + l2 * u2 - lo) / 0x1_0000_0000,
            (l1 * u1 + l2 * u2 - lo) % 0x1_0000_0000 == 0,
            h1 * 0x1_0000_0000 + l1 == v1,
            h2 * 0x1_0000_0000 + l2 == v2,
    ;
    if hi < -0x8000_0000 || hi >= 0x8000_0000 {
        return None;
    }
    proof {
        lemma_join_halves(hi, lo);
    }
    Some((hi << 32) | lo)
}

/// The products of the halves of a value with a unit stay far inside the
/// 64-bit range.
proof fn lemma_partial_products(h: int, l: int, u: int)
    requires
        -0x8000_0000 <= h < 0x8000_0000,
        0 <= l < 0x1_0000_0000,
        -0x4000_0000 <= u <= 0x4000_0000,
    ensures
        -0x2000_0000_0000_0000 <= h * u <= 0x2000_0000_0000_0000,
        -0x4000_0000_0000_0000 < l * u < 0x4000_0000_0000_0000,
{
    assert(-0x2000_0000_0000_0000 <= h * u <= 0x2000_0000_0000_0000) by (nonlinear_arith)
        requires
            -0x8000_0000 <= h < 0x8000_0000,
            -0x4000_0000 <= u <= 0x4000_0000,
    ;
    assert(-0x4000_0000_0000_0000 < l * u < 0x4000_0000_0000_0000) by (nonlinear_arith)
        requires
            0 <= l < 0x1_0000_0000,
            -0x4000_0000 <= u <= 0x4000_0000,
    ;
}

/// Convert from seconds and microseconds to ticks. Returns `None` on
/// overflow.
pub fn from_sec_usec(sec: i64, usec: i64) -> (r: Option<i64>)
    ensures
        r == checked_ticks(sec * SECOND + usec * MICROSECOND),
{
    from_larger_units(sec, usec, SECOND, MICROSECOND)
}

/// Convert from seconds and nanoseconds to ticks. Returns `None` on
/// overflow. Rounds to the nearest integral number of ticks.
pub fn from_sec_nsec(sec: i64, nsec: i64) -> (r: Option<i64>)
    ensures
        r == checked_ticks(sec * SECOND + round_half_even(nsec as int, PER_NANOSECOND as int)),
{
    from_larger_units(sec, to_larger_unit(nsec, PER_NANOSECOND), SECOND, 1)
}

} // verus!
