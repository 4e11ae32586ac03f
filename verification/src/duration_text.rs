//! The ISO 8601 text of a duration: what a text stands for, what text a
//! tick count is written as, and that reading a written text gives the tick
//! count again.

use vstd::prelude::*;
use crate::ascii::{COMMA, FIVE, LETTER_P, LETTER_S, LETTER_T, MINUS, PERIOD, SMALL, ZERO};
use crate::decimal::{
    all_digits, decimal_digits, decimal_value, digit_run, is_digit, lemma_decimal_digits_are_digits,
    lemma_decimal_value_bound, lemma_decimal_value_of_digits, lemma_decimal_value_of_padded,
    lemma_digit_run, lemma_digit_run_is, lemma_padded_digits_are_digits, lemma_pow10_increases,
    lemma_pow10_values, padded_digits, parse_digits, pow10, pow10_u64, scan_digits,
    write_decimal, write_padded,
};
use crate::fmtutil::{is_ascii_text, repeated};
use crate::tick::round_half_even;

verus! {

/// Whether the byte is the capital letter or its small letter.
pub open spec fn is_letter(b: u8, capital: u8) -> bool {
    b == capital || b == capital + SMALL
}

/// Whether every byte of the text is the digit zero.
pub open spec fn all_zeros(ds: Seq<u8>) -> bool {
    forall|i: int| 0 <= i < ds.len() ==> #[trigger] ds[i] == ZERO
}

/// The number of ticks that the fractional digits of a number of seconds
/// stand for. Up to seven digits are exact. Of more, the first seven count
/// and the rest rounds them: up where the eighth digit is above 5, or is 5
/// with a digit other than zero after it; down where it is below 5; and to
/// the even tick count where it is 5 with zeros only after it.
pub open spec fn fraction_ticks(ds: Seq<u8>) -> nat {
    if ds.len() <= 7 {
        decimal_value(ds) * pow10((7 - ds.len()) as nat)
    } else {
        let n = decimal_value(ds.subrange(0, 7));
        if ds[7] == FIVE && all_zeros(ds.subrange(8, ds.len() as int)) {
            n + n % 2
        } else if ds[7] >= FIVE {
            n + 1
        } else {
            n
        }
    }
}

/// The tick count that a text stands for, or `None` where the text is no
/// duration or its tick count is no 64-bit number.
///
/// A duration is written `PT`, an optional `-`, the seconds in decimal
/// digits, optionally a period or a comma and the fractional digits, and
/// `S`. The letters may be small. Nothing may come before or after.
pub open spec fn duration_ticks(s: Seq<u8>) -> Option<int> {
    let negative = s.len() > 2 && s[2] == MINUS;
    let int_from: int = if negative {
        3
    } else {
        2
    };
    let int_to = int_from + digit_run(s, int_from);
    let has_fraction = int_to < s.len() && (s[int_to] == PERIOD || s[int_to] == COMMA);
    let frac_from = if has_fraction {
        int_to + 1
    } else {
        int_to
    };
    let frac_to = frac_from + (if has_fraction {
        digit_run(s, frac_from)
    } else {
        0
    });
    let magnitude = decimal_value(s.subrange(int_from, int_to)) * 10_000_000 + fraction_ticks(
        s.subrange(frac_from, frac_to),
    );
    let ticks = if negative {
        -magnitude
    } else {
        magnitude as int
    };
    if s.len() < 2 || !is_letter(s[0], LETTER_P) || !is_letter(s[1], LETTER_T) {
        None
    } else if int_to == int_from {
        None
    } else if has_fraction && frac_to == frac_from {
        None
    } else if frac_to + 1 != s.len() || !is_letter(s[frac_to], LETTER_S) {
        None
    } else if ticks < i64::MIN || ticks > i64::MAX {
        None
    } else {
        Some(ticks)
    }
}

/// A number and the count of its digits that stand behind the decimal
/// point, with the zeros at its end taken off as far as they stand behind
/// the point.
pub open spec fn trimmed(significand: nat, dotpos: nat) -> (nat, nat)
    decreases dotpos,
{
    if dotpos > 0 && significand % 10 == 0 {
        trimmed(significand / 10, (dotpos - 1) as nat)
    } else {
        (significand, dotpos)
    }
}

/// What is written of a magnitude in ticks: the number whose digits are
/// written, the count of those that stand behind the decimal point, and the
/// count of zeros written after them.
///
/// With no precision the seven fractional digits lose their zeros at the
/// end. With a precision below seven the magnitude is rounded to that many
/// fractional digits, a half to the even number. With more, the seven digits
/// are followed by zeros.
pub open spec fn shown_digits(magnitude: nat, precision: Option<usize>) -> (nat, nat, nat) {
    match precision {
        None => (trimmed(magnitude, 7).0, trimmed(magnitude, 7).1, 0),
        Some(p) => if p < 7 {
            (
                round_half_even(magnitude as int, pow10((7 - p) as nat) as int) as nat,
                p as nat,
                0,
            )
        } else {
            (magnitude, 7, (p - 7) as nat)
        },
    }
}

/// A number written with its last `dotpos` digits behind a decimal point;
/// without a point where `dotpos` is zero.
pub open spec fn fixed_point_text(significand: nat, dotpos: nat) -> Seq<u8> {
    decimal_digits(significand / pow10(dotpos)) + (if dotpos > 0 {
        seq![PERIOD] + padded_digits(significand, dotpos)
    } else {
        Seq::<u8>::empty()
    })
}

/// The text of a duration of `ticks` ticks: `PT`, a `-` where the duration
/// is negative and what is written of it is not zero, the seconds, and `S`.
pub open spec fn duration_text(ticks: int, precision: Option<usize>) -> Seq<u8> {
    let shown = shown_digits(vstd::math::abs(ticks) as nat, precision);
    seq![LETTER_P, LETTER_T] + (if ticks < 0 && shown.0 > 0 {
        seq![MINUS]
    } else {
        Seq::<u8>::empty()
    }) + fixed_point_text(shown.0, shown.1) + repeated(seq![ZERO], shown.2) + seq![LETTER_S]
}

/// Whether the bytes from `from` up to `to` are all the digit zero.
fn is_all_zeros(s: &[u8], from: usize, to: usize) -> (r: bool)
    requires
        from <= to <= s.len(),
    ensures
        r == all_zeros(s@.subrange(from as int, to as int)),
{
    let mut i: usize = from;
    while i < to
        invariant
            from <= i <= to <= s.len(),
            forall|k: int| from <= k < i ==> #[trigger] s@[k] == ZERO,
        decreases to - i,
    {
        if s[i] != ZERO {
            assert(s@.subrange(from as int, to as int)[i - from] != ZERO);
            return false;
        }
        i = i + 1;
    }
    true
}

/// Read the fractional digits of a number of seconds, which stand from
/// `from` up to `to`, as ticks.
fn read_fraction(s: &[u8], from: usize, to: usize) -> (r: u64)
    requires
        from <= to <= s.len(),
        all_digits(s@.subrange(from as int, to as int)),
    ensures
        r == fraction_ticks(s@.subrange(from as int, to as int)),
        r <= 10_000_000,
{
    let ghost ds = s@.subrange(from as int, to as int);
    let len: usize = to - from;
    proof {
        lemma_pow10_values();
    }
    if len <= 7 {
        proof {
            lemma_decimal_value_bound(ds);
            lemma_fraction_bound(ds);
        }
        let scale: u64 = pow10_u64(7 - len);
        match parse_digits(s, from, to) {
            Some(n) => n * scale,
            None => 0,
        }
    } else {
        proof {
            assert(ds.subrange(0, 7) =~= s@.subrange(from as int, from + 7));
            assert forall|i: int| 0 <= i < 7 implies is_digit(
                #[trigger] ds.subrange(0, 7)[i],
            ) by {
                assert(ds.subrange(0, 7)[i] == ds[i]);
            }
            lemma_decimal_value_bound(ds.subrange(0, 7));
        }
        let n: u64 = match parse_digits(s, from, from + 7) {
            Some(n) => n,
            None => 0,
        };
        let eighth: u8 = s[from + 7];
        assert(eighth == ds[7]);
        if eighth == FIVE && is_all_zeros(s, from + 8, to) {
            assert(ds.subrange(8, ds.len() as int) =~= s@.subrange(from + 8, to as int));
            n + n % 2
        } else if eighth >= FIVE {
            assert(ds.subrange(8, ds.len() as int) =~= s@.subrange(from + 8, to as int));
            n + 1
        } else {
            n
        }
    }
}

/// Read the tick count that a text stands for: `PT`, the seconds as a
/// decimal number, possibly negative, possibly using a comma, and `S`; the
/// letters are case-insensitive.
pub fn read_duration(s: &[u8]) -> (r: Option<i64>)
    ensures
        r == match duration_ticks(s@) {
            Some(t) => Some(t as i64),
            None => None,
        },
{
    let len: usize = s.len();
    if len < 2 || !(s[0] == LETTER_P || s[0] == LETTER_P + SMALL) || !(s[1] == LETTER_T || s[1]
        == LETTER_T + SMALL) {
        return None;
    }
    let negative: bool = len > 2 && s[2] == MINUS;
    let int_from: usize = if negative {
        3
    } else {
        2
    };
    let int_to: usize = scan_digits(s, int_from);
    if int_to == int_from {
        return None;
    }
    let has_fraction: bool = int_to < len && (s[int_to] == PERIOD || s[int_to] == COMMA);
    let frac_from: usize = if has_fraction {
        int_to + 1
    } else {
        int_to
    };
    let frac_to: usize = if has_fraction {
        scan_digits(s, frac_from)
    } else {
        int_to
    };
    if has_fraction && frac_to == frac_from {
        return None;
    }
    if frac_to >= len || frac_to + 1 != len || !(s[frac_to] == LETTER_S || s[frac_to]
        == LETTER_S + SMALL) {
        return None;
    }
    proof {
        lemma_digit_run(s@, int_from as int);
        if has_fraction {
            lemma_digit_run(s@, frac_from as int);
        } else {
            assert(s@.subrange(frac_from as int, frac_to as int) =~= Seq::<u8>::empty());
        }
    }
    let seconds: u64 = match parse_digits(s, int_from, int_to) {
        Some(n) => n,
        None => {
            return None;
        },
    };
    let tick_part: u64 = read_fraction(s, frac_from, frac_to);
    let sec_part: u64 = match seconds.checked_mul(10_000_000) {
        Some(n) => n,
        None => {
            return None;
        },
    };
    let ticks: u64 = match sec_part.checked_add(tick_part) {
        Some(n) => n,
        None => {
            return None;
        },
    };
    if negative {
        if ticks > 0x8000_0000_0000_0000 {
            None
        } else if ticks == 0x8000_0000_0000_0000 {
            Some(i64::MIN)
        } else {
            Some(-(ticks as i64))
        }
    } else {
        if ticks > 0x7fff_ffff_ffff_ffff {
            None
        } else {
            Some(ticks as i64)
        }
    }
}

/// Find what is written of a magnitude: see `shown_digits`.
fn shown_digits_of(mag: u64, precision: Option<usize>) -> (r: (u64, usize, usize))
    requires
        mag <= 0x8000_0000_0000_0000,
    ensures
        (r.0 as nat, r.1 as nat, r.2 as nat) == shown_digits(mag as nat, precision),
        r.1 <= 7,
{
    match precision {
        None => {
            let mut significand: u64 = mag;
            let mut dotpos: usize = 7;
            while dotpos > 0 && significand % 10 == 0
                invariant
                    dotpos <= 7,
                    trimmed(significand as nat, dotpos as nat) == trimmed(mag as nat, 7),
                decreases dotpos,
            {
                significand = significand / 10;
                dotpos = dotpos - 1;
            }
            (significand, dotpos, 0)
        },
        Some(prec) => {
            if prec < 7 {
                let x: u64 = pow10_u64(7 - prec);
                let rem: u64 = mag % x;
                let ival: u64 = mag / x;
                if rem > x / 2 || (rem == x / 2 && ival % 2 == 1) {
                    (ival + 1, prec, 0)
                } else {
                    (ival, prec, 0)
                }
            } else {
                (mag, 7, prec - 7)
            }
        },
    }
}

/// Append a number with its last `dotpos` digits behind a decimal point.
fn write_fixed_point(out: &mut Vec<u8>, significand: u64, dotpos: usize)
    requires
        dotpos <= 7,
    ensures
        final(out)@ == old(out)@ + fixed_point_text(significand as nat, dotpos as nat),
{
    write_decimal(out, significand / pow10_u64(dotpos));
    if dotpos > 0 {
        out.push(PERIOD);
        write_padded(out, significand, dotpos);
    }
    assert(final(out)@ =~= old(out)@ + fixed_point_text(significand as nat, dotpos as nat));
}

/// Append the digit zero `n` times.
fn write_zeros(out: &mut Vec<u8>, n: usize)
    ensures
        final(out)@ == old(out)@ + repeated(seq![ZERO], n as nat),
{
    let mut i: usize = 0;
    assert(out@ =~= old(out)@ + repeated(seq![ZERO], 0));
    while i < n
        invariant
            i <= n,
            out@ == old(out)@ + repeated(seq![ZERO], i as nat),
        decreases n - i,
    {
        out.push(ZERO);
        i = i + 1;
        assert(out@ =~= old(out)@ + repeated(seq![ZERO], i as nat));
    }
}

/// Append the text of a duration of `ticks` ticks, with the given number of
/// fractional digits, or with as many as it needs where none is given.
pub fn write_duration(out: &mut Vec<u8>, ticks: i64, precision: Option<usize>)
    ensures
        final(out)@ == old(out)@ + duration_text(ticks as int, precision),
{
    out.push(LETTER_P);
    out.push(LETTER_T);
    let mag: u64 = if ticks >= 0 {
        ticks as u64
    } else {
        (-(ticks as i128)) as u64
    };
    let (significand, dotpos, zeroes) = shown_digits_of(mag, precision);
    if ticks < 0 && significand > 0 {
        out.push(MINUS);
    }
    write_fixed_point(out, significand, dotpos);
    write_zeros(out, zeroes);
    out.push(LETTER_S);
    assert(final(out)@ =~= old(out)@ + duration_text(ticks as int, precision));
}

/// Up to seven fractional digits stand for less than a second.
proof fn lemma_fraction_bound(ds: Seq<u8>)
    requires
        ds.len() <= 7,
        all_digits(ds),
    ensures
        decimal_value(ds) * pow10((7 - ds.len()) as nat) < 10_000_000,
        decimal_value(ds) < 10_000_000,
{
    let v = decimal_value(ds);
    let p = pow10((7 - ds.len()) as nat);
    let q = pow10(ds.len());
    lemma_decimal_value_bound(ds);
    lemma_pow10_product(ds.len());
    lemma_pow10_increases(ds.len(), 7);
    lemma_pow10_values();
    assert(v * p < 10_000_000) by (nonlinear_arith)
        requires
            0 <= v < q,
            q * p == 10_000_000,
            p >= 0,
    ;
}

/// Ten to the power of `k`, times ten to the power of what `k` lacks to
/// seven, is ten to the power of seven.
proof fn lemma_pow10_product(k: nat)
    requires
        k <= 7,
    ensures
        pow10(k) * pow10((7 - k) as nat) == 10_000_000,
        pow10(k) > 0,
    decreases k,
{
    lemma_pow10_values();
    if k > 0 {
        lemma_pow10_product((k - 1) as nat);
        let a = pow10((k - 1) as nat);
        let b = pow10((7 - k) as nat);
        assert(pow10(k) == 10 * a);
        assert(pow10((7 - (k - 1)) as nat) == 10 * b);
        assert((10 * a) * b == a * (10 * b)) by (nonlinear_arith);
    }
}

/// A row of zeros is as long as their number and holds the digit zero only.
pub proof fn lemma_repeated_zeros(n: nat)
    ensures
        repeated(seq![ZERO], n).len() == n,
        all_zeros(repeated(seq![ZERO], n)),
    decreases n,
{
    if n > 0 {
        lemma_repeated_zeros((n - 1) as nat);
    }
}

/// The text of a duration holds ASCII characters only.
pub proof fn lemma_duration_text_ascii(ticks: int, precision: Option<usize>)
    ensures
        is_ascii_text(duration_text(ticks, precision)),
{
    let shown = shown_digits(vstd::math::abs(ticks) as nat, precision);
    lemma_decimal_digits_are_digits(shown.0 / pow10(shown.1));
    lemma_padded_digits_are_digits(shown.0, shown.1);
    lemma_repeated_zeros(shown.2);
}

/// The text of a duration, put together from its parts: whether it has a
/// minus sign, the digits of its seconds, and its fractional digits, where
/// no fractional digits stand for no decimal point.
pub open spec fn text_of_parts(negative: bool, seconds: Seq<u8>, fraction: Seq<u8>) -> Seq<u8> {
    seq![LETTER_P, LETTER_T] + (if negative {
        seq![MINUS]
    } else {
        Seq::<u8>::empty()
    }) + seconds + (if fraction.len() > 0 {
        seq![PERIOD] + fraction
    } else {
        Seq::<u8>::empty()
    }) + seq![LETTER_S]
}

/// A text put together from digits stands for the tick count of those
/// digits, where that is a 64-bit number.
pub proof fn lemma_ticks_of_parts(negative: bool, seconds: Seq<u8>, fraction: Seq<u8>)
    requires
        seconds.len() > 0,
        all_digits(seconds),
        all_digits(fraction),
    ensures
        duration_ticks(text_of_parts(negative, seconds, fraction)) == ({
            let magnitude = decimal_value(seconds) * 10_000_000 + fraction_ticks(fraction);
            let ticks = if negative {
                -magnitude
            } else {
                magnitude as int
            };
            if ticks < i64::MIN || ticks > i64::MAX {
                None
            } else {
                Some(ticks)
            }
        }),
{
    let s = text_of_parts(negative, seconds, fraction);
    let int_from: int = if negative {
        3
    } else {
        2
    };
    let int_to = int_from + seconds.len();
    let has_fraction = fraction.len() > 0;
    let frac_from = if has_fraction {
        int_to + 1
    } else {
        int_to
    };
    let frac_to = frac_from + fraction.len();
    assert(s.len() == frac_to + 1);
    assert(s[0] == LETTER_P && s[1] == LETTER_T);
    assert(negative ==> s[2] == MINUS);
    assert(forall|i: int| int_from <= i < int_to ==> #[trigger] s[i] == seconds[i - int_from]);
    assert(!negative ==> s[2] == seconds[0]);
    assert(has_fraction ==> s[int_to] == PERIOD);
    assert(forall|i: int| frac_from <= i < frac_to ==> #[trigger] s[i] == fraction[i - frac_from]);
    assert(s[frac_to] == LETTER_S);
    lemma_digit_run_is(s, int_from, int_to);
    if has_fraction {
        lemma_digit_run_is(s, frac_from, frac_to);
    }
    assert(s.subrange(int_from, int_to) =~= seconds);
    assert(s.subrange(frac_from, frac_to) =~= fraction);
}

/// A magnitude and what is left of it without the zeros at its end: the
/// digits left, with as many zeros after them as were taken off, are the
/// magnitude.
pub proof fn lemma_trimmed(significand: nat, dotpos: nat)
    ensures
        trimmed(significand, dotpos).1 <= dotpos,
        trimmed(significand, dotpos).0 * pow10((dotpos - trimmed(significand, dotpos).1) as nat)
            == significand,
    decreases dotpos,
{
    let t = trimmed(significand, dotpos);
    if dotpos > 0 && significand % 10 == 0 {
        lemma_trimmed(significand / 10, (dotpos - 1) as nat);
        assert(t == trimmed(significand / 10, (dotpos - 1) as nat));
        let k = ((dotpos - 1) - t.1) as nat;
        assert((dotpos - t.1) as nat == k + 1);
        assert(pow10(k + 1) == 10 * pow10(k));
        assert(t.0 * pow10(k) == significand / 10);
        assert(t.0 * (10 * pow10(k)) == (t.0 * pow10(k)) * 10) by (nonlinear_arith);
    } else {
        assert(t == (significand, dotpos));
        assert((dotpos - t.1) as nat == 0);
        assert(pow10(0) == 1);
        assert(significand * 1 == significand);
    }
}

/// A number written with its last `dotpos` digits behind the point stands
/// for the number, counted in units of which ten to the power of `dotpos`
/// make a second.
proof fn lemma_fixed_point_value(significand: nat, dotpos: nat)
    requires
        dotpos <= 7,
    ensures
        decimal_value(decimal_digits(significand / pow10(dotpos))) * 10_000_000 + decimal_value(
            padded_digits(significand, dotpos),
        ) * pow10((7 - dotpos) as nat) == significand * pow10((7 - dotpos) as nat),
{
    let p = pow10(dotpos);
    let q = pow10((7 - dotpos) as nat);
    lemma_pow10_product(dotpos);
    lemma_decimal_value_of_digits(significand / p);
    lemma_decimal_value_of_padded(significand, dotpos);
    vstd::arithmetic::div_mod::lemma_fundamental_div_mod(significand as int, p as int);
    let d = significand / p;
    let r = significand % p;
    assert(d * 10_000_000 + r * q == significand * q) by (nonlinear_arith)
        requires
            significand == p * d + r,
            p * q == 10_000_000,
    ;
}

/// The fractional digits that the text of a duration holds: the digits
/// behind the point and the zeros written after them.
pub open spec fn shown_fraction(shown: (nat, nat, nat)) -> Seq<u8> {
    if shown.1 > 0 {
        padded_digits(shown.0, shown.1) + repeated(seq![ZERO], shown.2)
    } else {
        Seq::<u8>::empty()
    }
}

/// The text of a duration is put together from its sign, the digits of its
/// seconds and its fractional digits.
proof fn lemma_duration_text_parts(ticks: int, precision: Option<usize>)
    ensures
        ({
            let shown = shown_digits(vstd::math::abs(ticks) as nat, precision);
            &&& duration_text(ticks, precision) == text_of_parts(
                ticks < 0 && shown.0 > 0,
                decimal_digits(shown.0 / pow10(shown.1)),
                shown_fraction(shown),
            )
            &&& all_digits(decimal_digits(shown.0 / pow10(shown.1)))
            &&& decimal_digits(shown.0 / pow10(shown.1)).len() > 0
            &&& all_digits(shown_fraction(shown))
        }),
{
    let shown = shown_digits(vstd::math::abs(ticks) as nat, precision);
    let seconds = decimal_digits(shown.0 / pow10(shown.1));
    let fraction = shown_fraction(shown);
    lemma_decimal_digits_are_digits(shown.0 / pow10(shown.1));
    lemma_padded_digits_are_digits(shown.0, shown.1);
    lemma_repeated_zeros(shown.2);
    assert(repeated(seq![ZERO], 0) =~= Seq::<u8>::empty());
    assert(shown.1 == 0 ==> shown.2 == 0);
    assert(all_digits(fraction)) by {
        if shown.1 > 0 {
            let padded = padded_digits(shown.0, shown.1);
            let zeros = repeated(seq![ZERO], shown.2);
            assert forall|i: int| 0 <= i < fraction.len() implies is_digit(
                #[trigger] fraction[i],
            ) by {
                if i < padded.len() {
                    assert(fraction[i] == padded[i]);
                } else {
                    assert(fraction[i] == zeros[i - padded.len()]);
                }
            }
        }
    }
    assert(duration_text(ticks, precision) =~= text_of_parts(
        ticks < 0 && shown.0 > 0,
        seconds,
        fraction,
    ));
}

/// The fractional digits that the text of a duration holds stand for the
/// ticks of the digits behind the point, where the text is exact.
proof fn lemma_shown_fraction_ticks(magnitude: nat, precision: Option<usize>)
    requires
        precision.is_none() || precision.unwrap() >= 7,
    ensures
        ({
            let shown = shown_digits(magnitude, precision);
            &&& shown.1 <= 7
            &&& shown.0 * pow10((7 - shown.1) as nat) == magnitude
            &&& fraction_ticks(shown_fraction(shown)) == decimal_value(
                padded_digits(shown.0, shown.1),
            ) * pow10((7 - shown.1) as nat)
        }),
{
    let shown = shown_digits(magnitude, precision);
    let fraction = shown_fraction(shown);
    let padded = padded_digits(shown.0, shown.1);
    let zeros = repeated(seq![ZERO], shown.2);
    lemma_pow10_values();
    lemma_trimmed(magnitude, 7);
    lemma_padded_digits_are_digits(shown.0, shown.1);
    lemma_repeated_zeros(shown.2);
    assert(padded.len() == shown.1);
    assert(zeros.len() == shown.2);
    match precision {
        None => {
            assert(shown.0 == trimmed(magnitude, 7).0 && shown.1 == trimmed(magnitude, 7).1);
            assert(shown.2 == 0);
            assert(shown.0 * pow10((7 - shown.1) as nat) == magnitude);
        },
        Some(p) => {
            assert(shown.0 == magnitude && shown.1 == 7);
            assert((7 - shown.1) as nat == 0);
            assert(magnitude * 1 == magnitude);
            assert(shown.0 * pow10((7 - shown.1) as nat) == magnitude);
        },
    }
    if shown.1 == 0 {
        assert(padded =~= Seq::<u8>::empty());
        assert(fraction =~= padded);
        assert(fraction_ticks(fraction) == decimal_value(padded) * pow10((7 - shown.1) as nat));
    } else if shown.2 == 0 {
        assert(zeros =~= Seq::<u8>::empty());
        assert(fraction =~= padded);
        assert(fraction.len() == shown.1);
        assert(fraction_ticks(fraction) == decimal_value(padded) * pow10((7 - shown.1) as nat));
    } else {
        assert(shown.1 == 7);
        assert(fraction == padded + zeros);
        assert(fraction.len() == 7 + shown.2);
        assert(fraction.subrange(0, 7) =~= padded);
        assert(fraction[7] == zeros[0]);
        assert(zeros[0] == ZERO);
        assert(fraction_ticks(fraction) == decimal_value(padded));
        assert(pow10((7 - shown.1) as nat) == 1);
        assert(decimal_value(padded) * 1 == decimal_value(padded));
    }
}

/// Reading the text of a duration gives the duration again: the text that
/// holds as many fractional digits as the duration needs, and every text
/// that holds seven or more, stands for the tick count it was written from.
pub proof fn lemma_parse_of_format(ticks: i64, precision: Option<usize>)
    requires
        precision.is_none() || precision.unwrap() >= 7,
    ensures
        duration_ticks(duration_text(ticks as int, precision)) == Some(ticks as int),
{
    let magnitude = vstd::math::abs(ticks as int) as nat;
    let shown = shown_digits(magnitude, precision);
    lemma_duration_text_parts(ticks as int, precision);
    lemma_shown_fraction_ticks(magnitude, precision);
    lemma_fixed_point_value(shown.0, shown.1);
    lemma_ticks_of_parts(
        ticks < 0 && shown.0 > 0,
        decimal_digits(shown.0 / pow10(shown.1)),
        shown_fraction(shown),
    );
    if shown.0 == 0 {
        assert(0 * pow10((7 - shown.1) as nat) == 0) by (nonlinear_arith);
    }
}

} // verus!
