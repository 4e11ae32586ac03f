//! Decimal digits in ASCII text: reading runs of digits and writing numbers.

use vstd::prelude::*;
use crate::ascii::{NINE, ZERO};

verus! {

/// Whether the byte is an ASCII decimal digit.
pub open spec fn is_digit(b: u8) -> bool {
    ZERO <= b <= NINE
}

/// The ASCII digit of a number below ten.
pub open spec fn digit_of(n: int) -> u8
    recommends
        0 <= n < 10,
{
    (ZERO + n) as u8
}

/// Whether every byte of the text is a decimal digit.
pub open spec fn all_digits(ds: Seq<u8>) -> bool {
    forall|i: int| 0 <= i < ds.len() ==> is_digit(#[trigger] ds[i])
}

/// The number of decimal digits that the text holds in a row from `from` on.
pub open spec fn digit_run(s: Seq<u8>, from: int) -> nat
    decreases s.len() - from,
{
    if 0 <= from < s.len() && is_digit(s[from]) {
        1 + digit_run(s, from + 1)
    } else {
        0
    }
}

/// The number that a text of decimal digits stands for.
pub open spec fn decimal_value(ds: Seq<u8>) -> nat
    decreases ds.len(),
{
    if ds.len() == 0 {
        0
    } else {
        (decimal_value(ds.drop_last()) * 10 + (ds.last() - ZERO)) as nat
    }
}

/// Ten to the power of `e`.
pub open spec fn pow10(e: nat) -> nat
    decreases e,
{
    if e == 0 {
        1
    } else {
        10 * pow10((e - 1) as nat)
    }
}

/// The decimal digits of a number, without leading zeros; one zero for zero.
pub open spec fn decimal_digits(n: nat) -> Seq<u8>
    decreases n,
{
    if n < 10 {
        seq![digit_of(n as int)]
    } else {
        decimal_digits(n / 10).push(digit_of((n % 10) as int))
    }
}

/// The last `width` decimal digits of a number, with zeros in front where
/// the number has fewer.
pub open spec fn padded_digits(n: nat, width: nat) -> Seq<u8>
    decreases width,
{
    if width == 0 {
        Seq::<u8>::empty()
    } else {
        padded_digits(n / 10, (width - 1) as nat).push(digit_of((n % 10) as int))
    }
}

/// The powers of ten up to the seventh.
pub proof fn lemma_pow10_values()
    ensures
        pow10(0) == 1,
        pow10(1) == 10,
        pow10(2) == 100,
        pow10(3) == 1_000,
        pow10(4) == 10_000,
        pow10(5) == 100_000,
        pow10(6) == 1_000_000,
        pow10(7) == 10_000_000,
{
    reveal_with_fuel(pow10, 8);
}

/// A run of digits ends inside the text, on a byte that is no digit or at
/// the end of the text, and holds digits only.
pub proof fn lemma_digit_run(s: Seq<u8>, from: int)
    requires
        0 <= from <= s.len(),
    ensures
        from + digit_run(s, from) <= s.len(),
        all_digits(s.subrange(from, from + digit_run(s, from))),
        from + digit_run(s, from) < s.len() ==> !is_digit(s[from + digit_run(s, from)]),
    decreases s.len() - from,
{
    if from < s.len() && is_digit(s[from]) {
        lemma_digit_run(s, from + 1);
        let n = digit_run(s, from);
        assert forall|i: int| 0 <= i < n implies is_digit(#[trigger] s.subrange(from, from + n)[i]) by {
            if i > 0 {
                assert(s.subrange(from, from + n)[i] == s.subrange(from + 1, from + n)[i - 1]);
            }
        }
    }
}

/// A stretch of digits that ends on a byte that is no digit, or at the end
/// of the text, is the run of digits from its start.
pub proof fn lemma_digit_run_is(s: Seq<u8>, from: int, to: int)
    requires
        0 <= from <= to <= s.len(),
        forall|i: int| from <= i < to ==> is_digit(#[trigger] s[i]),
        to < s.len() ==> !is_digit(s[to]),
    ensures
        digit_run(s, from) == to - from,
    decreases to - from,
{
    if from < to {
        lemma_digit_run_is(s, from + 1, to);
    }
}

/// The value of a text with one more digit at its end.
pub proof fn lemma_decimal_value_push(ds: Seq<u8>, b: u8)
    requires
        is_digit(b),
    ensures
        decimal_value(ds.push(b)) == decimal_value(ds) * 10 + (b - ZERO),
{
    assert(ds.push(b).drop_last() =~= ds);
}

/// A text of `n` digits stands for a number below ten to the power of `n`.
pub proof fn lemma_decimal_value_bound(ds: Seq<u8>)
    requires
        all_digits(ds),
    ensures
        decimal_value(ds) < pow10(ds.len()),
    decreases ds.len(),
{
    if ds.len() > 0 {
        lemma_decimal_value_bound(ds.drop_last());
    }
}

/// Find the end of the run of decimal digits that starts at `from`.
pub fn scan_digits(s: &[u8], from: usize) -> (end: usize)
    requires
        from <= s.len(),
    ensures
        end == from + digit_run(s@, from as int),
        end <= s.len(),
{
    let mut i: usize = from;
    while i < s.len() && s[i] >= ZERO && s[i] <= NINE
        invariant
            from <= i <= s.len(),
            forall|k: int| from <= k < i ==> is_digit(#[trigger] s@[k]),
        decreases s.len() - i,
    {
        i = i + 1;
    }
    proof {
        lemma_digit_run_is(s@, from as int, i as int);
    }
    i
}

/// Read the number that the digits from `from` up to `to` stand for.
/// Returns `None` where it is no 64-bit unsigned number.
pub fn parse_digits(s: &[u8], from: usize, to: usize) -> (r: Option<u64>)
    requires
        from <= to <= s.len(),
        all_digits(s@.subrange(from as int, to as int)),
    ensures
        r == (if decimal_value(s@.subrange(from as int, to as int)) <= u64::MAX {
            Some(decimal_value(s@.subrange(from as int, to as int)) as u64)
        } else {
            None
        }),
{
    let mut value: u64 = 0;
    let mut i: usize = from;
    assert(s@.subrange(from as int, from as int) =~= Seq::<u8>::empty());
    while i < to
        invariant
            from <= i <= to <= s.len(),
            all_digits(s@.subrange(from as int, to as int)),
            value == decimal_value(s@.subrange(from as int, i as int)),
        decreases to - i,
    {
        let b: u8 = s[i];
        proof {
            assert(s@.subrange(from as int, to as int)[i - from] == b);
            assert(s@.subrange(from as int, i + 1) =~= s@.subrange(from as int, i as int).push(b));
            lemma_decimal_value_push(s@.subrange(from as int, i as int), b);
            lemma_decimal_value_grows(s@.subrange(from as int, to as int), i + 1 - from);
            assert(s@.subrange(from as int, to as int).subrange(0, i + 1 - from) =~= s@.subrange(
                from as int,
                i + 1,
            ));
        }
        let d: u64 = (b - ZERO) as u64;
        if value > (u64::MAX - d) / 10 {
            return None;
        }
        value = value * 10 + d;
        i = i + 1;
    }
    assert(s@.subrange(from as int, i as int) =~= s@.subrange(from as int, to as int));
    Some(value)
}

/// The value of a text of digits is at least the value of each of its
/// beginnings.
pub proof fn lemma_decimal_value_grows(ds: Seq<u8>, n: int)
    requires
        0 <= n <= ds.len(),
        all_digits(ds),
    ensures
        decimal_value(ds.subrange(0, n)) <= decimal_value(ds),
    decreases ds.len() - n,
{
    if n < ds.len() {
        lemma_decimal_value_grows(ds, n + 1);
        assert(ds.subrange(0, n + 1).drop_last() =~= ds.subrange(0, n));
    } else {
        assert(ds.subrange(0, n) =~= ds);
    }
}

/// Ten to the power of `e`, up to the seventh power.
pub fn pow10_u64(e: usize) -> (r: u64)
    requires
        e <= 7,
    ensures
        r == pow10(e as nat),
        0 < r <= 10_000_000,
        e > 0 ==> r % 10 == 0,
{
    proof {
        lemma_pow10_values();
    }
    if e == 0 {
        1
    } else if e == 1 {
        10
    } else if e == 2 {
        100
    } else if e == 3 {
        1_000
    } else if e == 4 {
        10_000
    } else if e == 5 {
        100_000
    } else if e == 6 {
        1_000_000
    } else {
        10_000_000
    }
}

/// The digits of a number are decimal digits, at least one of them.
pub proof fn lemma_decimal_digits_are_digits(n: nat)
    ensures
        all_digits(decimal_digits(n)),
        decimal_digits(n).len() >= 1,
    decreases n,
{
    if n >= 10 {
        lemma_decimal_digits_are_digits(n / 10);
    }
}

/// The last `width` digits of a number are `width` decimal digits.
pub proof fn lemma_padded_digits_are_digits(n: nat, width: nat)
    ensures
        all_digits(padded_digits(n, width)),
        padded_digits(n, width).len() == width,
    decreases width,
{
    if width > 0 {
        lemma_padded_digits_are_digits(n / 10, (width - 1) as nat);
    }
}

/// The digits of a number stand for the number.
pub proof fn lemma_decimal_value_of_digits(n: nat)
    ensures
        decimal_value(decimal_digits(n)) == n,
    decreases n,
{
    if n >= 10 {
        lemma_decimal_value_of_digits(n / 10);
        lemma_decimal_value_push(decimal_digits(n / 10), digit_of((n % 10) as int));
    } else {
        assert(decimal_digits(n) =~= Seq::<u8>::empty().push(digit_of(n as int)));
        lemma_decimal_value_push(Seq::<u8>::empty(), digit_of(n as int));
    }
}

/// The last `width` digits of a number stand for its remainder by ten to
/// the power of `width`.
pub proof fn lemma_decimal_value_of_padded(n: nat, width: nat)
    ensures
        decimal_value(padded_digits(n, width)) == n % pow10(width),
    decreases width,
{
    if width > 0 {
        let m = pow10((width - 1) as nat);
        lemma_pow10_increases(0, (width - 1) as nat);
        lemma_decimal_value_of_padded(n / 10, (width - 1) as nat);
        lemma_decimal_value_push(
            padded_digits(n / 10, (width - 1) as nat),
            digit_of((n % 10) as int),
        );
        vstd::arithmetic::div_mod::lemma_breakdown(n as int, 10, m as int);
    }
}

/// A larger power of ten is a larger number, and none is zero.
pub proof fn lemma_pow10_increases(a: nat, b: nat)
    requires
        a <= b,
    ensures
        0 < pow10(a) <= pow10(b),
    decreases b,
{
    if a < b {
        lemma_pow10_increases(a, (b - 1) as nat);
    } else if a > 0 {
        lemma_pow10_increases((a - 1) as nat, (a - 1) as nat);
    }
}

/// Append the decimal digits of a number, without leading zeros.
pub fn write_decimal(out: &mut Vec<u8>, n: u64)
    ensures
        final(out)@ == old(out)@ + decimal_digits(n as nat),
    decreases n,
{
    if n >= 10 {
        write_decimal(out, n / 10);
    }
    out.push(ZERO + (n % 10) as u8);
    assert(final(out)@ =~= old(out)@ + decimal_digits(n as nat));
}

/// Append the last `width` decimal digits of a number, with zeros in front
/// where it has fewer.
pub fn write_padded(out: &mut Vec<u8>, n: u64, width: usize)
    ensures
        final(out)@ == old(out)@ + padded_digits(n as nat, width as nat),
    decreases width,
{
    if width > 0 {
        write_padded(out, n / 10, width - 1);
        out.push(ZERO + (n % 10) as u8);
    }
    assert(final(out)@ =~= old(out)@ + padded_digits(n as nat, width as nat));
}

} // verus!
