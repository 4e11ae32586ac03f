//! Integer division that rounds down.

use vstd::prelude::*;

verus! {

/// The quotient of `x` by `y`, rounded towards negative infinity.
pub open spec fn floor_div(x: int, y: int) -> int
    recommends
        y != 0,
{
    if y > 0 {
        x / y
    } else {
        (-x) / (-y)
    }
}

/// The remainder that goes with `floor_div`: zero, or of the sign of `y`.
pub open spec fn floor_mod(x: int, y: int) -> int
    recommends
        y != 0,
{
    if y > 0 {
        x % y
    } else {
        -((-x) % (-y))
    }
}

/// Quotient and remainder recombine to the dividend, and the remainder lies
/// between zero and the divisor.
pub proof fn lemma_floor_div_mod(x: int, y: int)
    requires
        y != 0,
    ensures
        floor_div(x, y) * y + floor_mod(x, y) == x,
        y > 0 ==> 0 <= floor_mod(x, y) < y,
        y < 0 ==> y < floor_mod(x, y) <= 0,
{
    if y > 0 {
        vstd::arithmetic::div_mod::lemma_fundamental_div_mod(x, y);
        assert(y * (x / y) == (x / y) * y) by (nonlinear_arith);
    } else {
        vstd::arithmetic::div_mod::lemma_fundamental_div_mod(-x, -y);
        assert((-y) * ((-x) / (-y)) == -(((-x) / (-y)) * y)) by (nonlinear_arith);
    }
}

/// Compute integer division and modulus, rounding down.
/// Contrast with truncating division, which rounds towards zero.
pub fn div_mod(x: i64, y: i64) -> (r: (i64, i64))
    requires
        y != 0,
        !(x == i64::MIN && y == -1),
    ensures
        r.0 == floor_div(x as int, y as int),
        r.1 == floor_mod(x as int, y as int),
        r.0 * y + r.1 == x,
        y > 0 ==> 0 <= r.1 < y,
        y < 0 ==> y < r.1 <= 0,
{
    proof {
        lemma_floor_div_mod(x as int, y as int);
    }
    let wide_x: i128 = x as i128;
    let wide_y: i128 = y as i128;
    let num: i128 = if y < 0 { -wide_x } else { wide_x };
    let den: i128 = if y < 0 { -wide_y } else { wide_y };
    let mut quot: i128 = num / den;
    let mut rem: i128 = num % den;
    if rem < 0 {
        quot = quot - 1;
        rem = rem + den;
    }
    proof {
        lemma_truncated_to_floor(num as int, den as int);
        lemma_floor_div_bound(x as int, y as int);
    }
    let signed_rem: i128 = if y < 0 { -rem } else { rem };
    (quot as i64, signed_rem as i64)
}

/// For a positive divisor, lowering a truncated quotient with a negative
/// remainder by one gives the floor quotient.
proof fn lemma_truncated_to_floor(x: int, y: int)
    requires
        y > 0,
    ensures
        x < 0 && (-x) % y != 0 ==> x / y == -((-x) / y) - 1 && x % y == y - (-x) % y,
        x < 0 && (-x) % y == 0 ==> x / y == -((-x) / y) && x % y == 0,
{
    if x < 0 {
        let q = (-x) / y;
        let r = (-x) % y;
        vstd::arithmetic::div_mod::lemma_fundamental_div_mod(-x, y);
        if r != 0 {
            assert(x == (-q - 1) * y + (y - r)) by (nonlinear_arith)
                requires
                    -x == y * q + r,
            ;
            vstd::arithmetic::div_mod::lemma_fundamental_div_mod_converse(x, y, -q - 1, y - r);
        } else {
            assert(x == (-q) * y + 0) by (nonlinear_arith)
                requires
                    -x == y * q + r,
                    r == 0,
            ;
            vstd::arithmetic::div_mod::lemma_fundamental_div_mod_converse(x, y, -q, 0);
        }
    }
}

/// The floor quotient of two 64-bit numbers is a 64-bit number, but for the
/// least of them divided by minus one.
proof fn lemma_floor_div_bound(x: int, y: int)
    requires
        y != 0,
        i64::MIN <= x <= i64::MAX,
        i64::MIN <= y <= i64::MAX,
        !(x == i64::MIN && y == -1),
    ensures
        i64::MIN <= floor_div(x, y) <= i64::MAX,
{
    lemma_floor_div_mod(x, y);
    let q = floor_div(x, y);
    let r = floor_mod(x, y);
    assert(i64::MIN <= q <= i64::MAX) by (nonlinear_arith)
        requires
            q * y + r == x,
            y != 0,
            y > 0 ==> 0 <= r < y,
            y < 0 ==> y < r <= 0,
            i64::MIN <= x <= i64::MAX,
            i64::MIN <= y <= i64::MAX,
            !(x == i64::MIN && y == -1),
    ;
}

} // verus!
