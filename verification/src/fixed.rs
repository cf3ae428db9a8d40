//! Fixed-point numbers for the expression language.
//!
//! Script expressions work on decimal numbers.  The evaluator represents them
//! as a raw `i64` counting millionths, so `1.0` is the raw value `1_000_000`.
//! A millionth is far finer than any quantity a scene script manipulates, and
//! it makes every arithmetic step an exact statement about integers.
//!
//! Every operation saturates at the `i64` range instead of wrapping, and the
//! two partial operations are total here by decree: dividing by zero and
//! taking a remainder by zero both yield `0`, in keeping with the evaluator's
//! policy of degrading quietly instead of failing.

use vstd::prelude::*;

verus! {

/// Raw value of `1.0`: fixed-point numbers count millionths.
pub const FX_SCALE: i64 = 1_000_000;

/// Clamp a mathematical integer into the `i64` range.
pub open spec fn sat_i64(x: int) -> int {
    if x > i64::MAX as int {
        i64::MAX as int
    } else if x < i64::MIN as int {
        i64::MIN as int
    } else {
        x
    }
}

/// Magnitude of a mathematical integer.
pub open spec fn abs_int(x: int) -> int {
    if x < 0 {
        -x
    } else {
        x
    }
}

/// Division that rounds toward zero, as machine division does.
/// (Spec-mode `/` is Euclidean, which differs on negative operands.)
pub open spec fn tdiv(a: int, b: int) -> int
    recommends
        b != 0,
{
    if (a < 0) == (b < 0) {
        abs_int(a) / abs_int(b)
    } else {
        -(abs_int(a) / abs_int(b))
    }
}

/// Remainder matching [`tdiv`]: same sign as the dividend.
pub open spec fn trem(a: int, b: int) -> int
    recommends
        b != 0,
{
    a - tdiv(a, b) * b
}

/// What fixed-point addition returns.
pub open spec fn fx_add_spec(a: int, b: int) -> int {
    sat_i64(a + b)
}

/// What fixed-point subtraction returns.
pub open spec fn fx_sub_spec(a: int, b: int) -> int {
    sat_i64(a - b)
}

/// What fixed-point multiplication returns: the product loses one scale
/// factor and rounds toward zero.
pub open spec fn fx_mul_spec(a: int, b: int) -> int {
    sat_i64(tdiv(a * b, FX_SCALE as int))
}

/// What fixed-point division returns: the quotient gains one scale factor
/// and rounds toward zero.  A zero divisor yields `0`.
pub open spec fn fx_div_spec(a: int, b: int) -> int {
    if b == 0 {
        0
    } else {
        sat_i64(tdiv(a * FX_SCALE, b))
    }
}

/// What the fixed-point remainder returns.  A zero divisor yields `0`.
pub open spec fn fx_rem_spec(a: int, b: int) -> int {
    if b == 0 {
        0
    } else {
        trem(a, b)
    }
}

/// Magnitude of an `i64`, widened so `i64::MIN` poses no problem.
fn abs_u128(a: i64) -> (r: u128)
    ensures
        r as int == abs_int(a as int),
{
    if a >= 0 {
        a as u128
    } else {
        let wide: i128 = -(a as i128);
        wide as u128
    }
}

/// Reattach a sign to a magnitude, clamping into the `i64` range.
fn clamp_signed(negative: bool, magnitude: u128) -> (r: i64)
    ensures
        r as int == sat_i64(if negative { -(magnitude as int) } else { magnitude as int }),
{
    if negative {
        if magnitude >= 9223372036854775808u128 {
            i64::MIN
        } else {
            let wide: i128 = -(magnitude as i128);
            wide as i64
        }
    } else {
        if magnitude > i64::MAX as u128 {
            i64::MAX
        } else {
            magnitude as i64
        }
    }
}

/// Saturating fixed-point addition.
pub fn fx_add(a: i64, b: i64) -> (r: i64)
    ensures
        r as int == fx_add_spec(a as int, b as int),
{
    let wide: i128 = a as i128 + b as i128;
    if wide > i64::MAX as i128 {
        i64::MAX
    } else if wide < i64::MIN as i128 {
        i64::MIN
    } else {
        wide as i64
    }
}

/// Saturating fixed-point subtraction.
pub fn fx_sub(a: i64, b: i64) -> (r: i64)
    ensures
        r as int == fx_sub_spec(a as int, b as int),
{
    let wide: i128 = a as i128 - b as i128;
    if wide > i64::MAX as i128 {
        i64::MAX
    } else if wide < i64::MIN as i128 {
        i64::MIN
    } else {
        wide as i64
    }
}

proof fn lemma_abs_mul(a: int, b: int)
    ensures
        abs_int(a * b) == abs_int(a) * abs_int(b),
        (a * b < 0) <==> (a != 0 && b != 0 && ((a < 0) != (b < 0))),
{
    assert(abs_int(a * b) == abs_int(a) * abs_int(b)) by (nonlinear_arith);
    assert((a * b < 0) <==> (a != 0 && b != 0 && ((a < 0) != (b < 0)))) by (nonlinear_arith);
}

/// Saturating fixed-point multiplication.
pub fn fx_mul(a: i64, b: i64) -> (r: i64)
    ensures
        r as int == fx_mul_spec(a as int, b as int),
{
    let ma = abs_u128(a);
    let mb = abs_u128(b);
    proof {
        assert(ma as int * mb as int <= 0x8000000000000000 * 0x8000000000000000)
            by (nonlinear_arith)
            requires
                0 <= ma as int <= 0x8000000000000000,
                0 <= mb as int <= 0x8000000000000000,
        ;
    }
    let product: u128 = ma * mb;
    let magnitude: u128 = product / (FX_SCALE as u128);
    let negative: bool = a != 0 && b != 0 && ((a < 0) != (b < 0));
    proof {
        lemma_abs_mul(a as int, b as int);
        let p = a as int * b as int;
        assert(abs_int(p) == product as int);
        if p < 0 {
            assert(tdiv(p, FX_SCALE as int) == -(magnitude as int));
        } else {
            assert(tdiv(p, FX_SCALE as int) == magnitude as int);
        }
    }
    clamp_signed(negative, magnitude)
}

/// Saturating fixed-point division; division by zero yields `0`.
pub fn fx_div(a: i64, b: i64) -> (r: i64)
    ensures
        r as int == fx_div_spec(a as int, b as int),
{
    if b == 0 {
        return 0;
    }
    let ma = abs_u128(a);
    let mb = abs_u128(b);
    proof {
        assert(ma as int * (FX_SCALE as int) <= 0x8000000000000000 * 1000000)
            by (nonlinear_arith)
            requires
                0 <= ma as int <= 0x8000000000000000,
        ;
    }
    let scaled: u128 = ma * (FX_SCALE as u128);
    let magnitude: u128 = scaled / mb;
    let negative: bool = a != 0 && ((a < 0) != (b < 0));
    proof {
        lemma_abs_mul(a as int, FX_SCALE as int);
        let p = a as int * FX_SCALE as int;
        assert(abs_int(p) == scaled as int);
        assert(p < 0 <==> a < 0);
        if (p < 0) == ((b as int) < 0) {
            assert(tdiv(p, b as int) == magnitude as int);
        } else {
            assert(tdiv(p, b as int) == -(magnitude as int));
        }
        if a == 0 {
            assert(abs_int(a as int) == 0);
            assert(scaled as int == 0 * FX_SCALE as int);
            assert(0 * FX_SCALE as int == 0) by (nonlinear_arith);
            vstd::arithmetic::div_mod::lemma_div_of0(mb as int);
        }
    }
    clamp_signed(negative, magnitude)
}

/// Fixed-point remainder; a zero divisor yields `0`.
pub fn fx_rem(a: i64, b: i64) -> (r: i64)
    ensures
        r as int == fx_rem_spec(a as int, b as int),
{
    if b == 0 {
        return 0;
    }
    let magnitude: u128 = abs_u128(a) % abs_u128(b);
    let negative: bool = a < 0;
    proof {
        lemma_trem_magnitude(a as int, b as int);
    }
    clamp_signed(negative && magnitude > 0, magnitude)
}

proof fn lemma_trem_magnitude(a: int, b: int)
    requires
        b != 0,
    ensures
        trem(a, b) == if a < 0 {
            -(abs_int(a) % abs_int(b))
        } else {
            abs_int(a) % abs_int(b)
        },
        abs_int(trem(a, b)) < abs_int(b),
{
    let x = abs_int(a);
    let y = abs_int(b);
    let q = x / y;
    let m = x % y;
    vstd::arithmetic::div_mod::lemma_fundamental_div_mod(x, y);
    assert(x == y * q + m);
    assert(0 <= m < y) by {
        vstd::arithmetic::div_mod::lemma_mod_division_less_than_divisor(x, y);
    }
    assert(q * y == y * q) by (nonlinear_arith);
    assert((-q) * y == -(q * y)) by (nonlinear_arith);
    assert(q * (-y) == -(q * y)) by (nonlinear_arith);
    assert((-q) * (-y) == q * y) by (nonlinear_arith);
    if (a < 0) == (b < 0) {
        assert(tdiv(a, b) == q);
        if a >= 0 {
            assert(trem(a, b) == x - q * y);
        } else {
            assert(trem(a, b) == -x - q * (-y));
        }
    } else {
        assert(tdiv(a, b) == -q);
        if a >= 0 {
            assert(trem(a, b) == x - (-q) * (-y));
        } else {
            assert(trem(a, b) == -x - (-q) * y);
        }
    }
}

} // verus!
