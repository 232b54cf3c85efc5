//! Integer arithmetic on lengths: limits, clamping and scaling.

use vstd::prelude::*;

verus! {

/// Largest length the library lays out: sizes, page dimensions and advances.
pub const MAX_LENGTH: i64 = 20_000_000;

/// Largest magnitude of a kerning value, in font units.
pub const MAX_KERN: i64 = 50_000;

/// Largest magnitude of a tracking value, in thousandths of an em.
pub const MAX_TRACKING: i64 = 50_000;

/// Largest multiplier (line spacing, paragraph spacing), in thousandths.
pub const MAX_MULTIPLIER: i64 = 1_000_000;

/// Largest number of characters in one paragraph.
pub const MAX_TEXT_CHARS: usize = 1_000_000;

/// Bound on what one character adds to a measured width, in magnitude.
pub const PER_CHAR_LIMIT: i64 = 2_000_000_000_000;

/// `x` limited to the interval from `lo` to `hi`.
pub open spec fn clamp(x: int, lo: int, hi: int) -> int {
    if x < lo {
        lo
    } else if x > hi {
        hi
    } else {
        x
    }
}

/// The quotient `a / b` rounded toward zero.
pub open spec fn trunc_div(a: int, b: int) -> int
    recommends
        b > 0,
{
    if a >= 0 {
        a / b
    } else {
        -((-a) / b)
    }
}

/// `value * num / den`, rounded toward zero.
pub open spec fn scale(value: int, num: int, den: int) -> int
    recommends
        den > 0,
{
    trunc_div(value * num, den)
}

/// The magnitude of `x`.
pub open spec fn abs(x: int) -> int {
    if x < 0 {
        -x
    } else {
        x
    }
}

/// A quotient rounded toward zero is no larger in magnitude than the dividend
/// and has its sign.
pub proof fn lemma_trunc_div_bounds(a: int, b: int)
    requires
        b > 0,
    ensures
        abs(trunc_div(a, b)) <= abs(a),
        a >= 0 ==> trunc_div(a, b) >= 0,
        a <= 0 ==> trunc_div(a, b) <= 0,
{
    if a >= 0 {
        assert(0 <= a / b <= a) by (nonlinear_arith)
            requires
                a >= 0,
                b > 0,
        ;
    } else {
        let m = -a;
        assert(0 <= m / b <= m) by (nonlinear_arith)
            requires
                m >= 0,
                b > 0,
        ;
    }
}

/// Limits `x` to the interval from `lo` to `hi`.
pub fn clamp_i64(x: i64, lo: i64, hi: i64) -> (r: i64)
    ensures
        r == clamp(x as int, lo as int, hi as int),
{
    if x < lo {
        lo
    } else if x > hi {
        hi
    } else {
        x
    }
}

/// Divides rounding toward zero.
pub fn div_trunc(a: i64, b: i64) -> (r: i64)
    requires
        b > 0,
        a > i64::MIN,
    ensures
        r == trunc_div(a as int, b as int),
{
    proof {
        lemma_trunc_div_bounds(a as int, b as int);
    }
    if a >= 0 {
        a / b
    } else {
        let m: i64 = -a;
        let q: i64 = m / b;
        -q
    }
}

/// Computes `value * num / den`, rounded toward zero, where the product fits.
pub fn scale_i64(value: i64, num: i64, den: i64) -> (r: i64)
    requires
        den > 0,
        i64::MIN < value * num <= i64::MAX,
    ensures
        r == scale(value as int, num as int, den as int),
{
    let p: i64 = value * num;
    div_trunc(p, den)
}

} // verus!
