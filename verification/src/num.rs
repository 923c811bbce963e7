//! Fixed-point scalars and saturating wide arithmetic.
//!
//! A quantity of one unit (one dollar, one share, one second, a score of
//! one) is stored as `SCALE` steps of an `i64`; intermediate products are
//! computed in `i128` and saturate at the `i128` range, far beyond any
//! state a stream of in-range ticks can reach.

use vstd::prelude::*;

verus! {

/// Number of fixed-point steps per unit: nine fractional decimal digits.
pub const SCALE: i64 = 1_000_000_000;

/// The clamp of a mathematical integer to the `i128` range.
pub open spec fn sat_i128(v: int) -> int {
    if v > i128::MAX {
        i128::MAX as int
    } else if v < i128::MIN {
        i128::MIN as int
    } else {
        v
    }
}

/// The clamp of a mathematical integer to an arbitrary closed interval.
pub open spec fn clamp_spec(v: int, lo: int, hi: int) -> int {
    if v < lo {
        lo
    } else if v > hi {
        hi
    } else {
        v
    }
}

/// Saturating addition on wide integers.
pub fn add_sat(a: i128, b: i128) -> (r: i128)
    ensures
        r == sat_i128(a + b),
{
    match a.checked_add(b) {
        Some(s) => s,
        None => {
            if a >= 0 {
                i128::MAX
            } else {
                i128::MIN
            }
        },
    }
}

/// Saturating subtraction on wide integers.
pub fn sub_sat(a: i128, b: i128) -> (r: i128)
    ensures
        r == sat_i128(a - b),
{
    match a.checked_sub(b) {
        Some(s) => s,
        None => {
            if a >= 0 {
                i128::MAX
            } else {
                i128::MIN
            }
        },
    }
}

/// Saturating multiplication on wide integers.
pub fn mul_sat(a: i128, b: i128) -> (r: i128)
    ensures
        r == sat_i128(a * b),
{
    match a.checked_mul(b) {
        Some(p) => p,
        None => {
            if (a >= 0) == (b >= 0) {
                proof {
                    assert(a * b > i128::MAX) by (nonlinear_arith)
                        requires
                            (a >= 0) == (b >= 0),
                            a * b > i128::MAX || a * b < i128::MIN,
                    {}
                }
                i128::MAX
            } else {
                proof {
                    assert(a * b < i128::MIN) by (nonlinear_arith)
                        requires
                            (a >= 0) != (b >= 0),
                            a * b > i128::MAX || a * b < i128::MIN,
                    {}
                }
                i128::MIN
            }
        },
    }
}

/// Floor division on wide integers; the divisor must be positive.
/// Agrees with mathematical (Euclidean) division.
pub fn div_floor(a: i128, b: i128) -> (q: i128)
    requires
        b > 0,
    ensures
        q == a as int / b as int,
{
    proof {
        lemma_floor_div_in_range(a as int, b as int);
    }
    match a.checked_div_euclid(b) {
        Some(q) => q,
        None => 0,  // unreachable: the quotient is always in range
    }
}

/// For a positive divisor, the floor quotient lies between the dividend
/// and zero, so it always fits the dividend's machine range.
pub proof fn lemma_floor_div_in_range(a: int, b: int)
    requires
        b > 0,
    ensures
        a >= 0 ==> 0 <= a / b <= a,
        a < 0 ==> a <= a / b <= 0,
{
    vstd::arithmetic::div_mod::lemma_fundamental_div_mod(a, b);
    let q = a / b;
    let r = a % b;
    vstd::arithmetic::div_mod::lemma_mod_division_less_than_divisor(a, b);
    assert(a == b * q + r && 0 <= r < b);
    if a >= 0 {
        assert(0 <= q <= a) by (nonlinear_arith)
            requires
                a == b * q + r,
                0 <= r < b,
                b > 0,
                a >= 0,
        {}
    } else {
        assert(a <= q <= 0) by (nonlinear_arith)
            requires
                a == b * q + r,
                0 <= r < b,
                b > 0,
                a < 0,
        {}
    }
}

/// Quotient of two fixed-point values bounded by the `i64` range,
/// computed without narrowing; the divisor must be positive.
pub fn fx_div(a: i64, b: i64) -> (q: i64)
    requires
        b > 0,
    ensures
        q == a as int / b as int,
{
    proof {
        lemma_floor_div_in_range(a as int, b as int);
    }
    div_floor(a as i128, b as i128) as i64
}

/// Clamp of a wide value to a narrow closed interval.
pub fn clamp_i128(v: i128, lo: i64, hi: i64) -> (r: i64)
    requires
        lo <= hi,
    ensures
        r == clamp_spec(v as int, lo as int, hi as int),
{
    if v < lo as i128 {
        lo
    } else if v > hi as i128 {
        hi
    } else {
        v as i64
    }
}

/// A negative dividend no smaller than the negated divisor has floor
/// quotient exactly minus one.
pub proof fn lemma_small_neg_div(a: int, b: int)
    requires
        b > 0,
        -b <= a < 0,
    ensures
        a / b == -1,
{
    vstd::arithmetic::div_mod::lemma_fundamental_div_mod_converse_div(a, b, -1, a + b);
}

/// A quotient by a divisor of at least two has magnitude strictly
/// below the magnitude of a negative dividend.
pub proof fn lemma_div_magnitude_shrinks(a: int, b: int)
    requires
        b >= 2,
        a <= -2,
    ensures
        a / b > a,
{
    vstd::arithmetic::div_mod::lemma_fundamental_div_mod(a, b);
    vstd::arithmetic::div_mod::lemma_mod_division_less_than_divisor(a, b);
    let q = a / b;
    let r = a % b;
    lemma_floor_div_in_range(a, b);
    assert(q > a) by (nonlinear_arith)
        requires
            a == b * q + r,
            0 <= r < b,
            b >= 2,
            a <= -2,
            a <= q <= 0,
    {}
}

/// The integer square root: the greatest `r` with `r * r <= v`.
pub open spec fn is_isqrt(v: int, r: int) -> bool {
    &&& 0 <= r
    &&& r * r <= v
    &&& (r + 1) * (r + 1) > v
}

/// The value of the integer square root, as a spec-level function.
pub open spec fn sqrt_val(v: int) -> int {
    choose|r: int| is_isqrt(v, r)
}

/// The integer square root is unique, so any witness determines
/// `sqrt_val`.
pub proof fn lemma_sqrt_val_unique(v: int, r: int)
    requires
        0 <= v,
        is_isqrt(v, r),
    ensures
        sqrt_val(v) == r,
{
    assert(is_isqrt(v, r));
    let w = choose|w: int| is_isqrt(v, w);
    assert(is_isqrt(v, w));
    if w < r {
        assert(false) by (nonlinear_arith)
            requires
                0 <= w < r,
                w * w <= v,
                (w + 1) * (w + 1) > v,
                r * r <= v,
        {}
    } else if r < w {
        assert(false) by (nonlinear_arith)
            requires
                0 <= r < w,
                r * r <= v,
                (r + 1) * (r + 1) > v,
                w * w <= v,
        {}
    }
}

/// Integer square root of a non-negative wide value, by bisection.
pub fn isqrt(v: i128) -> (r: i128)
    requires
        v >= 0,
    ensures
        is_isqrt(v as int, r as int),
        r == sqrt_val(v as int),
{
    // Invariant: lo * lo <= v and (hi + 1) * (hi + 1) > v, lo <= hi + 1.
    // 13043817825332782212 is the integer square root of i128::MAX, so
    // squaring any candidate at or below it cannot overflow.
    let mut lo: i128 = 0;
    let mut hi: i128 = if v < 13043817825332782212 {
        v
    } else {
        proof {
            assert((13043817825332782212 as int + 1) * (13043817825332782212 as int + 1)
                > i128::MAX) by (nonlinear_arith);
        }
        13043817825332782212
    };
    proof {
        assert(v < 13043817825332782212 ==> (v + 1) * (v + 1) > v) by (nonlinear_arith);
        assert((13043817825332782212 as int) * (13043817825332782212 as int) <= i128::MAX)
            by (nonlinear_arith);
    }
    while lo < hi
        invariant
            0 <= lo <= hi + 1,
            hi <= 13043817825332782212,
            lo * lo <= v,
            (hi + 1) * (hi + 1) > v,
        decreases hi - lo,
    {
        proof {
            assert(hi * hi <= 13043817825332782212 as int * 13043817825332782212 as int)
                by (nonlinear_arith)
                requires
                    0 <= hi <= 13043817825332782212,
            {}
            assert((13043817825332782212 as int) * (13043817825332782212 as int) <= i128::MAX)
                by (nonlinear_arith);
        }
        let mid: i128 = lo + (hi - lo + 1) / 2;
        proof {
            assert(lo < mid <= hi);
            assert(mid * mid <= 13043817825332782212 as int * 13043817825332782212 as int)
                by (nonlinear_arith)
                requires
                    0 <= mid <= 13043817825332782212,
            {}
        }
        let sq: i128 = mid * mid;
        if sq <= v {
            lo = mid;
        } else {
            hi = mid - 1;
        }
    }
    proof {
        lemma_sqrt_val_unique(v as int, lo as int);
    }
    lo
}

} // verus!
