//! Incremental statistics: exponential moving average, volume-weighted
//! average price, and Welford's online mean/variance.
//!
//! Each estimator updates in constant time and space. Values are
//! fixed-point integers with [`crate::num::SCALE`] steps per unit;
//! every update rule is stated exactly over mathematical integers,
//! with quotients rounded toward negative infinity and accumulators
//! saturating at the `i128` range.

use vstd::prelude::*;

use crate::num::{SCALE, add_sat, div_floor, is_isqrt, isqrt, mul_sat, sat_i128};

verus! {

/// The next EMA value: the first observation seeds the average, later
/// ones blend in with weight `alpha / SCALE`.
pub open spec fn ema_next(alpha: int, value: Option<i64>, x: i64) -> int {
    match value {
        Option::None => x as int,
        Option::Some(v) => (alpha * x + (SCALE - alpha) * v) / (SCALE as int),
    }
}

/// A quotient rounded toward negative infinity for a positive divisor
/// and toward positive infinity for a negative one; zero for a zero
/// divisor (the defined degenerate value, not an error).
pub open spec fn signed_ratio(num: int, den: int) -> int {
    if den == 0 {
        0
    } else if den > 0 {
        num / den
    } else {
        -(num / -den)
    }
}

/// The running mean after absorbing `x` as the `n`-th observation.
pub open spec fn mean_next(mean: int, x: int, n: int) -> int {
    mean + (x - mean) / n
}

/// Exponential moving average with smoothing factor `alpha / SCALE`.
pub struct EMA {
    /// Smoothing weight of a new observation, in `(0, SCALE]`.
    pub alpha: i64,
    /// Current average; `None` until the first observation.
    pub value: Option<i64>,
}

impl EMA {
    /// A valid smoothing factor lies in `(0, SCALE]`, the fixed-point
    /// image of the interval `(0, 1]`.
    pub open spec fn wf(&self) -> bool {
        0 < self.alpha <= SCALE
    }

    /// Create a fresh average. A factor outside `(0, 1]` is a fatal
    /// configuration error and is excluded up front.
    pub fn new(alpha: i64) -> (r: EMA)
        requires
            0 < alpha <= SCALE,
        ensures
            r.wf(),
            r.alpha == alpha,
            r.value is None,
    {
        EMA { alpha, value: None }
    }

    /// Absorb one observation and return the new average. The first
    /// observation is returned as it is; later ones move the average
    /// strictly between its old value and the observation.
    pub fn update(&mut self, x: i64) -> (r: i64)
        requires
            old(self).wf(),
        ensures
            final(self).wf(),
            final(self).alpha == old(self).alpha,
            final(self).value == Some(r),
            r == ema_next(old(self).alpha as int, old(self).value, x),
    {
        match self.value {
            None => {
                self.value = Some(x);
                x
            },
            Some(current) => {
                proof {
                    lemma_blend_in_range(self.alpha as int, SCALE as int, x as int, current as int);
                    let a = self.alpha as int;
                    let xx = x as int;
                    let c = current as int;
                    assert((SCALE as int) * (i64::MIN as int) <= a * xx <= (SCALE as int) * (
                    i64::MAX as int)) by (nonlinear_arith)
                        requires
                            0 < a <= SCALE,
                            i64::MIN <= xx <= i64::MAX,
                    {}
                    assert((SCALE as int) * (i64::MIN as int) <= (SCALE - a) * c <= (SCALE as int)
                        * (i64::MAX as int)) by (nonlinear_arith)
                        requires
                            0 < a <= SCALE,
                            i64::MIN <= c <= i64::MAX,
                    {}
                }
                let blended: i128 = (self.alpha as i128) * (x as i128) + ((SCALE - self.alpha)
                    as i128) * (current as i128);
                let next: i64 = div_floor(blended, SCALE as i128) as i64;
                self.value = Some(next);
                next
            },
        }
    }

    /// Current average, if any observation has been seen.
    pub fn value(&self) -> (r: Option<i64>)
        ensures
            r == self.value,
    {
        self.value
    }
}

/// A weighted blend of two values, rounded down, stays between them.
pub proof fn lemma_blend_in_range(a: int, s: int, x: int, v: int)
    requires
        0 < a <= s,
    ensures
        (a * x + (s - a) * v) / s >= if x <= v {
            x
        } else {
            v
        },
        (a * x + (s - a) * v) / s <= if x <= v {
            v
        } else {
            x
        },
{
    let lo = if x <= v {
        x
    } else {
        v
    };
    let hi = if x <= v {
        v
    } else {
        x
    };
    assert(s * lo <= a * x + (s - a) * v <= s * hi) by (nonlinear_arith)
        requires
            0 < a <= s,
            lo <= x <= hi,
            lo <= v <= hi,
    {}
    vstd::arithmetic::div_mod::lemma_div_is_ordered(s * lo, a * x + (s - a) * v, s);
    vstd::arithmetic::div_mod::lemma_div_is_ordered(a * x + (s - a) * v, s * hi, s);
    vstd::arithmetic::div_mod::lemma_div_multiples_vanish(lo, s);
    vstd::arithmetic::div_mod::lemma_div_multiples_vanish(hi, s);
}

/// Law: on a fresh average the first observation is echoed exactly, and
/// feeding one value twice moves the average monotonically toward it:
/// the second result lies between the first result and the observation.
pub proof fn lemma_ema_converges(alpha: int, v: i64, x: i64)
    requires
        0 < alpha <= SCALE,
    ensures
        ema_next(alpha, None, x) == x,
        x <= v ==> x <= ema_next(alpha, Some(v), x) <= v,
        v <= x ==> v <= ema_next(alpha, Some(v), x) <= x,
        forall|e1: i64|
            x <= e1 <= v || v <= e1 <= x ==> (x <= e1 ==> x <= #[trigger] ema_next(
                alpha,
                Some(e1),
                x,
            ) <= e1) && (e1 <= x ==> e1 <= ema_next(alpha, Some(e1), x) <= x),
{
    lemma_blend_in_range(alpha, SCALE as int, x as int, v as int);
    assert forall|e1: i64| x <= e1 <= v || v <= e1 <= x implies (x <= e1 ==> x <= #[trigger]
        ema_next(alpha, Some(e1), x) <= e1) && (e1 <= x ==> e1 <= ema_next(alpha, Some(e1), x)
        <= x) by {
        lemma_blend_in_range(alpha, SCALE as int, x as int, e1 as int);
    }
}

/// The saturated quotient of two wide integers, by the rounding
/// convention of [`signed_ratio`]; total in both arguments.
pub fn ratio_sat(num: i128, den: i128) -> (r: i128)
    ensures
        r == sat_i128(signed_ratio(num as int, den as int)),
{
    if den == 0 {
        0
    } else if den > 0 {
        proof {
            crate::num::lemma_floor_div_in_range(num as int, den as int);
        }
        div_floor(num, den)
    } else if den == i128::MIN {
        // The divisor magnitude exceeds every representable numerator,
        // so the quotient is zero or minus one before negation.
        if num >= 0 {
            proof {
                vstd::arithmetic::div_mod::lemma_basic_div(num as int, -(den as int));
            }
            0
        } else {
            proof {
                crate::num::lemma_small_neg_div(num as int, -(den as int));
            }
            1
        }
    } else {
        proof {
            crate::num::lemma_floor_div_in_range(num as int, -(den as int));
            if num == i128::MIN && den == -1 {
                vstd::arithmetic::div_mod::lemma_fundamental_div_mod_converse_div(
                    num as int,
                    1,
                    num as int,
                    0,
                );
                assert(signed_ratio(num as int, den as int) == -(i128::MIN as int));
            } else if num == i128::MIN {
                crate::num::lemma_div_magnitude_shrinks(num as int, -(den as int));
            }
        }
        let q: i128 = div_floor(num, -den);
        if q == i128::MIN {
            // Only reachable when the true quotient is the negation of
            // the minimum, which saturates.
            i128::MAX
        } else {
            -q
        }
    }
}

/// Volume-weighted average price: saturating accumulators for
/// price-times-volume and for volume.
pub struct VWAP {
    /// Accumulated price-volume products, in squared fixed-point steps.
    pub pv: i128,
    /// Accumulated volume.
    pub volume: i128,
}

impl VWAP {
    /// Create an empty accumulator.
    pub fn new() -> (r: VWAP)
        ensures
            r.pv == 0,
            r.volume == 0,
    {
        VWAP { pv: 0, volume: 0 }
    }

    /// Absorb one (price, volume) observation and return the current
    /// weighted average, zero while no volume has been observed.
    pub fn update(&mut self, price: i64, volume: i64) -> (r: i128)
        ensures
            final(self).pv == sat_i128(old(self).pv + price * volume),
            final(self).volume == sat_i128(old(self).volume + volume),
            r == sat_i128(signed_ratio(final(self).pv as int, final(self).volume as int)),
    {
        let prod: i128 = mul_sat(price as i128, volume as i128);
        proof {
            assert(prod == price * volume) by (nonlinear_arith)
                requires
                    prod == sat_i128((price as int) * (volume as int)),
                    i64::MIN <= price <= i64::MAX,
                    i64::MIN <= volume <= i64::MAX,
            {}
        }
        self.pv = add_sat(self.pv, prod);
        self.volume = add_sat(self.volume, volume as i128);
        self.value()
    }

    /// The current weighted average: the ratio of the accumulators,
    /// zero while no volume has been observed.
    pub fn value(&self) -> (r: i128)
        ensures
            r == sat_i128(signed_ratio(self.pv as int, self.volume as int)),
    {
        ratio_sat(self.pv, self.volume)
    }
}

/// Welford's online algorithm for the running mean and the sum of
/// squared deviations.
pub struct Welford {
    /// Number of observations absorbed.
    pub count: u64,
    /// Running mean.
    pub mean: i64,
    /// Sum of squared deviations from the mean, in squared fixed-point
    /// steps; saturating.
    pub m2: i128,
}

impl Welford {
    /// The squared-deviation sum never goes negative.
    pub open spec fn wf(&self) -> bool {
        self.m2 >= 0
    }

    /// Create an empty accumulator.
    pub fn new() -> (r: Welford)
        ensures
            r.wf(),
            r.count == 0,
            r.mean == 0,
            r.m2 == 0,
    {
        Welford { count: 0, mean: 0, m2: 0 }
    }

    /// Absorb one observation: the mean moves toward it by the exact
    /// Welford rule, and the squared-deviation sum grows by the product
    /// of the deviations before and after the move.
    pub fn update(&mut self, x: i64)
        requires
            old(self).wf(),
            old(self).count < u64::MAX,
        ensures
            final(self).wf(),
            final(self).count == old(self).count + 1,
            final(self).mean == mean_next(old(self).mean as int, x as int, final(self).count as int),
            final(self).m2 == sat_i128(
                old(self).m2 + sat_i128(
                    (x - old(self).mean) * (x - final(self).mean),
                ),
            ),
    {
        self.count = self.count + 1;
        let delta: i128 = (x as i128) - (self.mean as i128);
        let step: i128 = div_floor(delta, self.count as i128);
        proof {
            crate::num::lemma_floor_div_in_range(delta as int, self.count as int);
        }
        let new_mean: i64 = ((self.mean as i128) + step) as i64;
        let delta2: i128 = (x as i128) - (new_mean as i128);
        proof {
            assert(delta * delta2 >= 0) by (nonlinear_arith)
                requires
                    delta >= 0 ==> delta2 >= 0,
                    delta <= 0 ==> delta2 <= 0,
            {}
        }
        let grow: i128 = mul_sat(delta, delta2);
        self.m2 = add_sat(self.m2, grow);
        self.mean = new_mean;
    }

    /// Sample variance: the squared-deviation sum over `count - 1`,
    /// zero below two observations (the defined floor, not an error).
    pub fn variance(&self) -> (r: i128)
        requires
            self.wf(),
        ensures
            r == if self.count < 2 {
                0int
            } else {
                self.m2 as int / (self.count - 1)
            },
            r >= 0,
    {
        if self.count < 2 {
            0
        } else {
            proof {
                vstd::arithmetic::div_mod::lemma_div_pos_is_pos(
                    self.m2 as int,
                    self.count as int - 1,
                );
            }
            div_floor(self.m2, (self.count - 1) as i128)
        }
    }

    /// Sample standard deviation: the integer square root of the
    /// variance, in fixed-point steps.
    pub fn std_dev(&self) -> (r: i128)
        requires
            self.wf(),
        ensures
            r == crate::num::sqrt_val(
                if self.count < 2 {
                    0int
                } else {
                    self.m2 as int / (self.count - 1)
                },
            ),
            is_isqrt(
                if self.count < 2 {
                    0int
                } else {
                    self.m2 as int / (self.count - 1)
                },
                r as int,
            ),
    {
        isqrt(self.variance())
    }

    /// Running mean.
    pub fn mean(&self) -> (r: i64)
        ensures
            r == self.mean,
    {
        self.mean
    }

    /// Number of observations absorbed.
    pub fn count(&self) -> (r: u64)
        ensures
            r == self.count,
    {
        self.count
    }
}

} // verus!
