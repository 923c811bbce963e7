//! Per-symbol detection state machine.
//!
//! One instance per instrument owns its indicator set and turns each
//! observation into at most one scored signal under a cooldown rule.
//! Indicators always update, whether or not a signal is emitted; only
//! the decision to emit is gated, so state stays consistent during
//! cooldown suppression.

use vstd::prelude::*;
use vstd::string::StringExecFns;

use crate::incremental::{
    EMA, VWAP, Welford, ema_next, lemma_blend_in_range, mean_next, signed_ratio,
};
use crate::num::{
    SCALE, add_sat, clamp_i128, clamp_spec, div_floor, lemma_floor_div_in_range, mul_sat, sat_i128,
    sqrt_val,
};
use crate::signal::{Signal, SignalMeta};
use crate::text::{i64_text, int_text};

verus! {

/// Magnitude of a mathematical integer.
pub open spec fn abs_spec(v: int) -> int {
    if v < 0 {
        -v
    } else {
        v
    }
}

/// A value capped at the top of the `i64` range.
pub open spec fn cap_i64(v: int) -> int {
    if v > i64::MAX {
        i64::MAX as int
    } else {
        v
    }
}

/// Truncating whole seconds of a fixed-point timestamp, rounding
/// toward zero as a float-to-integer cast would.
pub open spec fn ts_secs(ts: int) -> int {
    if ts >= 0 {
        ts / (SCALE as int)
    } else {
        -((-ts) / (SCALE as int))
    }
}

/// The pattern label a detection can carry.
#[derive(Clone, Copy, PartialEq, Eq, Structural)]
pub enum PatternKind {
    /// Fast and slow averages diverge beyond one percent.
    EmaCrossover,
    /// Price deviates from the weighted average beyond half a percent.
    VwapDeviation,
    /// Volume above twice the reference average.
    VolumeSpike,
    /// Price strays from the fast average beyond two deviations.
    VolatilityBreakout,
}

/// Text of a pattern label; a detection without a label is composite.
pub open spec fn label_text(l: Option<PatternKind>) -> Seq<char> {
    match l {
        None => "composite"@,
        Some(PatternKind::EmaCrossover) => "ema_crossover"@,
        Some(PatternKind::VwapDeviation) => "vwap_deviation"@,
        Some(PatternKind::VolumeSpike) => "volume_spike"@,
        Some(PatternKind::VolatilityBreakout) => "volatility_breakout"@,
    }
}

/// The label as a string.
pub fn label_string(l: Option<PatternKind>) -> (r: String)
    ensures
        r@ == label_text(l),
{
    match l {
        None => String::from_str("composite"),
        Some(PatternKind::EmaCrossover) => String::from_str("ema_crossover"),
        Some(PatternKind::VwapDeviation) => String::from_str("vwap_deviation"),
        Some(PatternKind::VolumeSpike) => String::from_str("volume_spike"),
        Some(PatternKind::VolatilityBreakout) => String::from_str("volatility_breakout"),
    }
}

/// Relative divergence of the fast average from the slow one, in
/// fixed-point steps; meaningful when the slow average is positive.
pub open spec fn ema_rule_diff(f: int, sl: int) -> int {
    ((f - sl) * (SCALE as int)) / sl
}

/// The crossover rule fires when both averages are positive and the
/// divergence exceeds one percent.
pub open spec fn ema_rule_fires(f: int, sl: int) -> bool {
    f > 0 && sl > 0 && abs_spec(ema_rule_diff(f, sl)) > SCALE as int / 100
}

/// Relative deviation of the price from the weighted average, in
/// fixed-point steps; meaningful when the average is positive.
pub open spec fn vwap_dev(price: int, vp: int) -> int {
    sat_i128(sat_i128(price - vp) * (SCALE as int)) / vp
}

/// The deviation rule fires when the weighted average is positive and
/// the deviation exceeds half a percent.
pub open spec fn vwap_rule_fires(price: int, vp: int) -> bool {
    vp > 0 && abs_spec(vwap_dev(price, vp)) > SCALE as int / 200
}

/// The spike rule fires when volume exceeds twice the reference
/// average. The reference average is the design's fixed placeholder
/// of one thousand units, deliberately not the running volume
/// average that the state also maintains: the running average feeds
/// the feature vector, while the spike threshold stays a stable
/// configuration constant so that the rule's meaning does not drift
/// with the stream.
pub open spec fn volume_rule_fires(volume: int) -> bool {
    volume > 2000 * (SCALE as int)
}

/// The breakout rule fires after five observations when the price
/// strays from the fast average by more than twice the deviation.
pub open spec fn breakout_rule_fires(price: int, f: int, stdv: int, count: int) -> bool {
    count > 5 && (if price > 0 {
        (abs_spec(price - f) * (SCALE as int)) / price > 2 * stdv
    } else {
        price == 0 && f != 0
    })
}

/// The composite score before clamping: each firing rule adds its
/// term, the spike and breakout bonuses following the sign of the
/// running score (negative at zero).
pub open spec fn raw_score(
    f: int,
    sl: int,
    vp: int,
    stdv: int,
    count: int,
    price: int,
    volume: int,
) -> int {
    let s1: int = if ema_rule_fires(f, sl) {
        2 * ema_rule_diff(f, sl)
    } else {
        0
    };
    let s2: int = if vwap_rule_fires(price, vp) {
        sat_i128(s1 + sat_i128(3 * vwap_dev(price, vp)) / 2)
    } else {
        s1
    };
    let s3: int = if volume_rule_fires(volume) {
        sat_i128(
            s2 + if s2 > 0 {
                300_000_000int
            } else {
                (-300_000_000)
            },
        )
    } else {
        s2
    };
    if breakout_rule_fires(price, f, stdv, count) {
        sat_i128(
            s3 + if s3 > 0 {
                400_000_000int
            } else {
                (-400_000_000)
            },
        )
    } else {
        s3
    }
}

/// The label of a detection: the crossover rule labels first, the
/// deviation rule only if nothing is set, and the spike and breakout
/// rules override whatever stands.
pub open spec fn detect_label(
    f: int,
    sl: int,
    vp: int,
    stdv: int,
    count: int,
    price: int,
    volume: int,
) -> Option<PatternKind> {
    let l1: Option<PatternKind> = if ema_rule_fires(f, sl) {
        Some(PatternKind::EmaCrossover)
    } else {
        None
    };
    let l2: Option<PatternKind> = if vwap_rule_fires(price, vp) && l1 is None {
        Some(PatternKind::VwapDeviation)
    } else {
        l1
    };
    let l3: Option<PatternKind> = if volume_rule_fires(volume) {
        Some(PatternKind::VolumeSpike)
    } else {
        l2
    };
    if breakout_rule_fires(price, f, stdv, count) {
        Some(PatternKind::VolatilityBreakout)
    } else {
        l3
    }
}

/// One step of Wilder smoothing: the previous average weighted
/// `k - 1` parts against one part of the new observation.
pub open spec fn wilder_next(avg: int, x: int, k: int) -> int {
    (avg * (k - 1) + x) / k
}

/// The relative-strength index derived from the smoothed average gain
/// and loss, in fixed-point steps of `[0, 100]`.
pub open spec fn rsi_of(gain: int, loss: int) -> int {
    if loss > 0 {
        100 * (SCALE as int) - (100 * (SCALE as int) * (SCALE as int)) / (
        (SCALE as int) + (gain * (SCALE as int)) / loss)
    } else {
        100 * (SCALE as int)
    }
}

/// Per-instrument detection state: the indicator set, the Wilder
/// accumulators and the cooldown clock.
pub struct SymbolState {
    /// Instrument symbol.
    pub symbol: String,
    /// Fast exponential average.
    pub ema_fast: EMA,
    /// Slow exponential average.
    pub ema_slow: EMA,
    /// Weighted average price accumulator.
    pub vwap: VWAP,
    /// Online mean/variance of the price.
    pub welford: Welford,
    /// Time of the last emitted signal.
    pub last_signal_time: i64,
    /// Minimum spacing between emitted signals.
    pub signal_cooldown: i64,
    /// Running average volume.
    pub avg_volume: i64,
    /// Observations absorbed.
    pub volume_count: u64,
    /// Previous close, once an observation has been seen.
    pub prev_close: Option<i64>,
    /// Wilder-smoothed average gain.
    pub rsi_avg_gain: i64,
    /// Wilder-smoothed average loss.
    pub rsi_avg_loss: i64,
    /// Smoothing period of the relative-strength accumulators.
    pub rsi_period: u64,
    /// Wilder-smoothed average true range.
    pub atr: i64,
    /// Smoothing period of the true-range accumulator.
    pub atr_period: u64,
}

impl SymbolState {
    /// Internal consistency: valid smoothing factors, non-negative
    /// accumulators, and bounded smoothing periods.
    pub open spec fn wf(&self) -> bool {
        &&& self.ema_fast.wf()
        &&& self.ema_slow.wf()
        &&& self.welford.wf()
        &&& self.rsi_avg_gain >= 0
        &&& self.rsi_avg_loss >= 0
        &&& self.atr >= 0
        &&& 1 <= self.rsi_period <= 1_000_000
        &&& 1 <= self.atr_period <= 1_000_000
    }

    /// Fresh state for a symbol: a ten-period-equivalent fast average,
    /// a twenty-period-equivalent slow one, a thirty-second cooldown
    /// and fourteen-observation Wilder periods.
    pub fn new(symbol: String) -> (r: SymbolState)
        ensures
            r.wf(),
            r.symbol == symbol,
            r.ema_fast.alpha == 100_000_000 && r.ema_fast.value is None,
            r.ema_slow.alpha == 50_000_000 && r.ema_slow.value is None,
            r.vwap.pv == 0 && r.vwap.volume == 0,
            r.welford.count == 0 && r.welford.mean == 0 && r.welford.m2 == 0,
            r.last_signal_time == 0,
            r.signal_cooldown == 30 * SCALE,
            r.avg_volume == 0,
            r.volume_count == 0,
            r.prev_close is None,
            r.rsi_avg_gain == 0 && r.rsi_avg_loss == 0 && r.rsi_period == 14,
            r.atr == 0 && r.atr_period == 14,
    {
        SymbolState {
            symbol,
            ema_fast: EMA::new(100_000_000),
            ema_slow: EMA::new(50_000_000),
            vwap: VWAP::new(),
            welford: Welford::new(),
            last_signal_time: 0,
            signal_cooldown: 30 * SCALE,
            avg_volume: 0,
            volume_count: 0,
            prev_close: None,
            rsi_avg_gain: 0,
            rsi_avg_loss: 0,
            rsi_period: 14,
            atr: 0,
            atr_period: 14,
        }
    }

    /// Whether a step with the given score and timing emits a signal:
    /// the clamped score must cross the emission threshold and the
    /// cooldown since the last emission must have fully elapsed.
    pub open spec fn emits(&self, score: int, timestamp: int) -> bool {
        abs_spec(score) > 3 * (SCALE as int) / 10 && timestamp - self.last_signal_time
            > self.signal_cooldown
    }

    /// The fast average after one observation.
    pub open spec fn step_fast(&self, price: i64) -> int {
        ema_next(self.ema_fast.alpha as int, self.ema_fast.value, price)
    }

    /// The slow average after one observation.
    pub open spec fn step_slow(&self, price: i64) -> int {
        ema_next(self.ema_slow.alpha as int, self.ema_slow.value, price)
    }

    /// The weighted average price after one observation.
    pub open spec fn step_vwap(&self, price: i64, volume: i64) -> int {
        sat_i128(
            signed_ratio(
                sat_i128(self.vwap.pv + price * volume),
                sat_i128(self.vwap.volume + volume),
            ),
        )
    }

    /// The running mean after one observation.
    pub open spec fn step_mean(&self, price: i64) -> int {
        mean_next(self.welford.mean as int, price as int, self.welford.count + 1)
    }

    /// The squared-deviation sum after one observation.
    pub open spec fn step_m2(&self, price: i64) -> int {
        sat_i128(
            self.welford.m2 + sat_i128((price - self.welford.mean) * (price - self.step_mean(price))),
        )
    }

    /// The sample standard deviation after one observation.
    pub open spec fn step_stdv(&self, price: i64) -> int {
        sqrt_val(
            if self.welford.count + 1 < 2 {
                0int
            } else {
                self.step_m2(price) / (self.welford.count as int)
            },
        )
    }

    /// The clamped composite score of one observation.
    pub open spec fn step_score(&self, price: i64, volume: i64) -> int {
        clamp_spec(
            raw_score(
                self.step_fast(price),
                self.step_slow(price),
                self.step_vwap(price, volume),
                self.step_stdv(price),
                self.welford.count + 1,
                price as int,
                volume as int,
            ),
            -(SCALE as int),
            SCALE as int,
        )
    }

    /// The label of one observation's detection.
    pub open spec fn step_label(&self, price: i64, volume: i64) -> Option<PatternKind> {
        detect_label(
            self.step_fast(price),
            self.step_slow(price),
            self.step_vwap(price, volume),
            self.step_stdv(price),
            self.welford.count + 1,
            price as int,
            volume as int,
        )
    }

    /// Whether one observation emits a signal.
    pub open spec fn step_emits(&self, price: i64, volume: i64, timestamp: i64) -> bool {
        self.emits(self.step_score(price, volume), timestamp as int)
    }

    /// The Wilder gain of one observation, zero without a previous
    /// close.
    pub open spec fn step_gain(&self, price: i64) -> int {
        match self.prev_close {
            None => self.rsi_avg_gain as int,
            Some(prev) => {
                let ch = price - prev;
                let g = if ch > 0 {
                    cap_i64(ch)
                } else {
                    0
                };
                let k = if self.volume_count + 1 <= self.rsi_period {
                    self.volume_count + 1
                } else {
                    self.rsi_period as int
                };
                wilder_next(self.rsi_avg_gain as int, g, k)
            },
        }
    }

    /// The Wilder loss of one observation, zero without a previous
    /// close.
    pub open spec fn step_loss(&self, price: i64) -> int {
        match self.prev_close {
            None => self.rsi_avg_loss as int,
            Some(prev) => {
                let ch = price - prev;
                let l = if ch < 0 {
                    cap_i64(-ch)
                } else {
                    0
                };
                let k = if self.volume_count + 1 <= self.rsi_period {
                    self.volume_count + 1
                } else {
                    self.rsi_period as int
                };
                wilder_next(self.rsi_avg_loss as int, l, k)
            },
        }
    }

    /// The smoothed true range of one observation: two-phase, a
    /// simple running average for the first `atr_period` observations
    /// and Wilder smoothing with factor one over the period after the
    /// phase switch at observation count equal to the period.
    pub open spec fn step_atr(&self, price: i64) -> int {
        match self.prev_close {
            None => self.atr as int,
            Some(prev) => {
                let tr = cap_i64(abs_spec(price - prev));
                let k = if self.volume_count + 1 <= self.atr_period {
                    self.volume_count + 1
                } else {
                    self.atr_period as int
                };
                wilder_next(self.atr as int, tr, k)
            },
        }
    }

    /// The whole state after absorbing one observation: every
    /// indicator updates, and the cooldown clock moves exactly when
    /// the step emits.
    pub open spec fn step(&self, price: i64, volume: i64, timestamp: i64) -> SymbolState {
        SymbolState {
            symbol: self.symbol,
            ema_fast: EMA { alpha: self.ema_fast.alpha, value: Some(self.step_fast(price) as i64) },
            ema_slow: EMA { alpha: self.ema_slow.alpha, value: Some(self.step_slow(price) as i64) },
            vwap: VWAP {
                pv: sat_i128(self.vwap.pv + price * volume) as i128,
                volume: sat_i128(self.vwap.volume + volume) as i128,
            },
            welford: Welford {
                count: (self.welford.count + 1) as u64,
                mean: self.step_mean(price) as i64,
                m2: self.step_m2(price) as i128,
            },
            last_signal_time: if self.step_emits(price, volume, timestamp) {
                timestamp
            } else {
                self.last_signal_time
            },
            signal_cooldown: self.signal_cooldown,
            avg_volume: mean_next(
                self.avg_volume as int,
                volume as int,
                self.volume_count + 1,
            ) as i64,
            volume_count: (self.volume_count + 1) as u64,
            prev_close: Some(price),
            rsi_avg_gain: self.step_gain(price) as i64,
            rsi_avg_loss: self.step_loss(price) as i64,
            rsi_period: self.rsi_period,
            atr: self.step_atr(price) as i64,
            atr_period: self.atr_period,
        }
    }

    /// Law: once an observation emits a signal, a second observation
    /// within the cooldown window emits nothing, whatever its score;
    /// the indicators still absorb both updates.
    pub proof fn lemma_cooldown_suppresses(
        self,
        p1: i64,
        v1: i64,
        t1: i64,
        p2: i64,
        v2: i64,
        t2: i64,
    )
        requires
            self.step_emits(p1, v1, t1),
            t2 - t1 <= self.signal_cooldown,
            self.volume_count + 2 <= u64::MAX,
            self.welford.count + 2 <= u64::MAX,
        ensures
            !self.step(p1, v1, t1).step_emits(p2, v2, t2),
            self.step(p1, v1, t1).step(p2, v2, t2).welford.count == self.welford.count + 2,
            self.step(p1, v1, t1).step(p2, v2, t2).volume_count == self.volume_count + 2,
    {
        let s1 = self.step(p1, v1, t1);
        assert(s1.last_signal_time == t1);
        assert(!(t2 - s1.last_signal_time > s1.signal_cooldown));
    }

    /// Update every indicator with one observation and decide whether
    /// to emit a signal. Indicators always update; only the emission
    /// decision is gated by score strength and cooldown.
    #[verifier::rlimit(100)]
    #[verifier::spinoff_prover]
    pub fn update_and_detect(&mut self, price: i64, volume: i64, timestamp: i64) -> (r: Option<
        Signal,
    >)
        requires
            old(self).wf(),
            old(self).volume_count < u64::MAX,
            old(self).welford.count < u64::MAX,
        ensures
            final(self).wf(),
            *final(self) == old(self).step(price, volume, timestamp),
            r is Some <==> old(self).step_emits(price, volume, timestamp),
            final(self).symbol == old(self).symbol,
            final(self).signal_cooldown == old(self).signal_cooldown,
            final(self).rsi_period == old(self).rsi_period,
            final(self).atr_period == old(self).atr_period,
            final(self).ema_fast.alpha == old(self).ema_fast.alpha,
            final(self).ema_slow.alpha == old(self).ema_slow.alpha,
            final(self).ema_fast.value matches Some(v) && v == ema_next(
                old(self).ema_fast.alpha as int,
                old(self).ema_fast.value,
                price,
            ),
            final(self).ema_slow.value matches Some(v) && v == ema_next(
                old(self).ema_slow.alpha as int,
                old(self).ema_slow.value,
                price,
            ),
            final(self).vwap.pv == sat_i128(old(self).vwap.pv + price * volume),
            final(self).vwap.volume == sat_i128(old(self).vwap.volume + volume),
            final(self).welford.count == old(self).welford.count + 1,
            final(self).welford.mean == mean_next(
                old(self).welford.mean as int,
                price as int,
                old(self).welford.count + 1,
            ),
            final(self).volume_count == old(self).volume_count + 1,
            final(self).avg_volume == mean_next(
                old(self).avg_volume as int,
                volume as int,
                old(self).volume_count + 1,
            ),
            final(self).prev_close == Some(price),
            old(self).prev_close is None ==> final(self).rsi_avg_gain == old(self).rsi_avg_gain
                && final(self).rsi_avg_loss == old(self).rsi_avg_loss && final(self).atr == old(
                self,
            ).atr,
            old(self).prev_close matches Some(prev) ==> ({
                let ch = price - prev;
                let g = if ch > 0 {
                    cap_i64(ch)
                } else {
                    0
                };
                let l = if ch < 0 {
                    cap_i64(-ch)
                } else {
                    0
                };
                let k = if old(self).volume_count + 1 <= old(self).rsi_period {
                    old(self).volume_count + 1
                } else {
                    old(self).rsi_period as int
                };
                let tr = cap_i64(abs_spec(ch));
                let katr = if old(self).volume_count + 1 <= old(self).atr_period {
                    old(self).volume_count + 1
                } else {
                    old(self).atr_period as int
                };
                &&& final(self).rsi_avg_gain == wilder_next(old(self).rsi_avg_gain as int, g, k)
                &&& final(self).rsi_avg_loss == wilder_next(old(self).rsi_avg_loss as int, l, k)
                &&& final(self).atr == wilder_next(old(self).atr as int, tr, katr)
            }),
            ({
                let f = final(self).ema_fast.value->0 as int;
                let sl = final(self).ema_slow.value->0 as int;
                let vp = sat_i128(
                    signed_ratio(final(self).vwap.pv as int, final(self).vwap.volume as int),
                );
                let w = final(self).welford;
                let stdv = sqrt_val(
                    if w.count < 2 {
                        0int
                    } else {
                        w.m2 as int / (w.count as int - 1)
                    },
                );
                let score = clamp_spec(
                    raw_score(f, sl, vp, stdv, w.count as int, price as int, volume as int),
                    -(SCALE as int),
                    SCALE as int,
                );
                let fire = old(self).emits(score, timestamp as int);
                &&& final(self).last_signal_time == (if fire {
                    timestamp as int
                } else {
                    old(self).last_signal_time as int
                })
                &&& (r is Some <==> fire)
                &&& (r matches Some(sig) ==> {
                    &&& sig.id@ == old(self).symbol@ + "_"@ + int_text(ts_secs(timestamp as int))
                    &&& sig.symbol@ == old(self).symbol@
                    &&& sig.score == score
                    &&& sig.pattern@ == label_text(
                        detect_label(
                            f,
                            sl,
                            vp,
                            stdv,
                            w.count as int,
                            price as int,
                            volume as int,
                        ),
                    )
                    &&& sig.timestamp == timestamp
                    &&& sig.meta matches Some(m) && {
                        &&& m.ema_fast == final(self).ema_fast.value
                        &&& m.ema_slow == final(self).ema_slow.value
                        &&& m.vwap matches Some(mv) && mv == clamp_spec(
                            vp,
                            i64::MIN as int,
                            i64::MAX as int,
                        )
                        &&& m.volume == volume
                        &&& m.volatility == clamp_spec(stdv, i64::MIN as int, i64::MAX as int)
                        &&& m.rsi matches Some(rv) && rv == rsi_of(
                            final(self).rsi_avg_gain as int,
                            final(self).rsi_avg_loss as int,
                        )
                        &&& m.atr == Some(final(self).atr)
                    }
                    &&& sig.pattern_meta is None
                })
            }),
    {
        // Update every indicator first; this happens on every call.
        let f: i64 = self.ema_fast.update(price);
        let sl: i64 = self.ema_slow.update(price);
        let vp: i128 = self.vwap.update(price, volume);
        self.welford.update(price);

        self.volume_count = self.volume_count + 1;
        let n: u64 = self.volume_count;
        let step: i128 = div_floor(
            (volume as i128) - (self.avg_volume as i128),
            n as i128,
        );
        proof {
            lemma_floor_div_in_range(volume - self.avg_volume, n as int);
        }
        self.avg_volume = ((self.avg_volume as i128) + step) as i64;

        // Wilder accumulators: only once a previous close exists.
        if let Some(prev) = self.prev_close {
            let ch: i128 = (price as i128) - (prev as i128);
            let g: i64 = if ch > 0 {
                if ch > i64::MAX as i128 {
                    i64::MAX
                } else {
                    ch as i64
                }
            } else {
                0
            };
            let l: i64 = if ch < 0 {
                if -ch > i64::MAX as i128 {
                    i64::MAX
                } else {
                    (-ch) as i64
                }
            } else {
                0
            };
            let k: u64 = if n <= self.rsi_period {
                n
            } else {
                self.rsi_period
            };
            proof {
                lemma_blend_in_range(1, k as int, g as int, self.rsi_avg_gain as int);
                lemma_blend_in_range(1, k as int, l as int, self.rsi_avg_loss as int);
                assert(self.rsi_avg_gain * (k - 1) + g == 1 * g + (k - 1) * self.rsi_avg_gain);
                assert(self.rsi_avg_loss * (k - 1) + l == 1 * l + (k - 1) * self.rsi_avg_loss);
                assert(0 <= (self.rsi_avg_gain as int) * ((k - 1) as int) <= (i64::MAX as int)
                    * 1_000_000) by (nonlinear_arith)
                    requires
                        0 <= self.rsi_avg_gain <= i64::MAX,
                        0 <= (k - 1) as int <= 999_999,
                {}
                assert(0 <= (self.rsi_avg_loss as int) * ((k - 1) as int) <= (i64::MAX as int)
                    * 1_000_000) by (nonlinear_arith)
                    requires
                        0 <= self.rsi_avg_loss <= i64::MAX,
                        0 <= (k - 1) as int <= 999_999,
                {}
            }
            self.rsi_avg_gain = div_floor(
                (self.rsi_avg_gain as i128) * ((k - 1) as i128) + (g as i128),
                k as i128,
            ) as i64;
            self.rsi_avg_loss = div_floor(
                (self.rsi_avg_loss as i128) * ((k - 1) as i128) + (l as i128),
                k as i128,
            ) as i64;
            let tr: i64 = if ch >= 0 {
                g
            } else {
                l
            };
            let katr: u64 = if n <= self.atr_period {
                n
            } else {
                self.atr_period
            };
            proof {
                lemma_blend_in_range(1, katr as int, tr as int, self.atr as int);
                assert(self.atr * (katr - 1) + tr == 1 * tr + (katr - 1) * self.atr);
                assert(0 <= (self.atr as int) * ((katr - 1) as int) <= (i64::MAX as int)
                    * 1_000_000) by (nonlinear_arith)
                    requires
                        0 <= self.atr <= i64::MAX,
                        0 <= (katr - 1) as int <= 999_999,
                {}
            }
            self.atr = div_floor(
                (self.atr as i128) * ((katr - 1) as i128) + (tr as i128),
                katr as i128,
            ) as i64;
        }
        self.prev_close = Some(price);

        // Scoring rules, in order; see `raw_score` and `detect_label`.
        let stdv: i128 = self.welford.std_dev();
        let mut score: i128 = 0;
        let mut kind: Option<PatternKind> = None;

        if f > 0 && sl > 0 {
            proof {
                assert(((i64::MIN as int) - (i64::MAX as int)) * (SCALE as int) <= (f - sl) * (
                SCALE as int) <= ((i64::MAX as int) - (i64::MIN as int)) * (SCALE as int))
                    by (nonlinear_arith)
                    requires
                        i64::MIN <= f <= i64::MAX,
                        i64::MIN <= sl <= i64::MAX,
                {}
                lemma_floor_div_in_range((f - sl) * (SCALE as int), sl as int);
            }
            let ed: i128 = div_floor(((f as i128) - (sl as i128)) * (SCALE as i128), sl as i128);
            if ed < -10_000_000 || ed > 10_000_000 {
                score = 2 * ed;
                kind = Some(PatternKind::EmaCrossover);
            }
        }
        proof {
            assert(score == if ema_rule_fires(f as int, sl as int) {
                2 * ema_rule_diff(f as int, sl as int)
            } else {
                0int
            });
        }

        if vp > 0 {
            let diff: i128 = crate::num::sub_sat(price as i128, vp);
            let scaled: i128 = mul_sat(diff, SCALE as i128);
            proof {
                lemma_floor_div_in_range(scaled as int, vp as int);
            }
            let vd: i128 = div_floor(scaled, vp);
            if vd < -5_000_000 || vd > 5_000_000 {
                let tripled: i128 = mul_sat(3, vd);
                proof {
                    lemma_floor_div_in_range(tripled as int, 2);
                }
                let term: i128 = div_floor(tripled, 2);
                score = add_sat(score, term);
                if kind.is_none() {
                    kind = Some(PatternKind::VwapDeviation);
                }
            }
        }

        if volume > 2_000_000_000_000 {
            let bonus: i128 = if score > 0 {
                300_000_000
            } else {
                -300_000_000
            };
            score = add_sat(score, bonus);
            kind = Some(PatternKind::VolumeSpike);
        }

        proof {
            assert(stdv <= 13043817825332782212) by (nonlinear_arith)
                requires
                    stdv >= 0,
                    stdv * stdv <= i128::MAX,
            {}
        }
        let wcount: u64 = self.welford.count();
        if wcount > 5 {
            let brk: bool = if price > 0 {
                let dd: i128 = (price as i128) - (f as i128);
                let dd_abs: i128 = if dd < 0 {
                    -dd
                } else {
                    dd
                };
                proof {
                    assert(0 <= dd_abs * (SCALE as int) <= ((i64::MAX as int) - (i64::MIN as int))
                        * (SCALE as int)) by (nonlinear_arith)
                        requires
                            0 <= dd_abs <= (i64::MAX as int) - (i64::MIN as int),
                    {}
                    lemma_floor_div_in_range(dd_abs * (SCALE as int), price as int);
                }
                let q: i128 = div_floor(dd_abs * (SCALE as i128), price as i128);
                q > 2 * stdv
            } else {
                price == 0 && f != 0
            };
            if brk {
                let bonus: i128 = if score > 0 {
                    400_000_000
                } else {
                    -400_000_000
                };
                score = add_sat(score, bonus);
                kind = Some(PatternKind::VolatilityBreakout);
            }
        }

        let clamped: i64 = clamp_i128(score, -SCALE, SCALE);

        // Emit only a significant score outside the cooldown window.
        let strength: i64 = if clamped < 0 {
            -clamped
        } else {
            clamped
        };
        let elapsed_ok: bool = (timestamp as i128) - (self.last_signal_time as i128)
            > (self.signal_cooldown as i128);
        if strength > 300_000_000 && elapsed_ok {
            self.last_signal_time = timestamp;
            let secs: i64 = if timestamp >= 0 {
                crate::num::fx_div(timestamp, SCALE)
            } else {
                proof {
                    lemma_floor_div_in_range(-(timestamp as int), SCALE as int);
                }
                (-div_floor(-(timestamp as i128), SCALE as i128)) as i64
            };
            let id: String = self.symbol.clone().concat("_").concat(i64_text(secs).as_str());
            let rsi_val: i64 = if self.rsi_avg_loss > 0 {
                let rs: i128 = div_floor(
                    (self.rsi_avg_gain as i128) * (SCALE as i128),
                    self.rsi_avg_loss as i128,
                );
                proof {
                    assert((self.rsi_avg_gain as int) * (SCALE as int) >= 0) by (nonlinear_arith)
                        requires
                            self.rsi_avg_gain >= 0,
                    {}
                    lemma_floor_div_in_range(
                        (self.rsi_avg_gain as int) * (SCALE as int),
                        self.rsi_avg_loss as int,
                    );
                    lemma_floor_div_in_range(
                        100 * (SCALE as int) * (SCALE as int),
                        (SCALE as int) + rs,
                    );
                    vstd::arithmetic::div_mod::lemma_div_is_ordered_by_denominator(
                        100 * (SCALE as int) * (SCALE as int),
                        SCALE as int,
                        (SCALE as int) + rs,
                    );
                }
                let q: i128 = div_floor(
                    100 * (SCALE as i128) * (SCALE as i128),
                    (SCALE as i128) + rs,
                );
                100 * SCALE - (q as i64)
            } else {
                100 * SCALE
            };
            let meta = SignalMeta {
                ema_fast: Some(f),
                ema_slow: Some(sl),
                vwap: Some(clamp_i128(vp, i64::MIN, i64::MAX)),
                volume,
                volatility: clamp_i128(stdv, i64::MIN, i64::MAX),
                rsi: Some(rsi_val),
                atr: Some(self.atr),
            };
            Some(
                Signal {
                    id,
                    symbol: self.symbol.clone(),
                    score: clamped,
                    pattern: label_string(kind),
                    timestamp,
                    meta: Some(meta),
                    pattern_meta: None,
                },
            )
        } else {
            None
        }
    }
}

} // verus!
