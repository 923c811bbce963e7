//! The per-symbol pipeline: bar aggregation feeding detection.
//!
//! Each tick first updates every interval bucket; a closed bar replays
//! its close price and cumulative volume into the detection state
//! machine, tagging any resulting signal with the interval width.
//! Tick-level detection then runs on the tick itself. Every emitted
//! signal leaves with the feature vector derived from its indicator
//! snapshot, ready for pattern resolution.

use vstd::prelude::*;
use vstd::string::StringExecFns;

use crate::bars::{
    Bar, BarAggregator, bucket_of, closed_upto, lemma_closed_upto_props, next_bar,
};
use crate::detect::{SymbolState, label_text, rsi_of, ts_secs};
use crate::incremental::{ratio_sat, signed_ratio};
use crate::num::{SCALE, clamp_i128, clamp_spec, sat_i128};
use crate::signal::{Signal, SignalMeta};
use crate::text::{dec_digits, int_text, u64_text};

verus! {

/// One emitted signal with the feature vector derived from its
/// indicator snapshot.
pub struct Detection {
    /// The emitted signal, before pattern enrichment.
    pub signal: Signal,
    /// Features for the pattern resolution layer.
    pub features: Vec<i64>,
}

/// The fixed-point timestamp of a closed bar: its bucket start scaled
/// back to fixed-point seconds.
pub open spec fn bar_ts(b: Bar) -> i64 {
    (b.start * SCALE) as i64
}

/// The detection state after replaying a list of closed bars, each as
/// one observation of its close price and cumulative volume.
pub open spec fn run_bars(s: SymbolState, closed: Seq<(u64, Bar)>) -> SymbolState
    decreases closed.len(),
{
    if closed.len() == 0 {
        s
    } else {
        run_bars(
            s.step(closed[0].1.close, closed[0].1.volume, bar_ts(closed[0].1)),
            closed.drop_first(),
        )
    }
}

/// The emitting closed-bar observations, each with the state it was
/// fed into, its interval width and its bar, in replay order.
pub open spec fn bar_emissions(s: SymbolState, closed: Seq<(u64, Bar)>) -> Seq<
    (SymbolState, u64, Bar),
>
    decreases closed.len(),
{
    if closed.len() == 0 {
        Seq::empty()
    } else {
        (if s.step_emits(closed[0].1.close, closed[0].1.volume, bar_ts(closed[0].1)) {
            seq![(s, closed[0].0, closed[0].1)]
        } else {
            Seq::empty()
        }) + bar_emissions(
            s.step(closed[0].1.close, closed[0].1.volume, bar_ts(closed[0].1)),
            closed.drop_first(),
        )
    }
}

/// Replaying one more bar extends the fold by one step.
proof fn lemma_run_snoc(s: SymbolState, c: Seq<(u64, Bar)>, x: (u64, Bar))
    ensures
        run_bars(s, c.push(x)) == run_bars(s, c).step(x.1.close, x.1.volume, bar_ts(x.1)),
        bar_emissions(s, c.push(x)) == bar_emissions(s, c) + (if run_bars(s, c).step_emits(
            x.1.close,
            x.1.volume,
            bar_ts(x.1),
        ) {
            seq![(run_bars(s, c), x.0, x.1)]
        } else {
            Seq::empty()
        }),
    decreases c.len(),
{
    if c.len() == 0 {
        let s1 = s.step(x.1.close, x.1.volume, bar_ts(x.1));
        assert(c.push(x)[0] == x);
        assert(c.push(x).drop_first() =~= c);
        assert(run_bars(s, c) == s);
        assert(run_bars(s1, c) == s1);
        assert(run_bars(s, c.push(x)) == run_bars(s1, c));
        assert(bar_emissions(s1, c) == Seq::<(SymbolState, u64, Bar)>::empty());
        assert(bar_emissions(s, c) == Seq::<(SymbolState, u64, Bar)>::empty());
        if s.step_emits(x.1.close, x.1.volume, bar_ts(x.1)) {
            assert(bar_emissions(s, c.push(x)) =~= bar_emissions(s, c) + seq![(s, x.0, x.1)]);
        } else {
            assert(bar_emissions(s, c.push(x)) =~= bar_emissions(s, c));
            assert(bar_emissions(s, c) + Seq::<(SymbolState, u64, Bar)>::empty()
                =~= bar_emissions(s, c));
        }
    } else {
        assert(c.push(x)[0] == c[0]);
        assert(c.push(x).drop_first() =~= c.drop_first().push(x));
        lemma_run_snoc(s.step(c[0].1.close, c[0].1.volume, bar_ts(c[0].1)), c.drop_first(), x);
        let head: Seq<(SymbolState, u64, Bar)> = if s.step_emits(
            c[0].1.close,
            c[0].1.volume,
            bar_ts(c[0].1),
        ) {
            seq![(s, c[0].0, c[0].1)]
        } else {
            Seq::empty()
        };
        let s1 = s.step(c[0].1.close, c[0].1.volume, bar_ts(c[0].1));
        let tail_add: Seq<(SymbolState, u64, Bar)> = if run_bars(s, c).step_emits(
            x.1.close,
            x.1.volume,
            bar_ts(x.1),
        ) {
            seq![(run_bars(s, c), x.0, x.1)]
        } else {
            Seq::empty()
        };
        assert(head + (bar_emissions(s1, c.drop_first()) + tail_add) =~= (head + bar_emissions(
            s1,
            c.drop_first(),
        )) + tail_add);
    }
}

/// Difference feature, clamped to the machine range.
pub open spec fn diff_feat(a: int, b: int) -> int {
    clamp_spec(a - b, i64::MIN as int, i64::MAX as int)
}

/// Relative deviation feature of `a` from a nonzero base `b`, in
/// fixed-point steps; zero for a zero base.
pub open spec fn dev_feat(a: int, b: int) -> int {
    if b != 0 {
        clamp_spec(
            sat_i128(signed_ratio((a - b) * (SCALE as int), b)),
            i64::MIN as int,
            i64::MAX as int,
        )
    } else {
        0
    }
}

/// Ratio feature of `x` against a positive base, in fixed-point
/// steps; one unit for a non-positive base.
pub open spec fn ratio_feat(x: int, b: int) -> int {
    if b > 0 {
        clamp_spec(
            sat_i128(signed_ratio(x * (SCALE as int), b)),
            i64::MIN as int,
            i64::MAX as int,
        )
    } else {
        SCALE as int
    }
}

/// Difference feature, as executable code.
fn diff_feat_x(a: i64, b: i64) -> (r: i64)
    ensures
        r == diff_feat(a as int, b as int),
{
    clamp_i128((a as i128) - (b as i128), i64::MIN, i64::MAX)
}

/// Relative deviation feature, as executable code.
fn dev_feat_x(a: i64, b: i64) -> (r: i64)
    ensures
        r == dev_feat(a as int, b as int),
{
    if b == 0 {
        0
    } else {
        proof {
            assert(((i64::MIN as int) - (i64::MAX as int)) * (SCALE as int) <= (a - b) * (
            SCALE as int) <= ((i64::MAX as int) - (i64::MIN as int)) * (SCALE as int))
                by (nonlinear_arith)
                requires
                    i64::MIN <= a <= i64::MAX,
                    i64::MIN <= b <= i64::MAX,
            {}
        }
        let num: i128 = ((a as i128) - (b as i128)) * (SCALE as i128);
        clamp_i128(ratio_sat(num, b as i128), i64::MIN, i64::MAX)
    }
}

/// Ratio feature, as executable code.
fn ratio_feat_x(x: i64, b: i64) -> (r: i64)
    ensures
        r == ratio_feat(x as int, b as int),
{
    if b <= 0 {
        SCALE
    } else {
        proof {
            assert((i64::MIN as int) * (SCALE as int) <= (x as int) * (SCALE as int) <= (
            i64::MAX as int) * (SCALE as int)) by (nonlinear_arith)
                requires
                    i64::MIN <= x <= i64::MAX,
            {}
        }
        let num: i128 = (x as i128) * (SCALE as i128);
        clamp_i128(ratio_sat(num, b as i128), i64::MIN, i64::MAX)
    }
}

/// The feature vector of a tick-level detection, derived from the
/// signal's indicator snapshot, the tick price and the running
/// average volume.
pub fn tick_features(m: &SignalMeta, price: i64, avg_volume: i64) -> (r: Vec<i64>)
    requires
        m.ema_fast is Some,
        m.ema_slow is Some,
        m.vwap is Some,
    ensures
        r@.len() == 6,
        r@[0] == diff_feat(m.ema_fast->0 as int, m.ema_slow->0 as int),
        r@[1] == dev_feat(m.ema_fast->0 as int, m.ema_slow->0 as int),
        r@[2] == dev_feat(price as int, m.vwap->0 as int),
        r@[3] == ratio_feat(m.volume as int, avg_volume as int),
        r@[4] == diff_feat(price as int, m.ema_slow->0 as int),
        r@[5] == m.volatility,
{
    let mf: i64 = match m.ema_fast {
        Some(v) => v,
        None => 0,
    };
    let ms: i64 = match m.ema_slow {
        Some(v) => v,
        None => 0,
    };
    let mv: i64 = match m.vwap {
        Some(v) => v,
        None => 0,
    };
    let mut r: Vec<i64> = Vec::new();
    r.push(diff_feat_x(mf, ms));
    r.push(dev_feat_x(mf, ms));
    r.push(dev_feat_x(price, mv));
    r.push(ratio_feat_x(m.volume, avg_volume));
    r.push(diff_feat_x(price, ms));
    r.push(m.volatility);
    r
}

/// The feature vector of a closed-bar detection: the tick features
/// over the bar's close, plus the move from the bar's open, absolute
/// and relative.
pub fn bar_features(m: &SignalMeta, closed: &Bar, avg_volume: i64) -> (r: Vec<i64>)
    requires
        m.ema_fast is Some,
        m.ema_slow is Some,
        m.vwap is Some,
    ensures
        r@.len() == 8,
        r@[0] == diff_feat(m.ema_fast->0 as int, m.ema_slow->0 as int),
        r@[1] == dev_feat(m.ema_fast->0 as int, m.ema_slow->0 as int),
        r@[2] == dev_feat(closed.close as int, m.vwap->0 as int),
        r@[3] == ratio_feat(m.volume as int, avg_volume as int),
        r@[4] == diff_feat(closed.close as int, m.ema_slow->0 as int),
        r@[5] == diff_feat(closed.close as int, closed.open as int),
        r@[6] == dev_feat(closed.close as int, closed.open as int),
        r@[7] == m.volatility,
{
    let mf: i64 = match m.ema_fast {
        Some(v) => v,
        None => 0,
    };
    let ms: i64 = match m.ema_slow {
        Some(v) => v,
        None => 0,
    };
    let mv: i64 = match m.vwap {
        Some(v) => v,
        None => 0,
    };
    let mut r: Vec<i64> = Vec::new();
    r.push(diff_feat_x(mf, ms));
    r.push(dev_feat_x(mf, ms));
    r.push(dev_feat_x(closed.close, mv));
    r.push(ratio_feat_x(m.volume, avg_volume));
    r.push(diff_feat_x(closed.close, ms));
    r.push(diff_feat_x(closed.close, closed.open));
    r.push(dev_feat_x(closed.close, closed.open));
    r.push(m.volatility);
    r
}

/// What a closed bar's detection carries: the exact signal its step
/// emits, tagged with the interval width, with the bar feature
/// vector derived from the signal's own snapshot.
pub open spec fn bar_detection_ok(st: SymbolState, intv: u64, b: Bar, d: Detection) -> bool {
    let post = st.step(b.close, b.volume, bar_ts(b));
    let sig = d.signal;
    &&& st.step_emits(b.close, b.volume, bar_ts(b))
    &&& sig.symbol@ == st.symbol@
    &&& sig.id@ == st.symbol@ + "_"@ + int_text(ts_secs(bar_ts(b) as int))
    &&& sig.score == st.step_score(b.close, b.volume)
    &&& sig.pattern@ == label_text(st.step_label(b.close, b.volume)) + ":"@ + dec_digits(
        intv as nat,
    ) + "s"@
    &&& sig.timestamp == bar_ts(b)
    &&& sig.pattern_meta is None
    &&& sig.meta matches Some(m) && {
        &&& m.ema_fast == post.ema_fast.value
        &&& m.ema_slow == post.ema_slow.value
        &&& m.vwap matches Some(mv) && mv == clamp_spec(
            st.step_vwap(b.close, b.volume),
            i64::MIN as int,
            i64::MAX as int,
        )
        &&& m.volume == b.volume
        &&& m.volatility == clamp_spec(st.step_stdv(b.close), i64::MIN as int, i64::MAX as int)
        &&& m.rsi matches Some(rv) && rv == rsi_of(
            post.rsi_avg_gain as int,
            post.rsi_avg_loss as int,
        )
        &&& m.atr == Some(post.atr)
        &&& d.features@.len() == 8
        &&& d.features@[0] == diff_feat(m.ema_fast->0 as int, m.ema_slow->0 as int)
        &&& d.features@[1] == dev_feat(m.ema_fast->0 as int, m.ema_slow->0 as int)
        &&& d.features@[2] == dev_feat(b.close as int, m.vwap->0 as int)
        &&& d.features@[3] == ratio_feat(m.volume as int, post.avg_volume as int)
        &&& d.features@[4] == diff_feat(b.close as int, m.ema_slow->0 as int)
        &&& d.features@[5] == diff_feat(b.close as int, b.open as int)
        &&& d.features@[6] == dev_feat(b.close as int, b.open as int)
        &&& d.features@[7] == m.volatility
    }
}

/// What the tick-level detection carries: the exact signal the tick
/// step emits, with the tick feature vector derived from the
/// signal's own snapshot.
pub open spec fn tick_detection_ok(
    st: SymbolState,
    price: i64,
    volume: i64,
    ts: i64,
    d: Detection,
) -> bool {
    let post = st.step(price, volume, ts);
    let sig = d.signal;
    &&& st.step_emits(price, volume, ts)
    &&& sig.symbol@ == st.symbol@
    &&& sig.id@ == st.symbol@ + "_"@ + int_text(ts_secs(ts as int))
    &&& sig.score == st.step_score(price, volume)
    &&& sig.pattern@ == label_text(st.step_label(price, volume))
    &&& sig.timestamp == ts
    &&& sig.pattern_meta is None
    &&& sig.meta matches Some(m) && {
        &&& m.ema_fast == post.ema_fast.value
        &&& m.ema_slow == post.ema_slow.value
        &&& m.vwap matches Some(mv) && mv == clamp_spec(
            st.step_vwap(price, volume),
            i64::MIN as int,
            i64::MAX as int,
        )
        &&& m.volume == volume
        &&& m.volatility == clamp_spec(st.step_stdv(price), i64::MIN as int, i64::MAX as int)
        &&& m.rsi matches Some(rv) && rv == rsi_of(
            post.rsi_avg_gain as int,
            post.rsi_avg_loss as int,
        )
        &&& m.atr == Some(post.atr)
        &&& d.features@.len() == 6
        &&& d.features@[0] == diff_feat(m.ema_fast->0 as int, m.ema_slow->0 as int)
        &&& d.features@[1] == dev_feat(m.ema_fast->0 as int, m.ema_slow->0 as int)
        &&& d.features@[2] == dev_feat(price as int, m.vwap->0 as int)
        &&& d.features@[3] == ratio_feat(m.volume as int, post.avg_volume as int)
        &&& d.features@[4] == diff_feat(price as int, m.ema_slow->0 as int)
        &&& d.features@[5] == m.volatility
    }
}

/// The full per-symbol pipeline: aggregator plus detection state.
pub struct SymbolEngine {
    /// Detection state machine of the symbol.
    pub state: SymbolState,
    /// Interval buckets of the symbol.
    pub bars: BarAggregator,
}

impl SymbolEngine {
    /// Both halves consistent, and the two observation counters move
    /// together.
    pub open spec fn wf(&self) -> bool {
        &&& self.state.wf()
        &&& self.bars.wf()
        &&& self.state.volume_count == self.state.welford.count
    }

    /// A fresh engine for one symbol over a set of intervals.
    pub fn new(symbol: String, intervals: Vec<u64>) -> (r: SymbolEngine)
        requires
            forall|i: int|
                0 <= i < intervals@.len() ==> 1 <= #[trigger] intervals@[i] <= 1_000_000_000,
        ensures
            r.wf(),
            r.state.symbol == symbol,
            r.state.volume_count == 0,
            r.state.welford.count == 0,
            r.state.last_signal_time == 0,
            r.bars.intervals == intervals,
            forall|i: int| 0 <= i < intervals@.len() ==> #[trigger] r.bars.open_bars@[i] is None,
    {
        SymbolEngine { state: SymbolState::new(symbol), bars: BarAggregator::new(intervals) }
    }

    /// Absorb one tick: update every interval bucket, replay each
    /// closed bar into detection (tagging its signal with the interval
    /// width), then run tick-level detection. The detections come out
    /// in that order, each with its feature vector.
    pub fn on_tick(&mut self, price: i64, volume: i64, timestamp: i64) -> (r: Vec<Detection>)
        requires
            old(self).wf(),
            -4_000_000_000_000_000_000 <= timestamp <= 4_000_000_000_000_000_000,
            old(self).state.volume_count + old(self).bars.intervals@.len() + 1 <= u64::MAX,
        ensures
            final(self).wf(),
            final(self).bars.intervals == old(self).bars.intervals,
            final(self).state.symbol == old(self).state.symbol,
            forall|i: int|
                0 <= i < old(self).bars.open_bars@.len() ==> #[trigger] final(self).bars.open_bars@[i]
                    == Some(
                    next_bar(
                        old(self).bars.open_bars@[i],
                        price,
                        volume,
                        bucket_of(timestamp as int, old(self).bars.intervals@[i] as int),
                    ),
                ),
            ({
                let closed = closed_upto(
                    old(self).bars.open_bars@,
                    old(self).bars.intervals@,
                    timestamp as int,
                    old(self).bars.open_bars@.len() as int,
                );
                &&& final(self).state == run_bars(old(self).state, closed).step(
                    price,
                    volume,
                    timestamp,
                )
                &&& r@.len() == bar_emissions(old(self).state, closed).len() + (if run_bars(
                    old(self).state,
                    closed,
                ).step_emits(price, volume, timestamp) {
                    1int
                } else {
                    0int
                })
                &&& forall|j: int|
                    0 <= j < bar_emissions(old(self).state, closed).len() ==> bar_detection_ok(
                        bar_emissions(old(self).state, closed)[j].0,
                        bar_emissions(old(self).state, closed)[j].1,
                        bar_emissions(old(self).state, closed)[j].2,
                        #[trigger] r@[j],
                    )
                &&& run_bars(old(self).state, closed).step_emits(price, volume, timestamp)
                    ==> tick_detection_ok(
                    run_bars(old(self).state, closed),
                    price,
                    volume,
                    timestamp,
                    r@[r@.len() - 1],
                )
            }),
            forall|j: int|
                0 <= j < r@.len() ==> (#[trigger] r@[j]).signal.symbol@ == old(self).state.symbol@
                    && r@[j].signal.pattern_meta is None,
    {
        let ghost state0 = old(self).state;
        let closed: Vec<(u64, Bar)> = self.bars.on_tick(price, volume, timestamp);
        let ghost bars_after = self.bars;
        proof {
            lemma_closed_upto_props(
                old(self).bars.open_bars@,
                old(self).bars.intervals@,
                timestamp as int,
                old(self).bars.open_bars@.len() as int,
            );
        }
        let mut out: Vec<Detection> = Vec::new();
        let mut i: usize = 0;
        while i < closed.len()
            invariant
                0 <= i <= closed@.len(),
                closed@.len() <= old(self).bars.intervals@.len(),
                forall|j: int| 0 <= j < closed@.len() ==> (#[trigger] closed@[j]).1.wf(),
                self.bars == bars_after,
                self.state == run_bars(state0, closed@.subrange(0, i as int)),
                out@.len() == bar_emissions(state0, closed@.subrange(0, i as int)).len(),
                forall|j: int|
                    0 <= j < out@.len() ==> bar_detection_ok(
                        bar_emissions(state0, closed@.subrange(0, i as int))[j].0,
                        bar_emissions(state0, closed@.subrange(0, i as int))[j].1,
                        bar_emissions(state0, closed@.subrange(0, i as int))[j].2,
                        #[trigger] out@[j],
                    ),
                self.state.wf(),
                self.state.symbol == state0.symbol,
                self.state.volume_count == self.state.welford.count,
                self.state.volume_count == state0.volume_count + i,
                state0.volume_count + closed@.len() + 1 <= u64::MAX,
                forall|j: int|
                    0 <= j < out@.len() ==> (#[trigger] out@[j]).signal.symbol@ == state0.symbol@
                        && out@[j].signal.pattern_meta is None,
            decreases closed@.len() - i,
        {
            let pair: (u64, Bar) = closed[i];
            let intv: u64 = pair.0;
            let b: Bar = pair.1;
            proof {
                assert(closed@[i as int].1.wf());
                assert(closed@.subrange(0, i + 1) =~= closed@.subrange(0, i as int).push(
                    closed@[i as int],
                ));
                lemma_run_snoc(state0, closed@.subrange(0, i as int), closed@[i as int]);
            }
            let ts_b: i64 = b.start * SCALE;
            let sig_opt: Option<Signal> = self.state.update_and_detect(b.close, b.volume, ts_b);
            if let Some(sig) = sig_opt {
                let feats: Vec<i64> = match &sig.meta {
                    Some(m) => bar_features(m, &b, self.state.avg_volume),
                    None => Vec::new(),
                };
                let mut sig = sig;
                sig.pattern = sig.pattern.concat(":").concat(u64_text(intv).as_str()).concat("s");
                let ghost out_before = out@;
                let ghost st = run_bars(state0, closed@.subrange(0, i as int));
                out.push(Detection { signal: sig, features: feats });
                proof {
                    let emis = bar_emissions(state0, closed@.subrange(0, i + 1));
                    assert(emis == bar_emissions(state0, closed@.subrange(0, i as int)) + seq![
                        (st, intv, b),
                    ]);
                    assert(bar_detection_ok(st, intv, b, out@[out@.len() - 1]));
                    assert forall|j: int| 0 <= j < out@.len() implies bar_detection_ok(
                        emis[j].0,
                        emis[j].1,
                        emis[j].2,
                        #[trigger] out@[j],
                    ) by {
                        if j < out_before.len() {
                            assert(out@[j] == out_before[j]);
                            assert(emis[j] == bar_emissions(
                                state0,
                                closed@.subrange(0, i as int),
                            )[j]);
                        } else {
                            assert(out@[j] == out@[out@.len() - 1]);
                            assert(emis[j] == (st, intv, b));
                        }
                    }
                }
            }
            i = i + 1;
        }
        proof {
            assert(closed@.subrange(0, closed@.len() as int) =~= closed@);
        }
        let ghost st_tick = run_bars(
            state0,
            closed_upto(
                old(self).bars.open_bars@,
                old(self).bars.intervals@,
                timestamp as int,
                old(self).bars.open_bars@.len() as int,
            ),
        );
        let sig_opt: Option<Signal> = self.state.update_and_detect(price, volume, timestamp);
        if let Some(sig) = sig_opt {
            let feats: Vec<i64> = match &sig.meta {
                Some(m) => tick_features(m, price, self.state.avg_volume),
                None => Vec::new(),
            };
            out.push(Detection { signal: sig, features: feats });
            proof {
                assert(tick_detection_ok(
                    st_tick,
                    price,
                    volume,
                    timestamp,
                    out@[out@.len() - 1],
                ));
            }
        }
        out
    }
}

} // verus!
