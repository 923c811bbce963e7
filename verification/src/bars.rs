//! Multi-timeframe bar aggregation.
//!
//! One open bar is kept per configured interval; a tick whose bucket
//! differs from the open bar's bucket closes it. Closed bars are
//! handed back by value, decoupled from the new state. Out-of-order
//! timestamps are not corrected: a stale tick closes the open bar
//! into an older bucket, a documented limitation.

use vstd::prelude::*;
use vstd::pervasive::VecAdditionalExecFns;

use crate::num::{SCALE, clamp_spec, div_floor, lemma_floor_div_in_range};

verus! {

/// The aligned start, in whole seconds, of the interval bucket
/// holding a fixed-point timestamp.
pub open spec fn bucket_of(ts: int, interval: int) -> int {
    (ts / (interval * (SCALE as int))) * interval
}

/// An open-high-low-close-volume summary of the ticks in one bucket.
#[derive(Clone, Copy, PartialEq, Eq, Structural)]
pub struct Bar {
    /// Bucket start, whole seconds aligned to the interval width.
    pub start: i64,
    /// First price of the bucket.
    pub open: i64,
    /// Highest price of the bucket.
    pub high: i64,
    /// Lowest price of the bucket.
    pub low: i64,
    /// Latest price of the bucket.
    pub close: i64,
    /// Cumulative volume of the bucket; saturating.
    pub volume: i64,
}

impl Bar {
    /// The low never exceeds the open, close or high, and the bucket
    /// start stays small enough to scale back to fixed-point seconds.
    pub open spec fn wf(&self) -> bool {
        &&& self.low <= self.open <= self.high
        &&& self.low <= self.close <= self.high
        &&& -5_000_000_000 <= self.start <= 5_000_000_000
    }
}

/// A fresh bar seeded from one tick.
pub open spec fn seed_bar(price: i64, volume: i64, bucket: int) -> Bar {
    Bar {
        start: bucket as i64,
        open: price,
        high: price,
        low: price,
        close: price,
        volume,
    }
}

/// An open bar after absorbing one tick of its own bucket.
pub open spec fn bump_bar(b: Bar, price: i64, volume: i64) -> Bar {
    Bar {
        start: b.start,
        open: b.open,
        high: if price > b.high {
            price
        } else {
            b.high
        },
        low: if price < b.low {
            price
        } else {
            b.low
        },
        close: price,
        volume: clamp_spec(b.volume + volume, i64::MIN as int, i64::MAX as int) as i64,
    }
}

/// The open bar of a slot after one tick: seeded when none is open or
/// the bucket moved, updated in place otherwise.
pub open spec fn next_bar(cur: Option<Bar>, price: i64, volume: i64, bucket: int) -> Bar {
    match cur {
        None => seed_bar(price, volume, bucket),
        Some(b) => if b.start == bucket {
            bump_bar(b, price, volume)
        } else {
            seed_bar(price, volume, bucket)
        },
    }
}

/// Whether a slot's open bar closes on a tick of the given bucket.
pub open spec fn slot_closes(cur: Option<Bar>, bucket: int) -> bool {
    match cur {
        None => false,
        Some(b) => b.start != bucket,
    }
}

/// The bars closed by one tick among the first `n` slots, in slot
/// order, each tagged with its interval width.
pub open spec fn closed_upto(
    bars: Seq<Option<Bar>>,
    intervals: Seq<u64>,
    ts: int,
    n: int,
) -> Seq<(u64, Bar)>
    decreases n,
{
    if n <= 0 {
        Seq::empty()
    } else {
        closed_upto(bars, intervals, ts, n - 1) + (if slot_closes(
            bars[n - 1],
            bucket_of(ts, intervals[n - 1] as int),
        ) {
            seq![(intervals[n - 1], bars[n - 1]->0)]
        } else {
            Seq::empty()
        })
    }
}

/// The per-symbol aggregator: one open bar per configured interval.
pub struct BarAggregator {
    /// Configured interval widths, in whole seconds.
    pub intervals: Vec<u64>,
    /// The open bar of each interval, parallel to `intervals`.
    pub open_bars: Vec<Option<Bar>>,
}

impl BarAggregator {
    /// Slots are parallel to intervals, intervals are positive and at
    /// most a billion seconds, and every open bar is consistent.
    pub open spec fn wf(&self) -> bool {
        &&& self.intervals@.len() == self.open_bars@.len()
        &&& forall|i: int|
            0 <= i < self.intervals@.len() ==> 1 <= #[trigger] self.intervals@[i]
                <= 1_000_000_000
        &&& forall|i: int|
            0 <= i < self.open_bars@.len() ==> (#[trigger] self.open_bars@[i] matches Some(b)
                ==> b.wf())
    }

    /// An aggregator with the given interval set and no open bars.
    /// An empty or oversized interval is a fatal configuration error
    /// and is excluded up front.
    pub fn new(intervals: Vec<u64>) -> (r: BarAggregator)
        requires
            forall|i: int|
                0 <= i < intervals@.len() ==> 1 <= #[trigger] intervals@[i] <= 1_000_000_000,
        ensures
            r.wf(),
            r.intervals == intervals,
            r.open_bars@.len() == intervals@.len(),
            forall|i: int| 0 <= i < intervals@.len() ==> #[trigger] r.open_bars@[i] is None,
    {
        let mut open_bars: Vec<Option<Bar>> = Vec::new();
        let mut i: usize = 0;
        while i < intervals.len()
            invariant
                0 <= i <= intervals@.len(),
                open_bars@.len() == i,
                forall|j: int| 0 <= j < i ==> #[trigger] open_bars@[j] is None,
            decreases intervals@.len() - i,
        {
            open_bars.push(None);
            i = i + 1;
        }
        BarAggregator { intervals, open_bars }
    }

    /// Absorb one tick: every slot whose open bar belongs to another
    /// bucket closes it (returned in slot order, tagged with the
    /// interval width) and a fresh bar opens; a slot in the same
    /// bucket updates in place.
    pub fn on_tick(&mut self, price: i64, volume: i64, timestamp: i64) -> (closed: Vec<(u64, Bar)>)
        requires
            old(self).wf(),
            -4_000_000_000_000_000_000 <= timestamp <= 4_000_000_000_000_000_000,
        ensures
            final(self).wf(),
            final(self).intervals == old(self).intervals,
            final(self).open_bars@.len() == old(self).open_bars@.len(),
            forall|i: int|
                0 <= i < old(self).open_bars@.len() ==> #[trigger] final(self).open_bars@[i]
                    == Some(
                    next_bar(
                        old(self).open_bars@[i],
                        price,
                        volume,
                        bucket_of(timestamp as int, old(self).intervals@[i] as int),
                    ),
                ),
            closed@ == closed_upto(
                old(self).open_bars@,
                old(self).intervals@,
                timestamp as int,
                old(self).open_bars@.len() as int,
            ),
    {
        let mut closed: Vec<(u64, Bar)> = Vec::new();
        let mut i: usize = 0;
        let n: usize = self.intervals.len();
        while i < n
            invariant
                0 <= i <= n,
                n == old(self).intervals@.len(),
                self.intervals == old(self).intervals,
                self.open_bars@.len() == old(self).open_bars@.len(),
                n == self.open_bars@.len(),
                -4_000_000_000_000_000_000 <= timestamp <= 4_000_000_000_000_000_000,
                old(self).wf(),
                forall|j: int| i <= j < n ==> self.open_bars@[j] == old(self).open_bars@[j],
                forall|j: int|
                    0 <= j < i ==> #[trigger] self.open_bars@[j] == Some(
                        next_bar(
                            old(self).open_bars@[j],
                            price,
                            volume,
                            bucket_of(timestamp as int, old(self).intervals@[j] as int),
                        ),
                    ),
                closed@ == closed_upto(
                    old(self).open_bars@,
                    old(self).intervals@,
                    timestamp as int,
                    i as int,
                ),
            decreases n - i,
        {
            let intv: u64 = self.intervals[i];
            let bucket: i64 = bucket_start(timestamp, intv);
            let cur: Option<Bar> = self.open_bars[i];
            match cur {
                None => {
                    self.open_bars.set(i, Some(fresh_bar(price, volume, bucket)));
                },
                Some(b) => {
                    if b.start == bucket {
                        let vol: i64 = match b.volume.checked_add(volume) {
                            Some(v) => v,
                            None => {
                                if b.volume >= 0 {
                                    i64::MAX
                                } else {
                                    i64::MIN
                                }
                            },
                        };
                        let nb = Bar {
                            start: b.start,
                            open: b.open,
                            high: if price > b.high {
                                price
                            } else {
                                b.high
                            },
                            low: if price < b.low {
                                price
                            } else {
                                b.low
                            },
                            close: price,
                            volume: vol,
                        };
                        self.open_bars.set(i, Some(nb));
                    } else {
                        closed.push((intv, b));
                        self.open_bars.set(i, Some(fresh_bar(price, volume, bucket)));
                    }
                },
            }
            i = i + 1;
        }
        proof {
            assert forall|j: int|
                0 <= j < self.open_bars@.len() implies (#[trigger] self.open_bars@[j] matches Some(
                b,
            ) ==> b.wf()) by {
                lemma_bucket_in_range(timestamp as int, old(self).intervals@[j] as int);
            }
        }
        closed
    }
}

/// A fresh bar seeded from one tick, as executable code.
fn fresh_bar(price: i64, volume: i64, bucket: i64) -> (r: Bar)
    ensures
        r == seed_bar(price, volume, bucket as int),
{
    Bar { start: bucket, open: price, high: price, low: price, close: price, volume }
}

/// Law: buckets never move backwards. While timestamps are
/// non-decreasing, each slot's open bar starts no earlier than the
/// one it replaced, so bars close in increasing bucket order.
pub proof fn lemma_buckets_monotone(t1: int, t2: int, intv: int)
    requires
        1 <= intv,
        t1 <= t2,
    ensures
        bucket_of(t1, intv) <= bucket_of(t2, intv),
{
    let d = intv * (SCALE as int);
    assert(d >= SCALE) by (nonlinear_arith)
        requires
            d == intv * (SCALE as int),
            1 <= intv,
    {}
    vstd::arithmetic::div_mod::lemma_div_is_ordered(t1, t2, d);
    assert((t1 / d) * intv <= (t2 / d) * intv) by (nonlinear_arith)
        requires
            t1 / d <= t2 / d,
            1 <= intv,
    {}
}

/// The bars one tick closes are at most one per slot, and each one is
/// a consistent bar taken from a slot.
pub proof fn lemma_closed_upto_props(bars: Seq<Option<Bar>>, intervals: Seq<u64>, ts: int, n: int)
    requires
        0 <= n <= bars.len(),
        bars.len() == intervals.len(),
        forall|i: int| 0 <= i < bars.len() ==> (#[trigger] bars[i] matches Some(b) ==> b.wf()),
    ensures
        closed_upto(bars, intervals, ts, n).len() <= n,
        forall|j: int|
            0 <= j < closed_upto(bars, intervals, ts, n).len() ==> (#[trigger] closed_upto(
                bars,
                intervals,
                ts,
                n,
            )[j]).1.wf(),
    decreases n,
{
    if n > 0 {
        lemma_closed_upto_props(bars, intervals, ts, n - 1);
    }
}

/// A bucket start stays within five billion seconds of zero for any
/// timestamp the aggregator accepts.
pub proof fn lemma_bucket_in_range(ts: int, intv: int)
    requires
        1 <= intv <= 1_000_000_000,
        -4_000_000_000_000_000_000 <= ts <= 4_000_000_000_000_000_000,
    ensures
        -5_000_000_000 <= bucket_of(ts, intv) <= 5_000_000_000,
{
    let d = intv * (SCALE as int);
    assert((SCALE as int) <= d <= 1_000_000_000_000_000_000) by (nonlinear_arith)
        requires
            d == intv * (SCALE as int),
            1 <= intv <= 1_000_000_000,
    {}
    let q = ts / d;
    vstd::arithmetic::div_mod::lemma_fundamental_div_mod(ts, d);
    vstd::arithmetic::div_mod::lemma_mod_division_less_than_divisor(ts, d);
    assert(d * q <= ts && ts < d * q + d);
    assert(q * intv * (SCALE as int) == d * q) by (nonlinear_arith)
        requires
            d == intv * (SCALE as int),
    {}
    assert(-5_000_000_000 <= q * intv <= 5_000_000_000) by (nonlinear_arith)
        requires
            q * intv * (SCALE as int) == d * q,
            d * q <= ts,
            ts < d * q + d,
            -4_000_000_000_000_000_000 <= ts <= 4_000_000_000_000_000_000,
            1 <= d <= 1_000_000_000_000_000_000,
            SCALE == 1_000_000_000,
    {}
}

/// The aligned bucket start of a timestamp for an interval width.
fn bucket_start(timestamp: i64, intv: u64) -> (r: i64)
    requires
        1 <= intv <= 1_000_000_000,
        -4_000_000_000_000_000_000 <= timestamp <= 4_000_000_000_000_000_000,
    ensures
        r == bucket_of(timestamp as int, intv as int),
        -5_000_000_000 <= r <= 5_000_000_000,
{
    proof {
        assert((SCALE as int) <= (intv as int) * (SCALE as int) <= 1_000_000_000_000_000_000)
            by (nonlinear_arith)
            requires
                1 <= intv <= 1_000_000_000,
        {}
    }
    let d: i128 = (intv as i128) * (SCALE as i128);
    let q: i128 = div_floor(timestamp as i128, d);
    proof {
        lemma_floor_div_in_range(timestamp as int, d as int);
        lemma_bucket_in_range(timestamp as int, intv as int);
        assert((q as int) * (intv as int) == bucket_of(timestamp as int, intv as int));
    }
    (q * (intv as i128)) as i64
}

} // verus!
