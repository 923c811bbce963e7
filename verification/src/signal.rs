//! Core data carried through the pipeline: ticks, signals and their
//! indicator snapshots, and the stream summary exposed for monitoring.
//!
//! All quantities are fixed-point integers with [`crate::num::SCALE`]
//! steps per unit; timestamps count fixed-point seconds.

use vstd::prelude::*;

use crate::patterns::PatternMeta;

verus! {

/// One timestamped price/volume observation for an instrument.
pub struct Tick {
    /// Instrument symbol.
    pub symbol: String,
    /// Observed price.
    pub price: i64,
    /// Observed volume.
    pub volume: i64,
    /// Observation time, fixed-point seconds.
    pub timestamp: i64,
}

/// Indicator snapshot attached to an emitted signal.
pub struct SignalMeta {
    /// Fast exponential moving average at emission.
    pub ema_fast: Option<i64>,
    /// Slow exponential moving average at emission.
    pub ema_slow: Option<i64>,
    /// Volume-weighted average price at emission.
    pub vwap: Option<i64>,
    /// Volume of the triggering observation.
    pub volume: i64,
    /// Sample standard deviation of the price at emission.
    pub volatility: i64,
    /// Wilder relative-strength index, when a price change has been seen.
    pub rsi: Option<i64>,
    /// Wilder average true range, when a price change has been seen.
    pub atr: Option<i64>,
}

/// A scored trading signal; immutable once emitted.
pub struct Signal {
    /// Identifier: the symbol and the whole-second timestamp.
    pub id: String,
    /// Instrument symbol.
    pub symbol: String,
    /// Composite score in the fixed-point image of `[-1, 1]`.
    pub score: i64,
    /// Pattern label.
    pub pattern: String,
    /// Emission time, fixed-point seconds.
    pub timestamp: i64,
    /// Indicator snapshot, when available.
    pub meta: Option<SignalMeta>,
    /// Resolved pattern metadata, when enrichment succeeded.
    pub pattern_meta: Option<PatternMeta>,
}

/// Lengths and names of the outgoing streams, for monitoring.
pub struct StreamInfo {
    /// Name of the signals stream.
    pub signals_stream: String,
    /// Name of the ticks stream.
    pub ticks_stream: String,
    /// Entries in the signals stream.
    pub signals_length: usize,
    /// Entries in the ticks stream.
    pub ticks_length: usize,
}

} // verus!
