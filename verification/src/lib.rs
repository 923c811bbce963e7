//! Streaming pattern detection for market data, on fixed-point arithmetic.
//!
//! Prices, volumes, timestamps and scores are carried as integers holding
//! nine fractional decimal digits (see [`num::SCALE`]), so that every
//! update rule, detection threshold and serialized field has an exact,
//! machine-checked meaning.

use vstd::prelude::*;

pub mod bars;
pub mod detect;
pub mod engine;
pub mod incremental;
pub mod num;
pub mod onnx_client;
pub mod patterns;
pub mod replay;
pub mod signal;
pub mod telemetry;
pub mod text;
pub mod wire;

verus! {

} // verus!
