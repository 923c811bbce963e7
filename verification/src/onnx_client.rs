//! The abstract scorer behind pattern inference.
//!
//! The production design keeps the model backend behind a scoring
//! capability: a function from a feature vector to a score in the
//! fixed-point image of `[-1, 1]`. The backend here is the stub
//! scorer, the mean of the features clamped to that range; a real
//! model could replace it without touching the callers' contracts.

use vstd::prelude::*;

use crate::num::{SCALE, add_sat, clamp_spec, sat_i128};

verus! {

/// Failure of the scoring backend. The stub backend never fails; the
/// variant exists so that callers handle a fallible model.
#[derive(Debug)]
pub struct InferError {
    /// Human-readable reason.
    pub reason: String,
}

/// The saturating sum of a sequence of feature values.
pub open spec fn sum_sat(s: Seq<i64>) -> int
    decreases s.len(),
{
    if s.len() == 0 {
        0
    } else {
        sat_i128(sum_sat(s.drop_last()) + s.last())
    }
}

/// The stub score of a feature vector: the floor mean of the features,
/// clamped to the fixed-point image of `[-1, 1]`; zero when empty.
pub open spec fn stub_score(s: Seq<i64>) -> int {
    clamp_spec(
        crate::incremental::signed_ratio(sum_sat(s), s.len() as int),
        -(SCALE as int),
        SCALE as int,
    )
}

/// The always-available stub scorer.
pub fn default_model_stub(features: &Vec<i64>) -> (r: i64)
    ensures
        r == stub_score(features@),
        -SCALE <= r <= SCALE,
{
    let mut sum: i128 = 0;
    let mut i: usize = 0;
    while i < features.len()
        invariant
            0 <= i <= features@.len(),
            sum == sum_sat(features@.subrange(0, i as int)),
        decreases features@.len() - i,
    {
        proof {
            assert(features@.subrange(0, i + 1).drop_last() =~= features@.subrange(0, i as int));
            assert(features@.subrange(0, i + 1).last() == features@[i as int]);
        }
        sum = add_sat(sum, features[i] as i128);
        i = i + 1;
    }
    proof {
        assert(features@.subrange(0, features@.len() as int) =~= features@);
    }
    let n: i128 = features.len() as i128;
    let ratio: i128 = if n == 0 {
        0
    } else {
        crate::num::div_floor(sum, n)
    };
    crate::num::clamp_i128(ratio, -SCALE, SCALE)
}

/// Client for the model backend; the stub backend holds no state.
pub struct OnnxClient {}

impl OnnxClient {
    /// Open the backend for a model path. The stub backend accepts any
    /// path and cannot fail.
    pub fn new(model_path: &str) -> (r: Result<OnnxClient, InferError>)
        ensures
            r is Ok,
    {
        let _ = model_path;
        Ok(OnnxClient {  })
    }

    /// Score a feature vector: the stub computes the clamped floor
    /// mean of the features and never fails.
    pub fn infer(&self, features: &Vec<i64>) -> (r: Result<i64, InferError>)
        ensures
            r matches Ok(score) && score == stub_score(features@),
    {
        Ok(default_model_stub(features))
    }
}

} // verus!
