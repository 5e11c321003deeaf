//! Fixed-point confidence scores.
//!
//! The inference backend reports a confidence per prediction. The
//! pipeline never computes with that value beyond comparing it to a
//! fixed threshold and averaging it, so it is carried here in
//! millionths, together with a flag recording a non-numeric reading.

use vstd::prelude::*;

verus! {

/// Fixed-point representation of full confidence (1.0).
pub const SCORE_ONE: u64 = 1000000;

/// Fixed-point representation of the punctuation-heuristic confidence
/// threshold (0.5).
pub const SCORE_HALF: u64 = 500000;

/// Confidence score attached to a prediction.
///
/// `micros` holds the confidence in millionths: `1_000_000` stands for
/// full confidence. `is_nan` records that the backend produced a value
/// that is not a number; such a score carries `micros == 0`.
#[derive(Clone, Copy, Debug, PartialEq, Eq, Structural)]
pub struct Score {
    pub is_nan: bool,
    pub micros: u64,
}

impl Score {
    /// A score is valid when it lies in [0, 1] and a non-numeric score
    /// carries no numeric payload.
    pub open spec fn valid(self) -> bool {
        self.micros <= SCORE_ONE && (self.is_nan ==> self.micros == 0)
    }

    /// True when the punctuation heuristic counts this score as
    /// unreliable: not a number, or strictly below the 0.5 threshold.
    pub open spec fn spec_low_confidence(self) -> bool {
        self.is_nan || self.micros < SCORE_HALF
    }

    pub fn low_confidence(&self) -> (r: bool)
        ensures
            r == self.spec_low_confidence(),
    {
        self.is_nan || self.micros < SCORE_HALF
    }

    /// The score forced onto an overridden punctuation prediction.
    pub fn certain() -> (r: Score)
        ensures
            r == (Score { is_nan: false, micros: SCORE_ONE }),
            r.valid(),
    {
        Score { is_nan: false, micros: SCORE_ONE }
    }
}

} // verus!
