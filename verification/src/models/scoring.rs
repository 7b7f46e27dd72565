//! Score results.

use vstd::prelude::*;

verus! {

/// A binary64 floating-point value held by its bit pattern. The library
/// carries such values from one place to another and never computes with
/// them; the caller converts with `f64::from_bits` / `f64::to_bits`.
#[derive(Clone, Copy, Debug)]
pub struct FloatBits {
    pub bits: u64,
}

/// The outcome of scoring one play: total fu, total fan, the cumulative
/// multiplier (both fractional, see `FloatBits`), the final score and a
/// human-readable breakdown.
#[derive(Clone, Debug)]
pub struct ScoreResult {
    pub fu: u64,
    pub fan: FloatBits,
    pub mult: FloatBits,
    pub final_score: u64,
    pub breakdown: Vec<String>,
}

} // verus!
