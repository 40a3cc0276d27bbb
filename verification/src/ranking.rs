//! The rank formula, combining a distance and a composite quality score
//! into one ranking scalar.
//!
//! With `dist` in kilometers and both scores as real fractions the formula
//! reads
//!
//! ```text
//! distance_score = 1 − dist/80
//! weight         = 0.15 if dist ≤ 80 else 0.01
//! rank           = weight·distance_score + (1 − weight)·score
//! ```
//!
//! Here distances are whole meters and the composite score is in
//! ten-millionths, and the rank is kept in eight-billionths of a unit, the
//! coarsest scale on which every coefficient above is an exact integer:
//! `0.15 = 1_200_000_000`, `0.15/80_000 m = 15_000`, `0.85` of a
//! ten-millionth `= 680`, `0.01 = 80_000_000`, `0.01/80_000 m = 1_000`,
//! and `0.99` of a ten-millionth `= 792`.
//!
//! Beyond the 80 km threshold the distance score turns negative without a
//! lower bound; that attenuation is part of the formula and is preserved
//! here, bounded only by the domain guard on distances.

use vstd::prelude::*;

verus! {

/// The distance threshold (80 km, in meters) where the distance weight
/// drops from `0.15` to `0.01`.
pub const DEFAULT_DISTANCE_M: u64 = 80_000;

/// Largest distance the engine accepts as in-domain, in meters.  No two
/// points on Earth are farther apart than about 20_015 km along a great
/// circle, so a larger value signals a corrupt distance computation and
/// must be rejected, not ranked.
pub const MAX_DISTANCE_M: u64 = 30_000_000;

/// The rank in eight-billionths, for a distance in meters and a composite
/// score in ten-millionths.
pub open spec fn spec_calc_rank(dist: int, score: int) -> int {
    if dist <= DEFAULT_DISTANCE_M {
        1_200_000_000 - 15_000 * dist + 680 * score
    } else {
        80_000_000 - 1_000 * dist + 792 * score
    }
}

pub fn calc_rank(dist: u64, score: i64) -> (r: i64)
    requires
        dist <= MAX_DISTANCE_M,
        0 <= score <= crate::scoring::MAX_SCORE,
    ensures
        r == spec_calc_rank(dist as int, score as int),
{
    let d = dist as i64;
    if dist <= DEFAULT_DISTANCE_M {
        1_200_000_000 - 15_000 * d + 680 * score
    } else {
        80_000_000 - 1_000 * d + 792 * score
    }
}

/// At distance zero the rank is `0.15·1 + 0.85·score`: the full distance
/// weight plus the score at weight `0.85`.
pub proof fn lemma_rank_at_zero(score: int)
    ensures
        spec_calc_rank(0, score) == 1_200_000_000 + 680 * score,
{
}

/// At the threshold distance the distance score is exactly zero, so the
/// rank is exactly `0.85·score`.
pub proof fn lemma_rank_at_threshold(score: int)
    ensures
        spec_calc_rank(DEFAULT_DISTANCE_M as int, score) == 680 * score,
{
}

} // verus!
