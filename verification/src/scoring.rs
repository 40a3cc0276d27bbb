//! The composite quality score of a profile.
//!
//! A profile carries two raw sub-scores, for its picture and for its
//! description, each a fraction in millionths (`0 ..= 1_000_000` stands for
//! `0.0 ..= 1.0`).  The composite score weighs the picture at `0.4` and the
//! description at `0.6`; it is kept in ten-millionths so that both weights
//! are exact: `score = 4·pic + 6·desc`.

use vstd::prelude::*;

verus! {

/// Largest well-formed sub-score, `1.0` in millionths.
pub const MAX_SUB_SCORE: i64 = 1_000_000;

/// Largest well-formed composite score, `1.0` in ten-millionths.
pub const MAX_SCORE: i64 = 10_000_000;

/// The composite score in ten-millionths: `0.4·pic + 0.6·desc`, both
/// sub-scores in millionths.
pub open spec fn spec_calc_score(pic_score: int, desc_score: int) -> int {
    4 * pic_score + 6 * desc_score
}

/// Merging a partial score update: each sub-score that the update carries
/// replaces the stored one, and the composite is recomputed from the two
/// values that result.  An update that carries neither sub-score yields
/// `None`, the explicit no-change signal.
pub open spec fn spec_calc_score_from_options(
    pic_score: Option<i64>,
    desc_score: Option<i64>,
    pic_score_old: i64,
    desc_score_old: i64,
) -> Option<int> {
    match (pic_score, desc_score) {
        (None, None) => None,
        (None, Some(d)) => Some(spec_calc_score(pic_score_old as int, d as int)),
        (Some(p), None) => Some(spec_calc_score(p as int, desc_score_old as int)),
        (Some(p), Some(d)) => Some(spec_calc_score(p as int, d as int)),
    }
}

/// A sub-score lies between `0.0` and `1.0`.
pub open spec fn sub_score_ok(s: i64) -> bool {
    0 <= s <= MAX_SUB_SCORE
}

/// An optional sub-score, where present, lies between `0.0` and `1.0`.
pub open spec fn sub_score_opt_ok(s: Option<i64>) -> bool {
    s matches Some(v) ==> sub_score_ok(v)
}

pub fn calc_score(pic_score: i64, desc_score: i64) -> (r: i64)
    requires
        sub_score_ok(pic_score),
        sub_score_ok(desc_score),
    ensures
        r == spec_calc_score(pic_score as int, desc_score as int),
        0 <= r <= MAX_SCORE,
{
    4 * pic_score + 6 * desc_score
}

pub fn calc_score_from_options(
    pic_score: Option<i64>,
    desc_score: Option<i64>,
    pic_score_old: i64,
    desc_score_old: i64,
) -> (r: Option<i64>)
    requires
        sub_score_opt_ok(pic_score),
        sub_score_opt_ok(desc_score),
        sub_score_ok(pic_score_old),
        sub_score_ok(desc_score_old),
    ensures
        r is None <==> pic_score is None && desc_score is None,
        r matches Some(s) ==> Some(s as int) == spec_calc_score_from_options(
            pic_score,
            desc_score,
            pic_score_old,
            desc_score_old,
        ) && 0 <= s <= MAX_SCORE,
{
    match (pic_score, desc_score) {
        (None, None) => None,
        (None, Some(d)) => Some(calc_score(pic_score_old, d)),
        (Some(p), None) => Some(calc_score(p, desc_score_old)),
        (Some(p), Some(d)) => Some(calc_score(p, d)),
    }
}

} // verus!
