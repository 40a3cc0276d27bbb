use craftfinder::ranking::calc_rank;

// Ranks are in eight-billionths: 1.0 is 8_000_000_000.  Scores are in
// ten-millionths: 0.8 is 8_000_000.

// rank(0, s) == 0.15·1 + 0.85·s; at s = 0.8 that is 0.83
#[test]
fn rank_at_distance_zero() {
    assert_eq!(calc_rank(0, 8_000_000), 6_640_000_000); // 0.83
}

// rank(80 km, s) == 0.85·s: the distance score is exactly zero at the
// threshold
#[test]
fn rank_at_the_threshold_distance() {
    assert_eq!(calc_rank(80_000, 5_000_000), 3_400_000_000); // 0.85·0.5
    assert_eq!(calc_rank(80_000, 8_000_000), 5_440_000_000); // 0.85·0.8
}

// rank(160 km, 0.5): distance score 1 − 2 = −1 at weight 0.01, so
// 0.01·(−1) + 0.99·0.5 = 0.485
#[test]
fn rank_beyond_the_threshold_attenuates_distance() {
    assert_eq!(calc_rank(160_000, 5_000_000), 3_880_000_000); // 0.485
}

#[test]
fn rank_within_threshold_drops_with_distance() {
    // 0.15·(1 − 40/80) + 0.85·0.5 = 0.075 + 0.425 = 0.5
    assert_eq!(calc_rank(40_000, 5_000_000), 4_000_000_000);
}

#[test]
fn rank_can_go_negative_for_very_large_distances() {
    // 0.01·(1 − 30000/80) + 0.99·0 ≈ −3.74
    assert!(calc_rank(30_000_000, 0) < 0);
}
