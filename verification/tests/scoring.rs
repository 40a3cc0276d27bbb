use craftfinder::scoring::{calc_score, calc_score_from_options};

// compositeScore(1.0, 0.0) == 0.4 and compositeScore(0.0, 1.0) == 0.6,
// in ten-millionths
#[test]
fn composite_score_weighs_picture_at_two_fifths() {
    assert_eq!(calc_score(1_000_000, 0), 4_000_000);
}

#[test]
fn composite_score_weighs_description_at_three_fifths() {
    assert_eq!(calc_score(0, 1_000_000), 6_000_000);
}

#[test]
fn composite_score_of_equal_halves() {
    // 0.4·0.5 + 0.6·0.5 = 0.5
    assert_eq!(calc_score(500_000, 500_000), 5_000_000);
}

// mergeUpdate(None, None, ..) is the explicit no-update signal
#[test]
fn merge_with_nothing_to_change_signals_no_update() {
    assert_eq!(calc_score_from_options(None, None, 300_000, 600_000), None);
}

#[test]
fn merge_with_new_picture_keeps_old_description() {
    // 0.4·0.9 + 0.6·0.6 = 0.72
    assert_eq!(
        calc_score_from_options(Some(900_000), None, 300_000, 600_000),
        Some(7_200_000)
    );
}

#[test]
fn merge_with_new_description_keeps_old_picture() {
    // 0.4·0.3 + 0.6·0.8 = 0.6
    assert_eq!(
        calc_score_from_options(None, Some(800_000), 300_000, 600_000),
        Some(6_000_000)
    );
}

#[test]
fn merge_with_both_ignores_stored_scores() {
    // 0.4·1.0 + 0.6·0.0 = 0.4
    assert_eq!(
        calc_score_from_options(Some(1_000_000), Some(0), 300_000, 600_000),
        Some(4_000_000)
    );
}
