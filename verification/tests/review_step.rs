use arka::scheduler::{sm2_review_step, NextInterval, Rating};

#[test]
fn successful_reviews_step_through_one_and_six_days() {
    assert_eq!(sm2_review_step(0, Rating::Good), (1, NextInterval::Days(1)));
    assert_eq!(sm2_review_step(1, Rating::Good), (2, NextInterval::Days(6)));
    assert_eq!(sm2_review_step(2, Rating::Good), (3, NextInterval::GrowByEase));
    assert_eq!(sm2_review_step(3, Rating::Hard), (4, NextInterval::GrowByEase));
    assert_eq!(sm2_review_step(0, Rating::Easy), (1, NextInterval::Days(1)));
}

#[test]
fn a_failed_review_resets_the_count_and_interval() {
    assert_eq!(sm2_review_step(7, Rating::Again), (0, NextInterval::Days(1)));
    assert_eq!(sm2_review_step(i32::MAX, Rating::Again), (0, NextInterval::Days(1)));
}
