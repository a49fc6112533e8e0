use arka::study_plan::{check_plan_day, new_item_limit, plan_counts, queue_limit, queued_was_new};

#[test]
fn the_queue_holds_what_is_left_of_the_target() {
    assert_eq!(queue_limit(20, 5, false), Ok(15));
    assert_eq!(queue_limit(20, 25, false), Ok(0));
    assert_eq!(
        queue_limit(20, 5, true),
        Err(String::from("Complete today's plan before starting extra study."))
    );
    assert_eq!(queue_limit(20, 20, true), Ok(20));
}

#[test]
fn due_reviews_come_before_new_items() {
    // Ten slots, seven due reviews queued, five new items still allowed today.
    assert_eq!(new_item_limit(10, 7, 8, 3), 3);
    // Plenty of room, but the new-item maximum is already used up.
    assert_eq!(new_item_limit(10, 2, 4, 6), 0);
    assert_eq!(new_item_limit(10, 0, 4, 1), 3);
}

#[test]
fn plan_counts_and_study_more() {
    assert_eq!(plan_counts(20, 5, false, 15, true), (20, false));
    assert_eq!(plan_counts(20, 20, false, 0, true), (20, true));
    assert_eq!(plan_counts(20, 20, true, 7, false), (20, false));
}

#[test]
fn submissions_must_match_today_and_the_queue() {
    let queue = vec![(4, false), (9, true)];
    assert_eq!(queued_was_new(&queue, 9), Ok(true));
    assert_eq!(queued_was_new(&queue, 4), Ok(false));
    assert!(queued_was_new(&queue, 5).is_err());
    assert!(check_plan_day("2026-01-02", "2026-01-02").is_ok());
    assert_eq!(
        check_plan_day("2026-01-01", "2026-01-02"),
        Err(String::from("A new study day has started. Return to Recall for today's plan."))
    );
}
