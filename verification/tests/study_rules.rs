use arka::scheduler::Rating;
use arka::study_plan::validate_preferences;
use arka::user_profile::normalize_display_name;

#[test]
fn ratings_parse_and_grade() {
    assert_eq!(Rating::from_str("  GOOD ").unwrap(), Rating::Good);
    assert_eq!(Rating::from_str("again").unwrap().quality(), 2);
    assert_eq!(Rating::Easy.quality(), 5);
    assert_eq!(Rating::from_str("great").unwrap_err(), "Unsupported rating: great");
}

#[test]
fn display_names_are_trimmed_and_checked() {
    assert_eq!(normalize_display_name("  Dông-An O’Yu  ").unwrap(), "Dông-An O’Yu");
    assert_eq!(normalize_display_name("   ").unwrap(), "");
    assert!(normalize_display_name(&"名".repeat(81)).unwrap_err().contains("80 characters or fewer"));
    assert_eq!(normalize_display_name(&"名".repeat(80)).unwrap().chars().count(), 80);
    assert_eq!(
        normalize_display_name("a\u{7}b").unwrap_err(),
        "Your name cannot contain control characters."
    );
}

#[test]
fn study_preferences_bounds() {
    assert!(validate_preferences(1, 0).is_ok());
    assert!(validate_preferences(10000, 10000).is_ok());
    assert!(validate_preferences(0, 0).is_err());
    assert!(validate_preferences(10001, 1).is_err());
    assert!(validate_preferences(5, 6).is_err());
    assert!(validate_preferences(5, -1).is_err());
}
