use dimensions::update::{is_newer_than_current, should_refresh_cache, update_instructions};

#[test]
fn newer_tag_is_detected_with_leading_v_and_spaces() {
    assert_eq!(is_newer_than_current(" v1.2.3 ", "1.2.2"), Some(true));
    assert_eq!(is_newer_than_current("1.2.3", "1.2.3"), Some(false));
    assert_eq!(is_newer_than_current("v1.0.0", "2.0.0"), Some(false));
}

#[test]
fn unparsable_versions_give_no_answer() {
    assert_eq!(is_newer_than_current("not-a-version", "1.0.0"), None);
    assert_eq!(is_newer_than_current("v1.2.3", "garbage"), None);
}

#[test]
fn cache_refresh_follows_the_daily_interval() {
    assert!(should_refresh_cache(0, 1_000));
    assert!(should_refresh_cache(1_000, 1_000 + 86_400));
    assert!(!should_refresh_cache(1_000, 1_000 + 86_399));
    assert!(should_refresh_cache(-5, 1_000));
}

#[test]
fn update_instructions_name_the_tag() {
    let text = update_instructions("v9.9.9");
    assert!(text.starts_with("Update to v9.9.9:\n"));
    assert!(text.contains("dimensions --version"));
    assert!(text.contains("releases/tag/v9.9.9"));
    assert!(text.contains("--version v9.9.9"));
}
