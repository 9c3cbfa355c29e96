use elza_cli::compare_versions;
use elza_cli::get_string_length;
use elza_cli::is_chinese;

#[test]
fn notice_when_minor_is_newer() {
    assert!(compare_versions("1.2.3", "1.3.0"));
}

#[test]
fn notice_when_patch_is_newer() {
    assert!(compare_versions("1.2.3", "1.2.4"));
}

#[test]
fn no_notice_when_equal() {
    assert!(!compare_versions("1.2.3", "1.2.3"));
}

#[test]
fn no_notice_when_current_is_newer_everywhere() {
    assert!(!compare_versions("2.3.4", "1.2.3"));
}

#[test]
fn no_notice_when_an_earlier_component_is_newer() {
    // the first differing component decides: 3 > 2, so the larger patch
    // number of the older version counts for nothing
    assert!(!compare_versions("1.3.0", "1.2.9"));
    assert!(!compare_versions("2.0.0", "1.9.9"));
}

#[test]
fn malformed_latest_gives_no_notice() {
    assert!(!compare_versions("1.2.3", "not-a-version"));
    assert!(!compare_versions("1.2.3", ""));
}

#[test]
fn malformed_component_counts_as_zero() {
    // "x" reads as 0, and 2 < 3 in the second component still triggers
    assert!(compare_versions("x.2.0", "0.3.0"));
    assert!(!compare_versions("1.2.3", "x.1.1"));
}

#[test]
fn extra_components_of_longer_version_are_not_compared() {
    assert!(!compare_versions("1.2", "1.2.9"));
}

#[test]
fn overflowing_component_counts_as_zero() {
    // 99999999999 does not fit an i32, so it reads as 0
    assert!(!compare_versions("1.0.0", "99999999999.0.0"));
}

#[test]
fn ascii_width_is_one_per_character() {
    assert_eq!(get_string_length("hello"), 5);
    assert_eq!(get_string_length(""), 0);
}

#[test]
fn cjk_width_is_two_per_character() {
    assert_eq!(get_string_length("\u{4e2d}\u{6587}"), 4);
    assert_eq!(get_string_length("a\u{4e2d}b"), 4);
}

#[test]
fn cjk_range_bounds() {
    assert!(is_chinese('\u{4e00}'));
    assert!(is_chinese('\u{9fa5}'));
    assert!(!is_chinese('\u{4dff}'));
    assert!(!is_chinese('\u{9fa6}'));
    assert!(!is_chinese('a'));
}
