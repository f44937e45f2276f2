use statsctl::utils::is_missing;

#[test]
fn test_missing_values() {
    assert!(is_missing(""));
    assert!(is_missing("NA"));
    assert!(is_missing("na"));
    assert!(is_missing("N/A"));
    assert!(is_missing("n/a"));
    assert!(is_missing("null"));
    assert!(is_missing("NULL"));
    assert!(is_missing("."));
    assert!(is_missing("NaN"));
    assert!(is_missing("nan"));
    assert!(is_missing("-"));
    assert!(is_missing("None"));
    assert!(is_missing("none"));
}

#[test]
fn test_missing_with_whitespace() {
    assert!(is_missing("  "));
    assert!(is_missing("  NA  "));
    assert!(is_missing("\tNaN\t"));
}

#[test]
fn test_not_missing() {
    assert!(!is_missing("0"));
    assert!(!is_missing("hello"));
    assert!(!is_missing("123"));
    assert!(!is_missing("3.14"));
    assert!(!is_missing("true"));
    assert!(!is_missing("N/A value"));
}

#[test]
fn missing_tokens_are_case_sensitive_outside_the_vocabulary() {
    assert!(!is_missing("Na"));
    assert!(!is_missing("NONE"));
    assert!(!is_missing("Null"));
    assert!(is_missing(" none\n"));
}

#[test]
fn missing_tokens_inside_unicode_white_space() {
    assert!(is_missing("\u{3000}NA\u{a0}"));
    assert!(is_missing("\u{2028}"));
    assert!(!is_missing("\u{200b}NA"));
}
