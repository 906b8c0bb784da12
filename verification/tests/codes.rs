use flatapp::codes::extract_code;

#[test]
fn plain_reference_resolves() {
    assert_eq!(extract_code("FLATAPP42"), Some(42));
}

#[test]
fn embedded_reference_with_leading_zeroes_resolves() {
    assert_eq!(extract_code("xxxFLATAPP007yyy"), Some(7));
}

#[test]
fn content_without_pattern_fails() {
    assert_eq!(extract_code("TSF3"), None);
    assert_eq!(extract_code(""), None);
    assert_eq!(extract_code("FLATAPP"), None);
    assert_eq!(extract_code("FLATAPPx9"), None);
    assert_eq!(extract_code("flatapp42"), None);
}

#[test]
fn first_complete_match_wins() {
    // a marker without digits is skipped; the next complete match counts
    assert_eq!(extract_code("FLATAPPxFLATAPP5"), Some(5));
    // the digit run is read greedily after the first complete match
    assert_eq!(extract_code("FLATAPP12FLATAPP34"), Some(12));
}

#[test]
fn digit_run_is_greedy() {
    assert_eq!(extract_code("FLATAPP123abc"), Some(123));
    assert_eq!(extract_code("pay FLATAPP2147483647 now"), Some(2147483647));
}

#[test]
fn oversized_number_fails_extraction() {
    assert_eq!(extract_code("FLATAPP2147483648"), None);
    assert_eq!(extract_code("FLATAPP99999999999999999999"), None);
}
