use auralis::completeness::{needs_decoded_length, verify_decoded_duration, Truncation};

#[test]
fn unknown_expected_duration_skips_verification() {
    assert!(!needs_decoded_length(None));
    assert!(!needs_decoded_length(Some(0)));
    assert!(needs_decoded_length(Some(200)));
    assert_eq!(verify_decoded_duration(None, Some(3)), Ok(None));
    assert_eq!(verify_decoded_duration(Some(0), Some(3)), Ok(None));
}

#[test]
fn undecodable_container_is_not_treated_as_truncated() {
    assert_eq!(verify_decoded_duration(Some(266), None), Ok(None));
}

#[test]
fn nothing_decoded_is_truncated() {
    assert_eq!(
        verify_decoded_duration(Some(266), Some(0)),
        Err(Truncation::NothingDecoded { expected_secs: 266 })
    );
}

#[test]
fn a_short_decode_reports_the_missing_share() {
    assert_eq!(
        verify_decoded_duration(Some(266), Some(92)),
        Err(Truncation::Short {
            decoded: 92,
            expected: 266,
            missing_pct: 66
        })
    );
}

#[test]
fn the_threshold_allows_ten_percent_and_two_seconds() {
    // 90% of 100 s is 90 s; two seconds of slack lets 88 s through.
    assert_eq!(verify_decoded_duration(Some(100), Some(88)), Ok(Some(88)));
    assert!(verify_decoded_duration(Some(100), Some(87)).is_err());
    // Short tracks only fail when nothing decodes.
    assert_eq!(verify_decoded_duration(Some(19), Some(1)), Ok(Some(1)));
    assert_eq!(verify_decoded_duration(Some(266), Some(300)), Ok(Some(300)));
}

#[test]
fn missing_file_is_not_verifiable() {
    // A file that cannot be opened yields no decoded length, and without
    // one there is nothing to refuse.
    assert!(matches!(verify_decoded_duration(Some(240), None), Ok(None)));
}
