use auralis::range::{
    chunk_take, classify_response, describe_total, parse_content_range, parse_unsatisfied_length,
    plan_append, request_end, split_content_range, url_param_str, with_range_param, Failure,
    Reject, RoundOutcome, ShapeProblem, TOPUP_CHUNK_BYTES,
};

#[test]
fn with_range_param_replaces_an_existing_window() {
    // A resolved googlevideo URL may already carry a capping `range=`; the
    // top-up must replace it rather than add a second one.
    let url = "https://rr3---sn-gwpa-civee.googlevideo.com/videoplayback?expire=1&itag=140&range=0-1048575&clen=4194304";
    let ranged = with_range_param(url, 1_048_576, 3_145_727);
    assert!(ranged.contains("range=1048576-3145727"), "got {ranged}");
    assert_eq!(ranged.matches("range=").count(), 1, "got {ranged}");
    assert!(
        ranged.contains("itag=140"),
        "other params must survive: {ranged}"
    );
    assert!(ranged.contains("clen=4194304"), "got {ranged}");
}

#[test]
fn with_range_param_drops_range2_too() {
    let url = "https://x.googlevideo.com/videoplayback?id=1&range2=0-99";
    let ranged = with_range_param(url, 100, 199);
    assert!(!ranged.contains("range2"), "got {ranged}");
    assert!(ranged.contains("range=100-199"), "got {ranged}");
}

#[test]
fn with_range_param_adds_a_query_when_there_is_none() {
    let ranged = with_range_param("https://example.test/audio.m4a", 0, 1023);
    assert!(ranged.contains("?range=0-1023"), "got {ranged}");
}

#[test]
fn url_param_str_reads_itag() {
    let url = "https://x.googlevideo.com/videoplayback?expire=9&itag=140&clen=1234";
    assert_eq!(url_param_str(url, "itag").as_deref(), Some("140"));
    assert_eq!(url_param_str(url, "mime"), None);
    assert_eq!(
        url_param_str("https://x.test/a?itag=18", "itag").as_deref(),
        Some("18")
    );
}

#[test]
fn content_range_parses_a_known_total() {
    let parsed = parse_content_range("bytes 10-19/100").expect("a well-formed Content-Range");
    assert_eq!(parsed.start, 10, "start");
    assert_eq!(parsed.end, 19, "end");
    assert_eq!(parsed.total, Some(100), "total");
}

#[test]
fn content_range_parses_the_unknown_total_form() {
    let parsed = parse_content_range("bytes 10-19/*").expect("the asterisk total is legal");
    assert_eq!(parsed.total, None, "total");
    assert_eq!(
        parse_content_range("bytes=10-19/100").map(|c| c.total),
        Some(Some(100)),
        "the `bytes=` spelling some origins send must parse too"
    );
}

#[test]
fn content_range_rejects_junk_and_reversed_spans() {
    for bad in [
        "items 10-19/100",
        "bytes 19-10/100",
        "bytes 10-19",
        "bytes ten-nineteen/100",
        "bytes 10-19/one-hundred",
    ] {
        assert!(
            parse_content_range(bad).is_none(),
            "must be rejected: {bad}"
        );
    }
}

#[test]
fn unsatisfied_content_range_reports_the_object_length() {
    assert_eq!(parse_unsatisfied_length("bytes */4096"), Some(4096));
    assert_eq!(parse_unsatisfied_length("bytes */0"), Some(0));
    assert_eq!(parse_unsatisfied_length("bytes 10-19/4096"), None);
    assert_eq!(parse_unsatisfied_length("nonsense"), None);
}

#[test]
fn a_200_that_ignored_the_range_is_rejected() {
    match plan_append(200, None, Some(5000), 10, TOPUP_CHUNK_BYTES) {
        Err(Reject::Shape(ShapeProblem::RangeIgnored { start })) => assert_eq!(start, 10),
        other => panic!("expected a rejection, got {other:?}"),
    }
}

#[test]
fn a_206_starting_elsewhere_is_rejected() {
    match plan_append(206, Some("bytes 0-99/200"), Some(100), 10, TOPUP_CHUNK_BYTES) {
        Err(Reject::Shape(ShapeProblem::WrongWindow { served, start })) => {
            assert_eq!(served.start, 0);
            assert_eq!(start, 10);
        }
        other => panic!("expected a rejection, got {other:?}"),
    }
}

#[test]
fn a_206_without_a_usable_content_range_is_rejected() {
    assert!(matches!(
        plan_append(206, None, Some(100), 10, TOPUP_CHUNK_BYTES),
        Err(Reject::Shape(ShapeProblem::NoContentRange { start: 10 }))
    ));
    match plan_append(206, Some("garbage"), Some(100), 10, TOPUP_CHUNK_BYTES) {
        Err(Reject::Shape(ShapeProblem::UnusableContentRange { raw, start })) => {
            assert_eq!(raw, "garbage");
            assert_eq!(start, 10);
        }
        other => panic!("expected a rejection, got {other:?}"),
    }
}

#[test]
fn a_well_formed_206_is_appended_up_to_the_object_end() {
    assert_eq!(
        plan_append(206, Some("bytes 10-99/100"), Some(90), 10, TOPUP_CHUNK_BYTES).unwrap(),
        90
    );
    assert_eq!(
        plan_append(206, Some("bytes 10-99/*"), Some(90), 10, 50).unwrap(),
        50
    );
}

#[test]
fn an_object_that_already_ends_stops_the_top_up() {
    match plan_append(206, Some("bytes 10-19/10"), None, 10, TOPUP_CHUNK_BYTES) {
        Err(Reject::ObjectEnds { total, start }) => {
            assert_eq!(total, 10);
            assert_eq!(start, 10);
        }
        other => panic!("expected the object to end, got {other:?}"),
    }
    assert!(matches!(
        classify_response(206, Some("bytes 10-19/10"), None, 10, 100),
        RoundOutcome::Stop(Failure::Rejected(Reject::ObjectEnds { total: 10, start: 10 }))
    ));
}

#[test]
fn a_416_is_a_hard_wall_with_the_object_length() {
    assert!(matches!(
        classify_response(416, Some("bytes */4096"), None, 4096, 100),
        RoundOutcome::Retry(Failure::HardWall {
            code: 416,
            object_len: Some(4096)
        })
    ));
    assert!(matches!(
        classify_response(416, None, None, 4096, 100),
        RoundOutcome::Retry(Failure::HardWall {
            code: 416,
            object_len: None
        })
    ));
    assert!(matches!(
        classify_response(503, None, Some(12), 0, 100),
        RoundOutcome::Retry(Failure::Status {
            code: 503,
            advertised: 12
        })
    ));
}

#[test]
fn a_200_to_an_empty_file_is_the_requested_slice() {
    assert!(matches!(
        classify_response(200, None, Some(300), 0, 100),
        RoundOutcome::Append(100)
    ));
    assert!(matches!(
        plan_append(200, None, Some(30), 0, 100),
        Ok(30)
    ));
    assert!(matches!(
        plan_append(206, Some("bytes 0-9/10"), None, 0, 0),
        Err(Reject::Shape(ShapeProblem::ZeroAllowance { start: 0 }))
    ));
}

#[test]
fn request_windows_and_totals_are_spelled_out() {
    assert_eq!(request_end(10, 100), 109);
    assert_eq!(request_end(0, 0), 0);
    assert_eq!(request_end(u64::MAX - 1, 100), u64::MAX - 1);
    assert_eq!(describe_total(Some(4096)), "4096");
    assert_eq!(describe_total(None), "*");
    let (unit, rest) = split_content_range(" Bytes=0-9/10 ").unwrap();
    assert_eq!(unit, "Bytes");
    assert_eq!(rest, "0-9/10");
}

#[test]
fn chunks_are_trimmed_to_the_clamp() {
    assert_eq!(chunk_take(100, 0, 64), 64);
    assert_eq!(chunk_take(100, 90, 64), 10);
    assert_eq!(chunk_take(100, 100, 64), 0);
}

#[test]
fn a_leading_range_parameter_is_replaced_too() {
    let r = with_range_param("https://h.test/v?range=0-99&itag=140", 100, 199);
    assert_eq!(r.matches("range=").count(), 1, "got {r}");
    assert!(r.contains("range=100-199"), "got {r}");
    assert!(!r.contains("range=0-99"), "got {r}");
    assert!(r.contains("itag=140"), "got {r}");
    assert_eq!(r, "https://h.test/v?itag=140&range=100-199");
    assert_eq!(
        with_range_param("https://h.test/v?RANGE=1-2", 5, 6),
        "https://h.test/v?range=5-6"
    );
}

#[test]
fn only_a_parameter_of_that_name_is_read() {
    assert_eq!(
        url_param_str("https://x.test/a?xitag=5&itag=140", "itag").as_deref(),
        Some("140")
    );
    assert_eq!(url_param_str("https://x.test/itag=7", "itag"), None);
    assert_eq!(url_param_str("https://x.test/a?itag=", "itag").as_deref(), Some(""));
}
