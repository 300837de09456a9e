use auralis::stream::{
    eta_secs, status_hint, StreamFailure, StreamState, StreamStep, MAX_STREAM_RETRIES, MIN_VALID_STREAM_BYTES,
};

fn started(total: Option<u64>, downloaded: u64) -> StreamState {
    let mut s = StreamState::new(total, downloaded);
    assert_eq!(s.begin_attempt(), None);
    s
}

#[test]
fn backoff_doubles_from_half_a_second_up_to_sixteen() {
    let mut s = StreamState::new(None, 0);
    let pauses: Vec<Option<u64>> = (0..MAX_STREAM_RETRIES).map(|_| s.begin_attempt()).collect();
    assert_eq!(
        pauses,
        vec![None, Some(500), Some(1000), Some(2000), Some(4000)]
    );
    assert_eq!(s.attempt, MAX_STREAM_RETRIES);
}

#[test]
fn a_fresh_200_streams_from_the_start() {
    let mut s = started(None, 0);
    assert_eq!(s.on_response(200, None, Some(50_000)), StreamStep::Write { resuming: false });
    assert_eq!(s.total, Some(50_000));
}

#[test]
fn a_resumed_206_appends_and_learns_the_total() {
    let mut s = started(None, 4096);
    assert_eq!(
        s.on_response(206, Some("bytes 4096-9999/10000"), Some(5904)),
        StreamStep::Write { resuming: true }
    );
    assert_eq!(s.total, Some(10_000));
    assert_eq!(s.downloaded, 4096);
    let mut t = started(None, 4096);
    t.on_response(206, None, Some(5904));
    assert_eq!(t.total, Some(10_000));
}

#[test]
fn a_200_to_a_ranged_request_restarts_the_file() {
    let mut s = started(Some(10_000), 4096);
    assert_eq!(s.on_response(200, None, Some(10_000)), StreamStep::Write { resuming: false });
    assert_eq!(s.downloaded, 0);
}

#[test]
fn a_416_discards_the_staging_file_and_retries() {
    let mut s = started(None, 4096);
    assert_eq!(s.on_response(416, None, None), StreamStep::Retry { discard: true });
    assert_eq!(s.downloaded, 0);
}

#[test]
fn expired_urls_are_not_retried() {
    let mut s = started(None, 0);
    assert_eq!(
        s.on_response(403, None, None),
        StreamStep::Fail(StreamFailure::Http { code: 403 })
    );
    let mut t = started(None, 0);
    assert_eq!(t.on_response(503, None, None), StreamStep::Retry { discard: false });
}

#[test]
fn the_last_attempt_fails_instead_of_retrying() {
    let mut s = StreamState::new(None, 0);
    for _ in 0..MAX_STREAM_RETRIES {
        s.begin_attempt();
    }
    assert_eq!(
        s.on_response(503, None, None),
        StreamStep::Fail(StreamFailure::Http { code: 503 })
    );
    assert_eq!(
        s.on_response(416, None, None),
        StreamStep::Fail(StreamFailure::Http { code: 416 })
    );
    assert_eq!(s.on_body_end(true), StreamStep::Fail(StreamFailure::Interrupted));
    assert_eq!(s.on_validated(false), StreamStep::Fail(StreamFailure::Invalid));
}

#[test]
fn a_body_short_of_the_total_is_resumed() {
    let mut s = started(Some(100_000), 0);
    s.record_chunk(60_000);
    assert_eq!(s.on_body_end(false), StreamStep::Retry { discard: false });
    assert_eq!(s.downloaded, 60_000);
    s.begin_attempt();
    s.record_chunk(40_000);
    assert_eq!(s.on_body_end(false), StreamStep::Validate);
    assert_eq!(s.on_validated(true), StreamStep::Finish);
}

#[test]
fn a_tiny_body_is_a_dropped_stream_unless_the_object_is_tiny() {
    let mut s = started(None, 0);
    s.record_chunk(MIN_VALID_STREAM_BYTES - 1);
    assert_eq!(s.on_body_end(false), StreamStep::Retry { discard: true });
    assert_eq!(s.downloaded, 0);
    let mut t = started(Some(500), 0);
    t.record_chunk(500);
    assert_eq!(t.on_body_end(false), StreamStep::Validate);
}

#[test]
fn an_invalid_file_is_discarded_and_retried() {
    let mut s = started(None, 0);
    s.record_chunk(20_000);
    assert_eq!(s.on_validated(false), StreamStep::Retry { discard: true });
    assert_eq!(s.downloaded, 0);
}

#[test]
fn eta_uses_32_bit_counts() {
    assert_eq!(eta_secs(1000, 400, 100), Some(6));
    assert_eq!(eta_secs(1000, 2000, 100), Some(0));
    assert_eq!(eta_secs(1000, 0, 0), None);
    assert_eq!(eta_secs(1000, 0, 1 << 32), None);
}

#[test]
fn unanswered_requests_are_retried_until_the_attempts_run_out() {
    let mut s = started(None, 0);
    assert_eq!(s.on_unanswered(), StreamStep::Retry { discard: false });
    while s.attempt < MAX_STREAM_RETRIES {
        s.begin_attempt();
    }
    assert_eq!(
        s.on_unanswered(),
        StreamStep::Fail(StreamFailure::Unanswered)
    );
}

#[test]
fn a_resumed_length_must_fit_beside_what_is_held() {
    let s = StreamState::new(None, 1000);
    assert!(s.can_take_response(206, None, Some(500)));
    assert!(!s.can_take_response(206, None, Some(u64::MAX)));
    // A stated total settles the size; the length is then not added.
    assert!(s.can_take_response(206, Some("bytes 1000-1499/1500"), Some(u64::MAX)));
    // A fresh download takes any length.
    assert!(StreamState::new(None, 0).can_take_response(200, None, Some(u64::MAX)));
}

#[test]
fn status_hints_explain_the_common_refusals() {
    assert_eq!(
        status_hint(404),
        " — 404: URL expired or invalid (re-resolve the video)"
    );
    assert!(status_hint(403).starts_with(" — 403 Forbidden"));
    assert_eq!(status_hint(503), " — server error, retry later");
    assert_eq!(status_hint(418), "");
}

#[test]
fn body_failures_read_as_the_user_sees_them() {
    let state = StreamState::new(Some(4096), 1024);
    assert_eq!(
        StreamFailure::Interrupted.body_message("rr1.example", &state),
        "Stream interrupted and max retries (5) reached [rr1.example] (1024/Some(4096) bytes)"
    );
    assert_eq!(
        StreamFailure::Interrupted.body_message("h", &StreamState::new(None, 7)),
        "Stream interrupted and max retries (5) reached [h] (7/None bytes)"
    );
    assert_eq!(
        StreamFailure::Incomplete { downloaded: 10, total: 20 }.body_message("h", &state),
        "Stream incomplete: downloaded 10 of 20 bytes after 5 attempts"
    );
    assert_eq!(
        StreamFailure::TooSmall { downloaded: 99 }.body_message("h", &state),
        "Stream abnormally small (99 bytes < 10KB) after 5 attempts"
    );
}
