use auralis::range::{chunk_take, request_end, with_range_param, TOPUP_CHUNK_BYTES};
use auralis::topup::{range_header_value, BodyProblem, RangeShape, TopUpRun};

/// Bytes already in the staging file: every response is checked against
/// offset 10.
const HELD: &[u8] = b"HELD-BYTES";

/// One scripted answer, given to every request shape.
struct Scripted {
    code: u16,
    content_range: Option<String>,
    content_length: Option<u64>,
    body: Vec<u8>,
}

impl Scripted {
    fn new(code: u16, content_range: Option<String>, body: &[u8]) -> Scripted {
        Scripted {
            code,
            content_range,
            content_length: Some(body.len() as u64),
            body: body.to_vec(),
        }
    }
}

/// What one request asked for: its target and its `Range` header.
struct Request {
    target: String,
    range_header: Option<String>,
}

fn has_range_query(request: &Request, start: u64) -> bool {
    request.target.contains(&format!("range={start}-"))
}

/// Drive one top-up against `answer`, appending to `staging` exactly what
/// the run allows, and record every request sent.
fn top_up(
    answer: Option<&Scripted>,
    url: &str,
    staging: &mut Vec<u8>,
    start: u64,
    max_bytes: u64,
    seen: &mut Vec<Request>,
) -> Result<u64, String> {
    let end = request_end(start, max_bytes);
    let ranged = with_range_param(url, start, end);
    let mut run = TopUpRun::new(start, max_bytes);
    while let Some(shape) = run.next_shape() {
        seen.push(Request {
            target: if shape.ranged_url() { ranged.clone() } else { url.to_string() },
            range_header: if shape.range_header() {
                Some(range_header_value(start, end))
            } else {
                None
            },
        });
        let answer = match answer {
            Some(a) => a,
            None => {
                run.on_transport_error("error sending request");
                continue;
            }
        };
        let limit = match run.on_response(
            answer.code,
            answer.content_range.as_deref(),
            answer.content_length,
        ) {
            Some(limit) => limit,
            None => continue,
        };
        let mut appended = 0u64;
        if appended < limit && !answer.body.is_empty() {
            let take = chunk_take(limit, appended, answer.body.len());
            staging.extend_from_slice(&answer.body[..take]);
            appended += take as u64;
        }
        if run.on_body_end(answer.code, appended, None) {
            return Ok(appended);
        }
    }
    Err(run.error_text())
}

#[test]
fn top_up_against_a_dead_port_reports_every_variant() {
    let mut staging = b"partial".to_vec();
    let mut seen = Vec::new();
    let url = "http://127.0.0.1:1/videoplayback?itag=140&clen=99";
    let err = top_up(None, url, &mut staging, 7, TOPUP_CHUNK_BYTES, &mut seen)
        .expect_err("a dead port cannot deliver bytes");
    assert!(err.contains("url+header"), "got {err}");
    assert!(err.contains("header"), "got {err}");
    assert!(err.contains("url:"), "got {err}");
    assert_eq!(staging, b"partial".to_vec());
}

#[test]
fn top_up_rejects_a_200_that_ignored_the_range_and_leaves_the_file_untouched() {
    let answer = Scripted::new(200, None, b"WHOLE-OBJECT-FROM-BYTE-ZERO");
    let mut staging = HELD.to_vec();
    let mut seen = Vec::new();
    let start = HELD.len() as u64;
    let err = top_up(
        Some(&answer),
        "http://127.0.0.1/videoplayback?itag=140&clen=999999",
        &mut staging,
        start,
        TOPUP_CHUNK_BYTES,
        &mut seen,
    )
    .expect_err("a 200 that ignored the range must never be appended");
    assert!(err.contains("200"), "the status must be reported: {err}");
    assert!(err.contains("the range was ignored"), "got {err}");
    assert!(err.contains("whole object from byte 0"), "got {err}");
    assert!(err.contains("duplicate the object's start"), "got {err}");
    assert_eq!(staging, HELD, "the staging file must be byte-for-byte unchanged");
    assert_eq!(seen.len(), 3, "all three shapes must be tried");
    assert!(has_range_query(&seen[0], start));
    assert!(seen[0].range_header.is_some());
    assert!(!has_range_query(&seen[1], start));
    assert!(seen[1].range_header.is_some());
    assert!(has_range_query(&seen[2], start));
    assert!(seen[2].range_header.is_none());
}

#[test]
fn top_up_rejects_a_206_whose_content_range_starts_elsewhere() {
    let answer = Scripted::new(
        206,
        Some("bytes 4096-4127/8192".to_string()),
        b"BYTES-FROM-SOMEWHERE-ELSE-ENTIRELY",
    );
    let mut staging = HELD.to_vec();
    let mut seen = Vec::new();
    let start = HELD.len() as u64;
    let err = top_up(
        Some(&answer),
        "http://127.0.0.1/videoplayback?itag=140",
        &mut staging,
        start,
        TOPUP_CHUNK_BYTES,
        &mut seen,
    )
    .expect_err("a 206 for another window must never be appended");
    assert!(err.contains("206"), "the status must be reported: {err}");
    assert!(err.contains("4096"), "the served offset must be reported: {err}");
    assert!(
        err.contains(&format!("byte {start} was requested")),
        "the requested offset must be reported: {err}"
    );
    assert!(err.contains("corrupt"), "got {err}");
    assert_eq!(staging, HELD, "the staging file must be byte-for-byte unchanged");
}

#[test]
fn top_up_rejects_a_206_without_a_usable_content_range() {
    for (tag, content_range) in [
        ("missing_cr", None),
        ("junk_cr", Some("bytes nonsense/8192".to_string())),
    ] {
        let answer = Scripted {
            code: 206,
            content_range,
            content_length: Some(4),
            body: b"NOPE".to_vec(),
        };
        let mut staging = HELD.to_vec();
        let mut seen = Vec::new();
        let start = HELD.len() as u64;
        let err = top_up(
            Some(&answer),
            "http://127.0.0.1/videoplayback?itag=140",
            &mut staging,
            start,
            TOPUP_CHUNK_BYTES,
            &mut seen,
        )
        .expect_err("a 206 without a usable Content-Range is not appendable");
        assert!(err.contains("Content-Range"), "{tag}: {err}");
        assert!(err.contains("nothing was appended"), "{tag}: {err}");
        assert_eq!(staging, HELD, "{tag}: the file was modified");
    }
}

#[test]
fn top_up_accepts_a_well_formed_206_for_the_requested_offset() {
    let body = b"NEXT-EIGHT";
    let start = HELD.len() as u64;
    let total = start + body.len() as u64;
    let answer = Scripted::new(
        206,
        Some(format!("bytes {start}-{}/{}", total - 1, total)),
        body,
    );
    let mut staging = HELD.to_vec();
    let mut seen = Vec::new();
    let added = top_up(
        Some(&answer),
        "http://127.0.0.1/videoplayback?itag=140",
        &mut staging,
        start,
        TOPUP_CHUNK_BYTES,
        &mut seen,
    )
    .expect("a well-formed 206 for the requested offset must be accepted");
    assert_eq!(added, body.len() as u64, "bytes appended");
    let mut expected = HELD.to_vec();
    expected.extend_from_slice(body);
    assert_eq!(staging, expected, "the served bytes must be appended");
}

#[test]
fn top_up_clamps_an_append_to_the_advertised_object_end() {
    let body = vec![b'X'; 64];
    let start = HELD.len() as u64;
    let total = start + 2;
    let answer = Scripted::new(
        206,
        Some(format!("bytes {start}-{}/{}", total - 1, total)),
        &body,
    );
    let mut staging = HELD.to_vec();
    let mut seen = Vec::new();
    let added = top_up(
        Some(&answer),
        "http://127.0.0.1/videoplayback?itag=140",
        &mut staging,
        start,
        TOPUP_CHUNK_BYTES,
        &mut seen,
    )
    .expect("a 206 that only over-delivers is still a 206");
    assert_eq!(added, 2, "the append must stop at the advertised end");
    let mut expected = HELD.to_vec();
    expected.extend_from_slice(&body[..2]);
    assert_eq!(staging, expected, "nothing may be written past the advertised object end");
}

#[test]
fn top_up_clamps_an_append_to_the_requested_allowance() {
    let body = vec![b'Y'; 64];
    let start = HELD.len() as u64;
    let total = 1_000_000u64;
    let answer = Scripted::new(
        206,
        Some(format!("bytes {start}-{}/{}", start + 63, total)),
        &body,
    );
    let mut staging = HELD.to_vec();
    let mut seen = Vec::new();
    let added = top_up(
        Some(&answer),
        "http://127.0.0.1/videoplayback?itag=140",
        &mut staging,
        start,
        8,
        &mut seen,
    )
    .expect("a 206 for the requested offset is appendable");
    assert_eq!(added, 8, "the append must stop at the allowance");
    let mut expected = HELD.to_vec();
    expected.extend_from_slice(&body[..8]);
    assert_eq!(staging, expected, "the file grew by the allowance");
}

#[test]
fn top_up_stops_immediately_when_the_object_already_ends_at_the_offset() {
    let start = HELD.len() as u64;
    let answer = Scripted::new(206, Some(format!("bytes {start}-{start}/{start}")), b"Z");
    let mut staging = HELD.to_vec();
    let mut seen = Vec::new();
    let err = top_up(
        Some(&answer),
        "http://127.0.0.1/videoplayback?itag=140",
        &mut staging,
        start,
        TOPUP_CHUNK_BYTES,
        &mut seen,
    )
    .expect_err("an object that ends here cannot be topped up");
    assert!(
        err.contains(&format!("a {start}-byte object")),
        "the advertised length must be reported: {err}"
    );
    assert!(err.contains("no bytes left to request"), "got {err}");
    assert_eq!(staging, HELD, "the file was modified");
    assert_eq!(seen.len(), 1, "a hard stop must not spend the other shapes");
}

#[test]
fn top_up_reports_a_416_as_a_hard_wall_and_leaves_the_file_untouched() {
    let start = HELD.len() as u64;
    let answer = Scripted {
        code: 416,
        content_range: Some(format!("bytes */{start}")),
        content_length: Some(0),
        body: Vec::new(),
    };
    let mut staging = HELD.to_vec();
    let mut seen = Vec::new();
    let err = top_up(
        Some(&answer),
        "http://127.0.0.1/videoplayback?itag=140",
        &mut staging,
        start,
        TOPUP_CHUNK_BYTES,
        &mut seen,
    )
    .expect_err("a 416 delivers no bytes");
    assert!(err.contains("416"), "the status code must be reported: {err}");
    assert!(err.contains("range not satisfiable"), "the reason must be reported: {err}");
    assert!(
        err.contains(&format!("the object ends at {start} bytes")),
        "the hard wall must be quantified: {err}"
    );
    assert!(
        !err.contains("the range was ignored"),
        "416 must not be worded as an ignored range: {err}"
    );
    assert!(!err.contains("206"), "416 must not be worded as a bad partial response: {err}");
    assert!(
        err.contains("no client-side resume can extend it"),
        "the interpretation must survive: {err}"
    );
    assert_eq!(staging, HELD, "the staging file must be byte-for-byte unchanged");
    assert_eq!(seen.len(), 3, "all three shapes must be tried");
}

#[test]
fn a_416_without_a_content_range_still_names_the_status() {
    let answer = Scripted {
        code: 416,
        content_range: None,
        content_length: Some(0),
        body: Vec::new(),
    };
    let mut staging = HELD.to_vec();
    let mut seen = Vec::new();
    let err = top_up(
        Some(&answer),
        "http://127.0.0.1/videoplayback?itag=140",
        &mut staging,
        HELD.len() as u64,
        TOPUP_CHUNK_BYTES,
        &mut seen,
    )
    .expect_err("a 416 delivers no bytes");
    assert!(err.contains("416"), "got {err}");
    assert!(err.contains("range not satisfiable"), "got {err}");
    assert!(err.contains("did not state the object length"), "got {err}");
    assert_eq!(staging, HELD, "the file was modified");
}

#[test]
fn top_up_accepts_a_200_when_the_staging_file_is_still_empty() {
    let body = b"START-OF-OBJECT";
    let answer = Scripted::new(200, None, body);
    let mut staging = Vec::new();
    let mut seen = Vec::new();
    let added = top_up(
        Some(&answer),
        "http://127.0.0.1/videoplayback?itag=140",
        &mut staging,
        0,
        TOPUP_CHUNK_BYTES,
        &mut seen,
    )
    .expect("a 200 at offset 0 is the requested range");
    assert_eq!(added, body.len() as u64, "bytes appended");
    assert_eq!(staging, body.to_vec());
}

#[test]
fn failures_are_joined_in_the_order_the_shapes_were_tried() {
    let mut run = TopUpRun::new(5, 100);
    assert_eq!(run.next_shape(), Some(RangeShape::UrlAndHeader));
    run.on_timeout();
    assert_eq!(run.next_shape(), Some(RangeShape::Header));
    assert_eq!(run.on_response(503, None, Some(12)), None);
    assert_eq!(run.next_shape(), Some(RangeShape::Url));
    assert_eq!(run.on_response(206, Some("bytes 5-9/10"), Some(5)), Some(5));
    assert!(!run.on_body_end(206, 0, Some(BodyProblem::Stalled)));
    assert_eq!(run.next_shape(), None);
    assert_eq!(
        run.error_text(),
        "url+header: timed out after 20s; header: HTTP 503 (12 bytes advertised); \
         url: HTTP 206 but the body was empty (stalled for 30s)"
    );
}

#[test]
fn every_rejection_is_worded_in_full() {
    let mut run = TopUpRun::new(10, 0);
    run.on_response(206, Some("bytes 0-1/2"), None);
    assert_eq!(
        run.error_text(),
        "url+header: a top-up at byte 10 was requested with a zero-byte allowance"
    );
    let mut run = TopUpRun::new(10, 64);
    run.on_response(204, None, None);
    run.on_response(206, Some("bytes 0-3/*"), Some(4));
    run.on_response(206, Some("bytes\tx"), Some(4));
    assert_eq!(
        run.error_text(),
        "url+header: HTTP 204 is not a range response (206 is required), so nothing was appended; \
         header: HTTP 206 covers bytes 0-3 of * but byte 10 was requested: the body does not start \
         where the file ends, so appending it would corrupt the file; \
         url: HTTP 206 with an unusable Content-Range header \"bytes\\tx\", so the body cannot be \
         confirmed to start at byte 10; nothing was appended"
    );
    assert_eq!(range_header_value(10, 73), "bytes=10-73");
    assert_eq!(
        TopUpRun::new(0, 1).open_failure("denied"),
        "url+header: cannot open file for append: denied"
    );
}
