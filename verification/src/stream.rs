//! The decisions of the streaming download loop: how long to back off
//! before an attempt, what an HTTP answer means for the staging file, when a
//! finished body is complete enough to validate, and when to give up. The
//! loop itself (requests, file writes, sleeps) runs outside the library and
//! reports each event to a [`StreamState`].
use vstd::prelude::*;
use crate::formats::AudioFormat;
use crate::paths::after_last_slash;
use crate::range::is_success;
use crate::text::{
    chars_of, decimal, parse_u64, parse_u64_spec, push_decimal, push_str, slice_chars, string_of,
    trim, trim_ws,
};

verus! {

/// A resolved download request: the stream to fetch, what to call the
/// result, and what the resolver knows of it.
#[derive(Debug, Clone)]
pub struct StreamDownload {
    pub stream_url: String,
    pub title: String,
    pub platform: String,
    pub format: AudioFormat,
    pub ext: String,
    pub total_bytes: Option<u64>,
    pub thumbnail: Option<String>,
    /// Headers the resolver requires, each name once.
    pub headers: Option<Vec<(String, String)>>,
    pub expected_duration_secs: Option<u32>,
}

/// Attempts a download makes before it fails for good.
pub const MAX_STREAM_RETRIES: usize = 5;

/// A finished body smaller than this is treated as a dropped stream, unless
/// the object itself is known to be smaller.
pub const MIN_VALID_STREAM_BYTES: u64 = 10240;

/// `2^k`.
pub open spec fn doublings(k: nat) -> nat
    decreases k,
{
    if k == 0 {
        1
    } else {
        2 * doublings((k - 1) as nat)
    }
}

/// Pause before attempt number `attempt` (counted from 1), in milliseconds:
/// none before the first, then 500 ms doubling per attempt up to 16 s.
pub open spec fn backoff_spec(attempt: nat) -> Option<u64> {
    if attempt <= 1 {
        None
    } else {
        let k: nat = if attempt - 2 < 5 {
            (attempt - 2) as nat
        } else {
            5
        };
        Some((500 * doublings(k)) as u64)
    }
}

/// What the loop does next.
#[derive(Debug, Clone, Copy, PartialEq, Eq, Structural)]
pub enum StreamStep {
    /// Write the response body to the staging file, appending to the bytes
    /// already there when `resuming`, else from an emptied file.
    Write { resuming: bool },
    /// The body is complete: validate the staging file.
    Validate,
    /// The staging file is valid: move it to its destination.
    Finish,
    /// Start another attempt, after removing the staging file when
    /// `discard`.
    Retry { discard: bool },
    /// Give up.
    Fail(StreamFailure),
}

/// Why a download gave up.
#[derive(Debug, Clone, Copy, PartialEq, Eq, Structural)]
pub enum StreamFailure {
    /// The server answered with this non-success status.
    Http { code: u16 },
    /// The request could not be sent, or no answer came, on the last
    /// attempt.
    Unanswered,
    /// The body stopped arriving on the last attempt.
    Interrupted,
    /// The body ended before the known object size on the last attempt.
    Incomplete { downloaded: u64, total: u64 },
    /// The body was implausibly small on the last attempt.
    TooSmall { downloaded: u64 },
    /// The staging file failed validation on the last attempt.
    Invalid,
}

/// Progress of one download across its attempts.
#[derive(Debug, Clone, Copy, PartialEq, Eq, Structural)]
pub struct StreamState {
    /// Attempts started so far.
    pub attempt: usize,
    /// Bytes the staging file holds.
    pub downloaded: u64,
    /// Object size, once known.
    pub total: Option<u64>,
}

/// The object size a `Content-Range` value states after its last `/`.
pub open spec fn stated_total(content_range: Seq<char>) -> Option<u64> {
    parse_u64_spec(trim_ws(after_last_slash(content_range)))
}

/// `Some(v@)` for `Some(v)`.
pub open spec fn opt_view(v: Option<&str>) -> Option<Seq<char>> {
    match v {
        Some(s) => Some(s@),
        None => None,
    }
}

/// The object size an answer reveals: on a resumed `206` the stated total,
/// else the body length plus the bytes already held; otherwise the body
/// length.
pub open spec fn revealed_total(
    resuming: bool,
    content_range: Option<Seq<char>>,
    content_length: Option<u64>,
    downloaded: u64,
) -> Option<u64> {
    if resuming {
        match match content_range {
            Some(s) => stated_total(s),
            None => None,
        } {
            Some(t) => Some(t),
            None => match content_length {
                Some(n) => Some((n + downloaded) as u64),
                None => None,
            },
        }
    } else {
        content_length
    }
}

/// The sum `revealed_total` forms fits in a `u64`.
pub open spec fn total_fits(
    state: StreamState,
    code: u16,
    content_range: Option<Seq<char>>,
    content_length: Option<u64>,
) -> bool {
    let resuming = state.downloaded > 0 && code == 206;
    resuming && match content_range {
        Some(s) => stated_total(s),
        None => None,
    } is None && content_length is Some ==> content_length->0 + state.downloaded <= u64::MAX
}

/// The state and step after the response headers of an attempt arrive.
pub open spec fn response_step(
    state: StreamState,
    code: u16,
    content_range: Option<Seq<char>>,
    content_length: Option<u64>,
) -> (StreamState, StreamStep) {
    let d0 = state.downloaded;
    let resuming = d0 > 0 && code == 206;
    if code == 416 && state.attempt < MAX_STREAM_RETRIES {
        (StreamState { downloaded: 0, ..state }, StreamStep::Retry { discard: true })
    } else {
        let d1: u64 = if (d0 > 0 && code == 200) || code == 416 {
            0
        } else {
            d0
        };
        let t = revealed_total(resuming, content_range, content_length, d1);
        let next = StreamState {
            downloaded: d1,
            total: if t is Some {
                t
            } else {
                state.total
            },
            ..state
        };
        let step = if is_success(code) {
            StreamStep::Write { resuming }
        } else if code == 403 || code == 404 || state.attempt >= MAX_STREAM_RETRIES {
            StreamStep::Fail(StreamFailure::Http { code })
        } else {
            StreamStep::Retry { discard: false }
        };
        (next, step)
    }
}

/// The state and step after the body of an attempt stopped arriving.
pub open spec fn body_step(state: StreamState, interrupted: bool) -> (StreamState, StreamStep) {
    let last = state.attempt >= MAX_STREAM_RETRIES;
    let d = state.downloaded;
    if interrupted {
        if last {
            (state, StreamStep::Fail(StreamFailure::Interrupted))
        } else {
            (state, StreamStep::Retry { discard: false })
        }
    } else if state.total is Some && d < state.total->0 {
        if last {
            (
                state,
                StreamStep::Fail(
                    StreamFailure::Incomplete { downloaded: d, total: state.total->0 },
                ),
            )
        } else {
            (state, StreamStep::Retry { discard: false })
        }
    } else if d < MIN_VALID_STREAM_BYTES && !(state.total is Some && state.total->0
        < MIN_VALID_STREAM_BYTES) {
        if last {
            (state, StreamStep::Fail(StreamFailure::TooSmall { downloaded: d }))
        } else {
            (StreamState { downloaded: 0, ..state }, StreamStep::Retry { discard: true })
        }
    } else {
        (state, StreamStep::Validate)
    }
}

/// The state and step after the staging file was validated; a file that
/// fails validation is always removed.
pub open spec fn validation_step(state: StreamState, valid: bool) -> (StreamState, StreamStep) {
    if valid {
        (state, StreamStep::Finish)
    } else if state.attempt >= MAX_STREAM_RETRIES {
        (state, StreamStep::Fail(StreamFailure::Invalid))
    } else {
        (StreamState { downloaded: 0, ..state }, StreamStep::Retry { discard: true })
    }
}

/// Whether an attempt is under way.
pub open spec fn in_attempt(state: StreamState) -> bool {
    1 <= state.attempt <= MAX_STREAM_RETRIES
}

fn stated_total_of(content_range: &str) -> (r: Option<u64>)
    ensures
        r == stated_total(content_range@),
{
    let v = chars_of(content_range);
    let mut i: usize = v.len();
    assert(v@.take(i as int) =~= v@);
    while i > 0 && v[i - 1] != '/'
        invariant
            i <= v@.len(),
            after_last_slash(v@) == after_last_slash(v@.take(i as int)) + v@.subrange(
                i as int,
                v@.len() as int,
            ),
        decreases i,
    {
        let ghost p = v@.take(i as int);
        assert(p.drop_last() =~= v@.take(i - 1));
        assert(after_last_slash(p) == after_last_slash(p.drop_last()).push(p.last()));
        assert(after_last_slash(v@.take(i - 1)) + v@.subrange(i - 1, v@.len() as int) =~= (
        after_last_slash(v@.take(i - 1)).push(p.last())) + v@.subrange(i as int, v@.len() as int));
        i = i - 1;
    }
    if i > 0 {
        let ghost p = v@.take(i as int);
        assert(p.last() == '/');
        assert(after_last_slash(p) =~= Seq::<char>::empty());
    } else {
        assert(v@.take(0) =~= Seq::<char>::empty());
    }
    assert(after_last_slash(v@) =~= v@.subrange(i as int, v@.len() as int));
    let tail = slice_chars(&v, i, v.len());
    let t = trim(&tail);
    parse_u64(&t)
}

impl StreamState {
    /// A download that holds `downloaded` bytes already, for an object of
    /// `total` bytes when that is known.
    pub fn new(total: Option<u64>, downloaded: u64) -> (r: Self)
        ensures
            r == (StreamState { attempt: 0, downloaded, total }),
    {
        StreamState { attempt: 0, downloaded, total }
    }

    /// Start the next attempt; returns the pause to take first.
    pub fn begin_attempt(&mut self) -> (pause: Option<u64>)
        requires
            old(self).attempt < MAX_STREAM_RETRIES,
        ensures
            *final(self) == (StreamState { attempt: (old(self).attempt + 1) as usize, ..*old(self) }),
            pause == backoff_spec(final(self).attempt as nat),
    {
        self.attempt = self.attempt + 1;
        if self.attempt <= 1 {
            return None;
        }
        let k: usize = if self.attempt - 2 < 5 {
            self.attempt - 2
        } else {
            5
        };
        let mut ms: u64 = 500;
        let mut i: usize = 0;
        while i < k
            invariant
                i <= k <= 5,
                ms == 500 * doublings(i as nat),
                ms <= 500 * 32,
            decreases k - i,
        {
            proof {
                assert(doublings(i as nat) <= 16) by {
                    reveal_with_fuel(doublings, 6);
                }
            }
            ms = ms * 2;
            i = i + 1;
        }
        Some(ms)
    }

    /// Whether `on_response` may take this answer: the object size it
    /// reveals by adding the body length to the held bytes must fit in 64
    /// bits.
    pub fn can_take_response(
        &self,
        code: u16,
        content_range: Option<&str>,
        content_length: Option<u64>,
    ) -> (r: bool)
        ensures
            r == total_fits(*self, code, opt_view(content_range), content_length),
    {
        let resuming = self.downloaded > 0 && code == 206;
        if !resuming {
            return true;
        }
        let stated = match content_range {
            Some(s) => stated_total_of(s),
            None => None,
        };
        match (stated, content_length) {
            (None, Some(n)) => n <= u64::MAX - self.downloaded,
            _ => true,
        }
    }

    /// Account for the response headers of the current attempt.
    pub fn on_response(
        &mut self,
        code: u16,
        content_range: Option<&str>,
        content_length: Option<u64>,
    ) -> (r: StreamStep)
        requires
            total_fits(*old(self), code, opt_view(content_range), content_length),
        ensures
            (*final(self), r) == response_step(
                *old(self),
                code,
                opt_view(content_range),
                content_length,
            ),
    {
        let d0 = self.downloaded;
        let resuming = d0 > 0 && code == 206;
        if code == 416 && self.attempt < MAX_STREAM_RETRIES {
            self.downloaded = 0;
            return StreamStep::Retry { discard: true };
        }
        if (d0 > 0 && code == 200) || code == 416 {
            self.downloaded = 0;
        }
        let revealed = if resuming {
            let stated = match content_range {
                Some(s) => stated_total_of(s),
                None => None,
            };
            match stated {
                Some(t) => Some(t),
                None => match content_length {
                    Some(n) => Some(n + self.downloaded),
                    None => None,
                },
            }
        } else {
            content_length
        };
        if revealed.is_some() {
            self.total = revealed;
        }
        if 200 <= code && code <= 299 {
            StreamStep::Write { resuming }
        } else if code == 403 || code == 404 || self.attempt >= MAX_STREAM_RETRIES {
            StreamStep::Fail(StreamFailure::Http { code })
        } else {
            StreamStep::Retry { discard: false }
        }
    }

    /// Decide what a request that failed or timed out before any answer
    /// means: another attempt while attempts remain.
    pub fn on_unanswered(&self) -> (r: StreamStep)
        ensures
            r == (if self.attempt >= MAX_STREAM_RETRIES {
                StreamStep::Fail(StreamFailure::Unanswered)
            } else {
                StreamStep::Retry { discard: false }
            }),
    {
        if self.attempt >= MAX_STREAM_RETRIES {
            StreamStep::Fail(StreamFailure::Unanswered)
        } else {
            StreamStep::Retry { discard: false }
        }
    }

    /// Account for `n` more bytes written to the staging file.
    pub fn record_chunk(&mut self, n: u64)
        requires
            old(self).downloaded + n <= u64::MAX,
        ensures
            *final(self) == (StreamState {
                downloaded: (old(self).downloaded + n) as u64,
                ..*old(self)
            }),
    {
        self.downloaded = self.downloaded + n;
    }

    /// Decide what the end of the body means: `interrupted` when it stopped
    /// on a read error or a stall rather than at its end.
    pub fn on_body_end(&mut self, interrupted: bool) -> (r: StreamStep)
        ensures
            (*final(self), r) == body_step(*old(self), interrupted),
    {
        let last = self.attempt >= MAX_STREAM_RETRIES;
        let d = self.downloaded;
        if interrupted {
            if last {
                return StreamStep::Fail(StreamFailure::Interrupted);
            }
            return StreamStep::Retry { discard: false };
        }
        if let Some(t) = self.total {
            if d < t {
                if last {
                    return StreamStep::Fail(StreamFailure::Incomplete { downloaded: d, total: t });
                }
                return StreamStep::Retry { discard: false };
            }
        }
        let expected_small = match self.total {
            Some(t) => t < MIN_VALID_STREAM_BYTES,
            None => false,
        };
        if d < MIN_VALID_STREAM_BYTES && !expected_small {
            if last {
                return StreamStep::Fail(StreamFailure::TooSmall { downloaded: d });
            }
            self.downloaded = 0;
            return StreamStep::Retry { discard: true };
        }
        StreamStep::Validate
    }

    /// Decide what the outcome of validating the staging file means.
    pub fn on_validated(&mut self, valid: bool) -> (r: StreamStep)
        ensures
            (*final(self), r) == validation_step(*old(self), valid),
    {
        if valid {
            StreamStep::Finish
        } else if self.attempt >= MAX_STREAM_RETRIES {
            StreamStep::Fail(StreamFailure::Invalid)
        } else {
            self.downloaded = 0;
            StreamStep::Retry { discard: true }
        }
    }
}

/// Seconds left at `speed` bytes per second, both sides cut to 32 bits as
/// the progress record holds them; `None` at zero speed.
pub open spec fn eta_spec(total: u64, downloaded: u64, speed: u64) -> Option<u32> {
    let remaining: u64 = if downloaded >= total {
        0
    } else {
        (total - downloaded) as u64
    };
    let s = speed as u32;
    if s == 0 {
        None
    } else {
        Some(((remaining as u32) / s) as u32)
    }
}

/// Estimated seconds until a download of `total` bytes completes.
pub fn eta_secs(total: u64, downloaded: u64, speed: u64) -> (r: Option<u32>)
    ensures
        r == eta_spec(total, downloaded, speed),
{
    let remaining = total.saturating_sub(downloaded);
    let rem32 = remaining as u32;
    let s = speed as u32;
    if s == 0 {
        None
    } else {
        Some(rem32 / s)
    }
}

/// A retry is only ever decided while attempts remain, so the next
/// `begin_attempt` is always allowed.
pub proof fn law_retry_leaves_an_attempt(
    state: StreamState,
    code: u16,
    content_range: Option<Seq<char>>,
    content_length: Option<u64>,
    interrupted: bool,
    valid: bool,
)
    requires
        in_attempt(state),
    ensures
        response_step(state, code, content_range, content_length).1 is Retry ==> state.attempt
            < MAX_STREAM_RETRIES,
        body_step(state, interrupted).1 is Retry ==> state.attempt < MAX_STREAM_RETRIES,
        validation_step(state, valid).1 is Retry ==> state.attempt < MAX_STREAM_RETRIES,
        response_step(state, code, content_range, content_length).0.attempt == state.attempt,
        body_step(state, interrupted).0.attempt == state.attempt,
        validation_step(state, valid).0.attempt == state.attempt,
{
}

/// `403` and `404` are final: an expired or refused URL is never retried.
pub proof fn law_forbidden_is_final(
    state: StreamState,
    code: u16,
    content_range: Option<Seq<char>>,
    content_length: Option<u64>,
)
    requires
        code == 403 || code == 404,
    ensures
        response_step(state, code, content_range, content_length).1 == StreamStep::Fail(
            StreamFailure::Http { code },
        ),
{
}

/// Whenever the staging file is discarded the byte count restarts at zero,
/// and a `416` always discards it.
pub proof fn law_discard_restarts_from_zero(
    state: StreamState,
    code: u16,
    content_range: Option<Seq<char>>,
    content_length: Option<u64>,
    interrupted: bool,
    valid: bool,
)
    ensures
        response_step(state, code, content_range, content_length).1 == (StreamStep::Retry {
            discard: true,
        }) ==> response_step(state, code, content_range, content_length).0.downloaded == 0,
        body_step(state, interrupted).1 == (StreamStep::Retry { discard: true }) ==> body_step(
            state,
            interrupted,
        ).0.downloaded == 0,
        validation_step(state, valid).1 == (StreamStep::Retry { discard: true })
            ==> validation_step(state, valid).0.downloaded == 0,
        code == 416 ==> response_step(state, code, content_range, content_length).0.downloaded
            == 0,
{
}

/// Bytes are appended only to a resumed download that the server answered
/// with `206`; a `200` to a ranged request starts the file over.
pub proof fn law_append_only_on_partial_content(
    state: StreamState,
    code: u16,
    content_range: Option<Seq<char>>,
    content_length: Option<u64>,
)
    ensures
        response_step(state, code, content_range, content_length).1 == (StreamStep::Write {
            resuming: true,
        }) ==> code == 206 && state.downloaded > 0 && response_step(
            state,
            code,
            content_range,
            content_length,
        ).0.downloaded == state.downloaded,
        code == 200 ==> response_step(state, code, content_range, content_length).1 == (
        StreamStep::Write { resuming: false }) && response_step(
            state,
            code,
            content_range,
            content_length,
        ).0.downloaded == 0,
{
}

/// A file is validated only when its body is at least as long as the known
/// object size, and a validated file is the only way to finish.
pub proof fn law_validate_only_complete(state: StreamState, interrupted: bool, valid: bool)
    ensures
        body_step(state, interrupted).1 == StreamStep::Validate ==> !interrupted && (
        state.total is Some ==> state.downloaded >= state.total->0),
        validation_step(state, valid).1 == StreamStep::Finish <==> valid,
{
}

/// The explanation a download error adds to an HTTP status.
pub open spec fn status_hint_text(code: u16) -> Seq<char> {
    if code == 403 {
        " — 403 Forbidden: googlevideo rejected UA/Referer/Origin/PO-token or URL expired [rr1---sn-gwpa-cived]"@
    } else if code == 404 {
        " — 404: URL expired or invalid (re-resolve the video)"@
    } else if code == 416 {
        " — 416 Range Not Satisfiable: resume offset beyond file size"@
    } else if code == 429 {
        " — 429 Too Many Requests: rate-limited, retry later"@
    } else if 500 <= code <= 599 {
        " — server error, retry later"@
    } else {
        ""@
    }
}

/// The explanation a download error adds to an HTTP status.
pub fn status_hint(code: u16) -> (r: &'static str)
    ensures
        r@ == status_hint_text(code),
{
    if code == 403 {
        " — 403 Forbidden: googlevideo rejected UA/Referer/Origin/PO-token or URL expired [rr1---sn-gwpa-cived]"
    } else if code == 404 {
        " — 404: URL expired or invalid (re-resolve the video)"
    } else if code == 416 {
        " — 416 Range Not Satisfiable: resume offset beyond file size"
    } else if code == 429 {
        " — 429 Too Many Requests: rate-limited, retry later"
    } else if 500 <= code && code <= 599 {
        " — server error, retry later"
    } else {
        ""
    }
}

/// `{:?}` of an optional byte count.
pub open spec fn debug_count(t: Option<u64>) -> Seq<char> {
    match t {
        Some(n) => "Some("@ + decimal(n as nat) + ")"@,
        None => "None"@,
    }
}

/// The text a download that gave up on its body fails with; `host` is the
/// server's name and `state` the download's progress.
pub open spec fn body_failure_text(f: StreamFailure, host: Seq<char>, state: StreamState) -> Seq<char> {
    match f {
        StreamFailure::Interrupted => "Stream interrupted and max retries (5) reached ["@ + host
            + "] ("@ + decimal(state.downloaded as nat) + "/"@ + debug_count(state.total)
            + " bytes)"@,
        StreamFailure::Incomplete { downloaded, total } => "Stream incomplete: downloaded "@
            + decimal(downloaded as nat) + " of "@ + decimal(total as nat)
            + " bytes after 5 attempts"@,
        StreamFailure::TooSmall { downloaded } => "Stream abnormally small ("@ + decimal(
            downloaded as nat,
        ) + " bytes < 10KB) after 5 attempts"@,
        _ => Seq::empty(),
    }
}

impl StreamFailure {
    /// The text a download that gave up on its body fails with.
    pub fn body_message(&self, host: &str, state: &StreamState) -> (r: String)
        requires
            *self is Interrupted || *self is Incomplete || *self is TooSmall,
        ensures
            r@ == body_failure_text(*self, host@, *state),
    {
        let mut out: Vec<char> = Vec::new();
        match self {
            StreamFailure::Interrupted => {
                push_str(&mut out, "Stream interrupted and max retries (5) reached [");
                push_str(&mut out, host);
                push_str(&mut out, "] (");
                push_decimal(&mut out, state.downloaded);
                push_str(&mut out, "/");
                match state.total {
                    Some(n) => {
                        push_str(&mut out, "Some(");
                        push_decimal(&mut out, n);
                        push_str(&mut out, ")");
                    },
                    None => push_str(&mut out, "None"),
                }
                push_str(&mut out, " bytes)");
            },
            StreamFailure::Incomplete { downloaded, total } => {
                push_str(&mut out, "Stream incomplete: downloaded ");
                push_decimal(&mut out, *downloaded);
                push_str(&mut out, " of ");
                push_decimal(&mut out, *total);
                push_str(&mut out, " bytes after 5 attempts");
            },
            StreamFailure::TooSmall { downloaded } => {
                push_str(&mut out, "Stream abnormally small (");
                push_decimal(&mut out, *downloaded);
                push_str(&mut out, " bytes < 10KB) after 5 attempts");
            },
            _ => {},
        }
        assert(out@ =~= body_failure_text(*self, host@, *state));
        string_of(&out)
    }
}

} // verus!
