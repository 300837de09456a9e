//! One range top-up call: the three request shapes it tries in turn, what
//! each answer means, and the account it gives of every shape that failed.
//!
//! The requests and the writing of bytes happen outside the library. The
//! caller asks which shape to send next, reports what came back, and
//! appends only as many bytes as it is told to. When no shape delivered,
//! the collected failures are the text the user sees; every one is worded
//! so that a `416` (the object really ends) reads differently from a
//! response that merely was not the requested slice.
use vstd::prelude::*;
use crate::range::{
    parse_unsatisfied_length, plan_append, plan_for, plan_of, reject_details,
    total_text, unsatisfied_length_spec, AppendPlan, Reject, ShapeProblem,
};
use crate::text::{chars_of, decimal, lemma_texts_push, push_decimal, push_str, string_of, texts};

verus! {

/// Seconds allowed for the response headers of a top-up request.
pub const HEADER_TIMEOUT_SECS: u64 = 20;

/// Seconds allowed for the body of a top-up response to make progress.
pub const BODY_STALL_TIMEOUT_SECS: u64 = 30;

/// Request shapes a top-up tries.
pub const TOPUP_SHAPES: usize = 3;

/// `<str as Debug>::fmt`: the text in double quotes, escaped as a Rust
/// string literal.
pub uninterp spec fn str_debug(s: Seq<char>) -> Seq<char>;

/// `format!("{s:?}")`, the `Debug` form of a string.
#[verifier::external_body]
fn debug_quoted(s: &str) -> (r: String)
    ensures
        r@ == str_debug(s@),
{
    format!("{s:?}")
}

/// How one top-up request is sent: with the `range=` query parameter and
/// the HTTP `Range` header, with the header alone, or with the parameter
/// alone.
#[derive(Debug, Clone, Copy, PartialEq, Eq, Structural)]
pub enum RangeShape {
    UrlAndHeader,
    Header,
    Url,
}

/// The shape tried in round `i` (counting from 0).
pub open spec fn shape_at(i: int) -> RangeShape {
    if i == 0 {
        RangeShape::UrlAndHeader
    } else if i == 1 {
        RangeShape::Header
    } else {
        RangeShape::Url
    }
}

/// The name a shape is reported under.
pub open spec fn shape_label(s: RangeShape) -> Seq<char> {
    match s {
        RangeShape::UrlAndHeader => "url+header"@,
        RangeShape::Header => "header"@,
        RangeShape::Url => "url"@,
    }
}

impl RangeShape {
    /// The name this shape is reported under.
    pub fn label(&self) -> (r: &'static str)
        ensures
            r@ == shape_label(*self),
    {
        match self {
            RangeShape::UrlAndHeader => "url+header",
            RangeShape::Header => "header",
            RangeShape::Url => "url",
        }
    }

    /// Whether the request goes to the URL with the `range=` window.
    pub fn ranged_url(&self) -> (r: bool)
        ensures
            r == (*self != RangeShape::Header),
    {
        !matches!(self, RangeShape::Header)
    }

    /// Whether the request carries the HTTP `Range` header.
    pub fn range_header(&self) -> (r: bool)
        ensures
            r == (*self != RangeShape::Url),
    {
        !matches!(self, RangeShape::Url)
    }
}

/// The `Range` header value for bytes `start..=end`.
pub open spec fn range_header_text(start: u64, end: u64) -> Seq<char> {
    "bytes="@ + decimal(start as nat) + "-"@ + decimal(end as nat)
}

/// `bytes={start}-{end}`, the `Range` header a top-up sends.
pub fn range_header_value(start: u64, end: u64) -> (r: String)
    ensures
        r@ == range_header_text(start, end),
{
    let mut out: Vec<char> = Vec::new();
    push_str(&mut out, "bytes=");
    push_decimal(&mut out, start);
    push_str(&mut out, "-");
    push_decimal(&mut out, end);
    assert(out@ =~= range_header_text(start, end));
    string_of(&out)
}

/// Why one shape's response may not be appended, in the words shown to the
/// user.
pub open spec fn shape_problem_text(p: ShapeProblem) -> Seq<char> {
    match p {
        ShapeProblem::ZeroAllowance { start } => "a top-up at byte "@ + decimal(start as nat)
            + " was requested with a zero-byte allowance"@,
        ShapeProblem::NoContentRange { start } =>
            "HTTP 206 with no Content-Range header, so the body cannot be confirmed to start at byte "@
            + decimal(start as nat) + "; nothing was appended"@,
        ShapeProblem::UnusableContentRange { raw, start } =>
            "HTTP 206 with an unusable Content-Range header "@ + str_debug(raw@)
            + ", so the body cannot be confirmed to start at byte "@ + decimal(start as nat)
            + "; nothing was appended"@,
        ShapeProblem::RangeIgnored { start } =>
            "HTTP 200 but the range was ignored - the edge answered with the whole object from byte 0, and appending it would duplicate the object's start (the file already holds "@
            + decimal(start as nat) + " bytes)"@,
        ShapeProblem::NotPartial { code } => "HTTP "@ + decimal(code as nat)
            + " is not a range response (206 is required), so nothing was appended"@,
        ShapeProblem::WrongWindow { served, start } => "HTTP 206 covers bytes "@ + decimal(
            served.start as nat,
        ) + "-"@ + decimal(served.end as nat) + " of "@ + total_text(served.total) + " but byte "@
            + decimal(start as nat)
            + " was requested: the body does not start where the file ends, so appending it would corrupt the file"@,
    }
}

/// The words for a response that proves the object ends at `total`.
pub open spec fn object_ends_text(total: u64, start: u64) -> Seq<char> {
    "Content-Range advertises a "@ + decimal(total as nat)
        + "-byte object and the file already holds "@ + decimal(start as nat)
        + ": there are no bytes left to request, so the window cannot be topped up"@
}

/// The words for a rejected response.
pub open spec fn reject_text(r: Reject) -> Seq<char> {
    match r {
        Reject::Shape(p) => shape_problem_text(p),
        Reject::ObjectEnds { total, start } => object_ends_text(total, start),
    }
}

/// The reason a `416` is reported with.
pub open spec fn wall_reason(object_len: Option<u64>) -> Seq<char> {
    match object_len {
        Some(len) => "range not satisfiable: the object ends at "@ + decimal(len as nat)
            + " bytes"@,
        None => "range not satisfiable: the edge did not state the object length"@,
    }
}

/// The words for a status that is not a success.
pub open spec fn status_text(code: u16, content_range: Option<Seq<char>>, content_length: Option<u64>) -> Seq<char> {
    if code == 416 {
        "HTTP "@ + decimal(code as nat) + " ("@ + wall_reason(
            match content_range {
                Some(s) => unsatisfied_length_spec(s),
                None => None,
            },
        ) + "; no client-side resume can extend it)"@
    } else {
        "HTTP "@ + decimal(code as nat) + " ("@ + decimal(
            match content_length {
                Some(n) => n as nat,
                None => 0,
            },
        ) + " bytes advertised)"@
    }
}

/// The words for a success status whose response is not appended, by the
/// decision taken about it.
pub open spec fn plan_text(plan: AppendPlan, code: u16, content_range: Option<Seq<char>>, start: u64) -> Seq<char> {
    match plan {
        AppendPlan::Append(_) => Seq::empty(),
        AppendPlan::ZeroAllowance => shape_problem_text(ShapeProblem::ZeroAllowance { start }),
        AppendPlan::NoContentRange => shape_problem_text(ShapeProblem::NoContentRange { start }),
        AppendPlan::UnusableContentRange => "HTTP 206 with an unusable Content-Range header "@
            + str_debug(
            match content_range {
                Some(s) => s,
                None => Seq::empty(),
            },
        ) + ", so the body cannot be confirmed to start at byte "@ + decimal(start as nat)
            + "; nothing was appended"@,
        AppendPlan::RangeIgnored => shape_problem_text(ShapeProblem::RangeIgnored { start }),
        AppendPlan::NotPartial => shape_problem_text(ShapeProblem::NotPartial { code }),
        AppendPlan::WrongWindow(served) => shape_problem_text(
            ShapeProblem::WrongWindow { served, start },
        ),
        AppendPlan::ObjectEnds(total) => object_ends_text(total, start),
    }
}

/// Why a body that was accepted delivered nothing.
#[derive(Debug, Clone)]
pub enum BodyProblem {
    /// Writing to the staging file failed.
    WriteFailed(String),
    /// Reading the body failed.
    ReadError(String),
    /// The body made no progress for `BODY_STALL_TIMEOUT_SECS`.
    Stalled,
}

/// The words for a body problem.
pub open spec fn body_problem_text(p: BodyProblem) -> Seq<char> {
    match p {
        BodyProblem::WriteFailed(e) => "write failed: "@ + e@,
        BodyProblem::ReadError(e) => "read error: "@ + e@,
        BodyProblem::Stalled => "stalled for 30s"@,
    }
}

/// The words for an accepted response whose body delivered nothing.
pub open spec fn empty_body_text(code: u16, problem: Option<BodyProblem>) -> Seq<char> {
    "HTTP "@ + decimal(code as nat) + " but the body was empty"@ + match problem {
        Some(p) => " ("@ + body_problem_text(p) + ")"@,
        None => Seq::empty(),
    }
}

/// `texts` joined with `sep` between them.
pub open spec fn joined_with(parts: Seq<Seq<char>>, sep: Seq<char>) -> Seq<char>
    decreases parts.len(),
{
    if parts.len() == 0 {
        Seq::empty()
    } else if parts.len() == 1 {
        parts[0]
    } else {
        joined_with(parts.drop_last(), sep) + sep + parts.last()
    }
}

fn push_shape_problem(out: &mut Vec<char>, p: &ShapeProblem)
    ensures
        final(out)@ == old(out)@ + shape_problem_text(*p),
{
    let ghost before = out@;
    match p {
        ShapeProblem::ZeroAllowance { start } => {
            push_str(out, "a top-up at byte ");
            push_decimal(out, *start);
            push_str(out, " was requested with a zero-byte allowance");
        },
        ShapeProblem::NoContentRange { start } => {
            push_str(
                out,
                "HTTP 206 with no Content-Range header, so the body cannot be confirmed to start at byte ",
            );
            push_decimal(out, *start);
            push_str(out, "; nothing was appended");
        },
        ShapeProblem::UnusableContentRange { raw, start } => {
            push_str(out, "HTTP 206 with an unusable Content-Range header ");
            let quoted = debug_quoted(raw.as_str());
            push_str(out, quoted.as_str());
            push_str(out, ", so the body cannot be confirmed to start at byte ");
            push_decimal(out, *start);
            push_str(out, "; nothing was appended");
        },
        ShapeProblem::RangeIgnored { start } => {
            push_str(
                out,
                "HTTP 200 but the range was ignored - the edge answered with the whole object from byte 0, and appending it would duplicate the object's start (the file already holds ",
            );
            push_decimal(out, *start);
            push_str(out, " bytes)");
        },
        ShapeProblem::NotPartial { code } => {
            push_str(out, "HTTP ");
            push_decimal(out, *code as u64);
            push_str(out, " is not a range response (206 is required), so nothing was appended");
        },
        ShapeProblem::WrongWindow { served, start } => {
            push_str(out, "HTTP 206 covers bytes ");
            push_decimal(out, served.start);
            push_str(out, "-");
            push_decimal(out, served.end);
            push_str(out, " of ");
            match served.total {
                Some(n) => push_decimal(out, n),
                None => out.push('*'),
            }
            push_str(out, " but byte ");
            push_decimal(out, *start);
            push_str(
                out,
                " was requested: the body does not start where the file ends, so appending it would corrupt the file",
            );
        },
    }
    assert(out@ =~= before + shape_problem_text(*p));
}

fn push_reject(out: &mut Vec<char>, r: &Reject)
    ensures
        final(out)@ == old(out)@ + reject_text(*r),
{
    match r {
        Reject::Shape(p) => push_shape_problem(out, p),
        Reject::ObjectEnds { total, start } => {
            let ghost before = out@;
            push_str(out, "Content-Range advertises a ");
            push_decimal(out, *total);
            push_str(out, "-byte object and the file already holds ");
            push_decimal(out, *start);
            push_str(
                out,
                ": there are no bytes left to request, so the window cannot be topped up",
            );
            assert(out@ =~= before + reject_text(*r));
        },
    }
}

/// The progress of one top-up call.
pub struct TopUpRun {
    start: u64,
    max_bytes: u64,
    tried: usize,
    stopped: bool,
    failures: Vec<String>,
}

impl TopUpRun {
    /// The offset the response has to begin at: the bytes the file holds.
    pub closed spec fn start(&self) -> u64 {
        self.start
    }

    /// The per-call allowance.
    pub closed spec fn allowance(&self) -> u64 {
        self.max_bytes
    }

    /// Shapes given up on so far.
    pub closed spec fn tried(&self) -> nat {
        self.tried as nat
    }

    /// Whether a response proved that no shape can deliver.
    pub closed spec fn stopped(&self) -> bool {
        self.stopped
    }

    /// The failures recorded so far, one per shape, oldest first.
    pub closed spec fn failures(&self) -> Seq<Seq<char>> {
        texts(self.failures@)
    }

    /// One failure per shape given up on, and one more for the stop.
    pub open spec fn wf(&self) -> bool {
        &&& self.tried() <= TOPUP_SHAPES
        &&& self.failures().len() == self.tried() + if self.stopped() {
            1nat
        } else {
            0nat
        }
    }

    /// Whether a shape is still to be tried.
    pub open spec fn in_progress(&self) -> bool {
        !self.stopped() && self.tried() < TOPUP_SHAPES
    }

    /// The shape being tried, reported under its label.
    pub open spec fn current_label(&self) -> Seq<char> {
        shape_label(shape_at(self.tried() as int))
    }

    /// A run for a file holding `start` bytes, with `max_bytes` allowed.
    pub fn new(start: u64, max_bytes: u64) -> (r: Self)
        ensures
            r.wf(),
            r.start() == start,
            r.allowance() == max_bytes,
            r.tried() == 0,
            !r.stopped(),
            r.failures() == Seq::<Seq<char>>::empty(),
    {
        let r = TopUpRun { start, max_bytes, tried: 0, stopped: false, failures: Vec::new() };
        assert(r.failures() =~= Seq::<Seq<char>>::empty());
        r
    }

    /// The shape to send next, or `None` once the run is over.
    pub fn next_shape(&self) -> (r: Option<RangeShape>)
        ensures
            r == if self.in_progress() {
                Some(shape_at(self.tried() as int))
            } else {
                None
            },
    {
        if self.stopped || self.tried >= TOPUP_SHAPES {
            None
        } else if self.tried == 0 {
            Some(RangeShape::UrlAndHeader)
        } else if self.tried == 1 {
            Some(RangeShape::Header)
        } else {
            Some(RangeShape::Url)
        }
    }

    fn record(&mut self, text: Vec<char>, stop: bool)
        requires
            old(self).wf(),
            old(self).in_progress(),
        ensures
            final(self).wf(),
            final(self).failures() == old(self).failures().push(
                old(self).current_label() + ": "@ + text@,
            ),
            final(self).stopped() == stop,
            final(self).tried() == if stop {
                old(self).tried()
            } else {
                old(self).tried() + 1
            },
            final(self).start() == old(self).start(),
            final(self).allowance() == old(self).allowance(),
    {
        let mut line = chars_of(self.next_shape_label());
        push_str(&mut line, ": ");
        let mut body = text;
        line.append(&mut body);
        let s = string_of(&line);
        proof {
            lemma_texts_push(self.failures@, s);
        }
        self.failures.push(s);
        assert(s@ =~= old(self).current_label() + ": "@ + text@);
        if stop {
            self.stopped = true;
        } else {
            self.tried = self.tried + 1;
        }
    }

    fn next_shape_label(&self) -> (r: &'static str)
        requires
            self.in_progress(),
        ensures
            r@ == self.current_label(),
    {
        match self.next_shape() {
            Some(s) => s.label(),
            None => "",
        }
    }

    /// The request of the current shape failed before any response.
    pub fn on_transport_error(&mut self, detail: &str)
        requires
            old(self).wf(),
            old(self).in_progress(),
        ensures
            final(self).wf(),
            final(self).failures() == old(self).failures().push(
                old(self).current_label() + ": transport error: "@ + detail@,
            ),
            final(self).tried() == old(self).tried() + 1,
            !final(self).stopped(),
            final(self).start() == old(self).start(),
            final(self).allowance() == old(self).allowance(),
    {
        let mut text = chars_of("transport error: ");
        push_str(&mut text, detail);
        self.record(text, false);
        proof {
            reveal_strlit(": ");
            reveal_strlit("transport error: ");
            reveal_strlit(": transport error: ");
        }
        assert(old(self).current_label() + ": "@ + ("transport error: "@ + detail@) =~= old(
            self,
        ).current_label() + ": transport error: "@ + detail@);
    }

    /// The response headers of the current shape did not arrive in time.
    pub fn on_timeout(&mut self)
        requires
            old(self).wf(),
            old(self).in_progress(),
        ensures
            final(self).wf(),
            final(self).failures() == old(self).failures().push(
                old(self).current_label() + ": timed out after 20s"@,
            ),
            final(self).tried() == old(self).tried() + 1,
            !final(self).stopped(),
            final(self).start() == old(self).start(),
            final(self).allowance() == old(self).allowance(),
    {
        let text = chars_of("timed out after 20s");
        self.record(text, false);
        proof {
            reveal_strlit(": ");
            reveal_strlit("timed out after 20s");
            reveal_strlit(": timed out after 20s");
        }
        assert(old(self).current_label() + ": "@ + "timed out after 20s"@ =~= old(
            self,
        ).current_label() + ": timed out after 20s"@);
    }

    /// The current shape answered with `code`: how many bytes of its body
    /// to append, or `None` when it is given up on (and then the run stops
    /// if the response proved the object ends at the held bytes).
    pub fn on_response(&mut self, code: u16, content_range: Option<&str>, content_length: Option<u64>) -> (r: Option<u64>)
        requires
            old(self).wf(),
            old(self).in_progress(),
        ensures
            final(self).wf(),
            final(self).start() == old(self).start(),
            final(self).allowance() == old(self).allowance(),
            ({
                let cr = match content_range {
                    Some(s) => Some(s@),
                    None => None,
                };
                let plan = plan_for(code, cr, content_length, old(self).start(), old(self).allowance());
                let label = old(self).current_label();
                if !(200 <= code <= 299) {
                    &&& r is None
                    &&& final(self).tried() == old(self).tried() + 1
                    &&& !final(self).stopped()
                    &&& final(self).failures() == old(self).failures().push(
                        label + ": "@ + status_text(code, cr, content_length),
                    )
                } else {
                    match plan {
                        AppendPlan::Append(n) => r == Some(n) && final(self).tried() == old(
                            self,
                        ).tried() && !final(self).stopped() && final(self).failures() == old(
                            self,
                        ).failures(),
                        AppendPlan::ObjectEnds(_) => r is None && final(self).stopped()
                            && final(self).tried() == old(self).tried() && final(self).failures()
                            == old(self).failures().push(
                            label + ": "@ + plan_text(plan, code, cr, old(self).start()),
                        ),
                        _ => r is None && !final(self).stopped() && final(self).tried() == old(
                            self,
                        ).tried() + 1 && final(self).failures() == old(self).failures().push(
                            label + ": "@ + plan_text(plan, code, cr, old(self).start()),
                        ),
                    }
                }
            }),
    {
        let ghost cr = match content_range {
            Some(s) => Some(s@),
            None => None,
        };
        if code < 200 || code > 299 {
            let mut text = chars_of("HTTP ");
            push_decimal(&mut text, code as u64);
            push_str(&mut text, " (");
            if code == 416 {
                let object_len = match content_range {
                    Some(raw) => parse_unsatisfied_length(raw),
                    None => None,
                };
                match object_len {
                    Some(len) => {
                        push_str(&mut text, "range not satisfiable: the object ends at ");
                        push_decimal(&mut text, len);
                        push_str(&mut text, " bytes");
                    },
                    None => push_str(
                        &mut text,
                        "range not satisfiable: the edge did not state the object length",
                    ),
                }
                push_str(&mut text, "; no client-side resume can extend it)");
            } else {
                let advertised = match content_length {
                    Some(n) => n,
                    None => 0,
                };
                push_decimal(&mut text, advertised);
                push_str(&mut text, " bytes advertised)");
            }
            assert(text@ =~= status_text(code, cr, content_length));
            self.record(text, false);
            return None;
        }
        let start = self.start;
        match plan_append(code, content_range, content_length, start, self.max_bytes) {
            Ok(limit) => Some(limit),
            Err(rej) => {
                let stop = match rej {
                    Reject::ObjectEnds { .. } => true,
                    Reject::Shape(_) => false,
                };
                let mut text: Vec<char> = Vec::new();
                push_reject(&mut text, &rej);
                proof {
                    lemma_reject_text_is_plan_text(rej, code, cr, content_length, start, old(self).allowance());
                }
                assert(text@ =~= plan_text(
                    plan_for(code, cr, content_length, start, old(self).allowance()),
                    code,
                    cr,
                    start,
                ));
                self.record(text, stop);
                None
            },
        }
    }

    /// The body of the accepted response ended after `appended` bytes were
    /// written: the call succeeded when any were; otherwise the shape is
    /// given up on and the problem, if one ended the body, is reported.
    pub fn on_body_end(&mut self, code: u16, appended: u64, problem: Option<BodyProblem>) -> (r: bool)
        requires
            old(self).wf(),
            old(self).in_progress(),
        ensures
            final(self).wf(),
            r == (appended > 0),
            r ==> final(self).failures() == old(self).failures() && final(self).tried() == old(
                self,
            ).tried(),
            !r ==> final(self).failures() == old(self).failures().push(
                old(self).current_label() + ": "@ + empty_body_text(code, problem),
            ) && final(self).tried() == old(self).tried() + 1,
            !final(self).stopped(),
            final(self).start() == old(self).start(),
            final(self).allowance() == old(self).allowance(),
    {
        if appended > 0 {
            return true;
        }
        let mut text = chars_of("HTTP ");
        push_decimal(&mut text, code as u64);
        push_str(&mut text, " but the body was empty");
        match &problem {
            Some(p) => {
                push_str(&mut text, " (");
                match p {
                    BodyProblem::WriteFailed(e) => {
                        push_str(&mut text, "write failed: ");
                        push_str(&mut text, e.as_str());
                    },
                    BodyProblem::ReadError(e) => {
                        push_str(&mut text, "read error: ");
                        push_str(&mut text, e.as_str());
                    },
                    BodyProblem::Stalled => push_str(&mut text, "stalled for 30s"),
                }
                push_str(&mut text, ")");
            },
            None => {},
        }
        assert(text@ =~= empty_body_text(code, problem));
        self.record(text, false);
        false
    }

    /// The text to return when the staging file cannot be opened for the
    /// current shape's bytes.
    pub fn open_failure(&self, detail: &str) -> (r: String)
        requires
            self.in_progress(),
        ensures
            r@ == self.current_label() + ": cannot open file for append: "@ + detail@,
    {
        let mut out = chars_of(self.next_shape_label());
        push_str(&mut out, ": cannot open file for append: ");
        push_str(&mut out, detail);
        string_of(&out)
    }

    /// Every failure recorded, joined with `"; "`: the account given when
    /// no shape delivered.
    pub fn error_text(&self) -> (r: String)
        ensures
            r@ == joined_with(self.failures(), "; "@),
    {
        let mut out: Vec<char> = Vec::new();
        let mut i: usize = 0;
        while i < self.failures.len()
            invariant
                i <= self.failures@.len(),
                self.failures().len() == self.failures@.len(),
                out@ == joined_with(self.failures().take(i as int), "; "@),
            decreases self.failures@.len() - i,
        {
            let ghost prefix = self.failures().take(i as int);
            let ghost next = self.failures().take(i + 1);
            assert(next.drop_last() =~= prefix);
            assert(next.last() == self.failures@[i as int]@);
            if i > 0 {
                push_str(&mut out, "; ");
            }
            push_str(&mut out, self.failures[i].as_str());
            proof {
                if i == 0 {
                    assert(prefix.len() == 0);
                    assert(out@ =~= next[0]);
                } else {
                    assert(out@ =~= joined_with(prefix, "; "@) + "; "@ + next.last());
                }
            }
            i = i + 1;
        }
        assert(self.failures().take(i as int) =~= self.failures());
        string_of(&out)
    }
}

proof fn lemma_reject_text_is_plan_text(
    rej: Reject,
    code: u16,
    cr: Option<Seq<char>>,
    content_length: Option<u64>,
    start: u64,
    max_bytes: u64,
)
    requires
        plan_of(Err(rej)) == plan_for(code, cr, content_length, start, max_bytes),
        reject_details(Err(rej), code, cr, start),
    ensures
        reject_text(rej) == plan_text(plan_for(code, cr, content_length, start, max_bytes), code, cr, start),
{
}

} // verus!
