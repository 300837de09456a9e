//! Integrity check of a finished download before it is published: the file
//! must exist and hold bytes, its tags must report a plausible duration
//! close to the expected one, and a decoder must accept it; WebM/Opus files,
//! which the tag reader and decoder cannot handle, are accepted on the Opus
//! probe's duration instead.
//!
//! The probes themselves read the file and run outside the library; a
//! [`Validator`] says which probe to run next and decides on each answer.
use vstd::prelude::*;
use crate::text::{decimal, push_decimal, push_str, string_of};

verus! {

/// Largest difference, in seconds, between the measured and the expected
/// duration that is still accepted.
pub const DURATION_TOLERANCE_SECS: u32 = 5;

/// Size at or below which a file without a duration is reported with its
/// size, rate and channel count.
pub const TINY_FILE_BYTES: u64 = 10240;

/// The first bytes of an EBML (WebM/Matroska) file.
pub open spec fn ebml_magic(head: Seq<u8>) -> bool {
    head.len() >= 4 && head[0] == 0x1a && head[1] == 0x45 && head[2] == 0xdf && head[3] == 0xa3
}

/// Whether a file whose first bytes are `head` is a WebM/Matroska
/// container; `head` holds fewer than four bytes when the file is shorter.
pub fn is_ebml_header(head: &[u8]) -> (r: bool)
    ensures
        r == ebml_magic(head@),
{
    head.len() >= 4 && head[0] == 0x1a && head[1] == 0x45 && head[2] == 0xdf && head[3] == 0xa3
}

/// `|a - b|`.
pub open spec fn distance(a: u32, b: u32) -> int {
    if a >= b {
        a - b
    } else {
        b - a
    }
}

/// Whether a measured duration is within tolerance of the expected one (an
/// unknown or zero expectation accepts any duration).
pub open spec fn within_tolerance(duration: u32, expected: Option<u32>) -> bool {
    match expected {
        Some(e) => e == 0 || distance(duration, e) <= DURATION_TOLERANCE_SECS,
        None => true,
    }
}

/// What the Opus/WebM probe reads from a file: its length in whole
/// seconds, its sample rate and channel count, and its title, artist and
/// album tags.
#[derive(Debug, Clone, Default)]
pub struct OpusMetadata {
    pub duration_secs: u32,
    pub sample_rate: u32,
    pub channels: u16,
    pub title: Option<String>,
    pub artist: Option<String>,
    pub album: Option<String>,
}

/// The duration the Opus probe vouches for: a non-zero duration within
/// tolerance of the expected one.
pub open spec fn opus_verdict(probed: Option<u32>, expected: Option<u32>) -> Option<u32> {
    match probed {
        Some(d) => if d > 0 && within_tolerance(d, expected) {
            Some(d)
        } else {
            None
        },
        None => None,
    }
}

fn tolerated(duration: u32, expected: Option<u32>) -> (r: bool)
    ensures
        r == within_tolerance(duration, expected),
{
    match expected {
        Some(e) => {
            let diff = if duration >= e {
                duration - e
            } else {
                e - duration
            };
            e == 0 || diff <= DURATION_TOLERANCE_SECS
        },
        None => true,
    }
}

/// Decide on the duration the Opus probe reported (`None` when the probe
/// failed): accepted when non-zero and within tolerance of the expectation.
pub fn accept_opus_duration(probed: Option<u32>, expected: Option<u32>) -> (r: Option<u32>)
    ensures
        r == opus_verdict(probed, expected),
{
    match probed {
        Some(d) => if d > 0 && tolerated(d, expected) {
            Some(d)
        } else {
            None
        },
        None => None,
    }
}

/// Audio properties the tag reader reports.
#[derive(Debug, Clone, Copy, PartialEq, Eq, Structural)]
pub struct TagFacts {
    pub duration_secs: u32,
    pub sample_rate: u32,
    pub channels: u8,
}

/// Why a file was refused.
#[derive(Debug, Clone)]
pub enum ValidationError {
    /// The staging file does not exist.
    Missing,
    /// The staging file holds no bytes.
    Empty,
    /// The tag reader could not open the file.
    ProbeOpen { detail: String },
    /// The tag reader could not tell the file type.
    Guess { detail: String },
    /// The tag reader could not parse the file, nor the Opus probe.
    Unreadable { detail: String },
    /// The tags report no duration.
    ZeroDuration,
    /// The tags report no duration for a tiny or property-less file.
    ZeroDurationDetail { size: u64, sample_rate: u32, channels: u8 },
    /// The tagged duration is too far from the expected one.
    DurationMismatch { decoded: u32, expected: u32, diff: u32 },
    /// The file could not be opened for the decoder probe.
    DecoderOpen { detail: String },
    /// The decoder refused the file, and the Opus probe did too.
    DecoderRejected { detail: String },
}

/// What the tag reader made of the file.
#[derive(Debug, Clone)]
pub enum TagRead {
    OpenFailed(String),
    GuessFailed(String),
    ReadFailed(String),
    Read(TagFacts),
}

/// What the decoder probe made of the file.
#[derive(Debug, Clone)]
pub enum DecoderProbe {
    OpenFailed(String),
    Rejected(String),
    Accepted,
}

/// An answer to the probe a state asks for.
#[derive(Debug, Clone)]
pub enum ValidationEvent {
    /// Whether the file exists, its size, and whether it starts with an
    /// EBML header.
    File { exists: bool, size: u64, ebml: bool },
    /// The Opus probe's duration, `None` when the probe failed.
    Opus(Option<u32>),
    Tags(TagRead),
    Decoder(DecoderProbe),
}

/// Where a validation stands: each waiting state names the probe to run.
#[derive(Debug)]
pub enum ValidationState {
    /// Look at the file.
    Start,
    /// Run the Opus probe on an EBML file before anything else.
    EarlyOpus { size: u64 },
    /// Read the tags.
    Tags { size: u64 },
    /// Run the Opus probe after the tag reader failed with `detail`.
    LateOpus { detail: String },
    /// Run the decoder probe on a file whose tags report `duration`.
    Decoder { duration: u32 },
    /// Run the Opus probe after the decoder failed with `detail`.
    FinalOpus { detail: String },
    /// Decided: the accepted duration, or why the file was refused.
    Done(Result<u32, ValidationError>),
}

/// What the tags alone decide.
pub open spec fn tags_verdict(facts: TagFacts, size: u64, expected: Option<u32>) -> ValidationState {
    let d = facts.duration_secs;
    if d == 0 {
        if expected is None && (size <= TINY_FILE_BYTES || facts.sample_rate == 0
            || facts.channels == 0) {
            ValidationState::Done(
                Err(
                    ValidationError::ZeroDurationDetail {
                        size,
                        sample_rate: facts.sample_rate,
                        channels: facts.channels,
                    },
                ),
            )
        } else {
            ValidationState::Done(Err(ValidationError::ZeroDuration))
        }
    } else if !within_tolerance(d, expected) {
        ValidationState::Done(
            Err(
                ValidationError::DurationMismatch {
                    decoded: d,
                    expected: expected->0,
                    diff: distance(d, expected->0) as u32,
                },
            ),
        )
    } else {
        ValidationState::Decoder { duration: d }
    }
}

/// The state after `event` answers the probe `state` asked for; an answer to
/// another probe leaves the state as it is.
pub open spec fn validation_next(
    expected: Option<u32>,
    state: ValidationState,
    event: ValidationEvent,
) -> ValidationState {
    match (state, event) {
        (ValidationState::Start, ValidationEvent::File { exists, size, ebml }) => {
            if !exists {
                ValidationState::Done(Err(ValidationError::Missing))
            } else if size == 0 {
                ValidationState::Done(Err(ValidationError::Empty))
            } else if ebml {
                ValidationState::EarlyOpus { size }
            } else {
                ValidationState::Tags { size }
            }
        },
        (ValidationState::EarlyOpus { size }, ValidationEvent::Opus(p)) => match opus_verdict(
            p,
            expected,
        ) {
            Some(d) => ValidationState::Done(Ok(d)),
            None => ValidationState::Tags { size },
        },
        (ValidationState::Tags { size }, ValidationEvent::Tags(t)) => match t {
            TagRead::OpenFailed(detail) => ValidationState::Done(
                Err(ValidationError::ProbeOpen { detail }),
            ),
            TagRead::GuessFailed(detail) => ValidationState::Done(
                Err(ValidationError::Guess { detail }),
            ),
            TagRead::ReadFailed(detail) => ValidationState::LateOpus { detail },
            TagRead::Read(facts) => tags_verdict(facts, size, expected),
        },
        (ValidationState::LateOpus { detail }, ValidationEvent::Opus(p)) => match opus_verdict(
            p,
            expected,
        ) {
            Some(d) => ValidationState::Done(Ok(d)),
            None => ValidationState::Done(Err(ValidationError::Unreadable { detail })),
        },
        (ValidationState::Decoder { duration }, ValidationEvent::Decoder(probe)) => match probe {
            DecoderProbe::OpenFailed(detail) => ValidationState::Done(
                Err(ValidationError::DecoderOpen { detail }),
            ),
            DecoderProbe::Rejected(detail) => ValidationState::FinalOpus { detail },
            DecoderProbe::Accepted => ValidationState::Done(Ok(duration)),
        },
        (ValidationState::FinalOpus { detail }, ValidationEvent::Opus(p)) => match opus_verdict(
            p,
            expected,
        ) {
            Some(d) => ValidationState::Done(Ok(d)),
            None => ValidationState::Done(Err(ValidationError::DecoderRejected { detail })),
        },
        (s, _) => s,
    }
}

/// Probes left at most before a decision.
pub open spec fn rank(state: ValidationState) -> nat {
    match state {
        ValidationState::Start => 5,
        ValidationState::EarlyOpus { .. } => 4,
        ValidationState::Tags { .. } => 3,
        ValidationState::LateOpus { .. } => 1,
        ValidationState::Decoder { .. } => 2,
        ValidationState::FinalOpus { .. } => 1,
        ValidationState::Done(_) => 0,
    }
}

/// Whether `event` answers the probe `state` asks for.
pub open spec fn answers(state: ValidationState, event: ValidationEvent) -> bool {
    match (state, event) {
        (ValidationState::Start, ValidationEvent::File { .. }) => true,
        (ValidationState::EarlyOpus { .. }, ValidationEvent::Opus(_)) => true,
        (ValidationState::Tags { .. }, ValidationEvent::Tags(_)) => true,
        (ValidationState::LateOpus { .. }, ValidationEvent::Opus(_)) => true,
        (ValidationState::Decoder { .. }, ValidationEvent::Decoder(_)) => true,
        (ValidationState::FinalOpus { .. }, ValidationEvent::Opus(_)) => true,
        _ => false,
    }
}

/// What a state claims of the durations it carries: any duration about to
/// be or already accepted is non-zero and within tolerance.
pub open spec fn sound(expected: Option<u32>, state: ValidationState) -> bool {
    match state {
        ValidationState::Decoder { duration } => duration > 0 && within_tolerance(
            duration,
            expected,
        ),
        ValidationState::Done(Ok(d)) => d > 0 && within_tolerance(d, expected),
        _ => true,
    }
}

/// One validation of one file.
pub struct Validator {
    /// The duration the download announced, if any.
    pub expected: Option<u32>,
    pub state: ValidationState,
}

impl Validator {
    /// A validation of a file expected to last `expected` seconds.
    pub fn new(expected: Option<u32>) -> (r: Self)
        ensures
            r.expected == expected,
            r.state == ValidationState::Start,
    {
        Validator { expected, state: ValidationState::Start }
    }

    /// Take the answer to the current probe.
    pub fn step(&mut self, event: ValidationEvent)
        ensures
            final(self).expected == old(self).expected,
            final(self).state == validation_next(old(self).expected, old(self).state, event),
    {
        let expected = self.expected;
        let mut state = ValidationState::Start;
        std::mem::swap(&mut state, &mut self.state);
        let next = match (state, event) {
            (ValidationState::Start, ValidationEvent::File { exists, size, ebml }) => {
                if !exists {
                    ValidationState::Done(Err(ValidationError::Missing))
                } else if size == 0 {
                    ValidationState::Done(Err(ValidationError::Empty))
                } else if ebml {
                    ValidationState::EarlyOpus { size }
                } else {
                    ValidationState::Tags { size }
                }
            },
            (ValidationState::EarlyOpus { size }, ValidationEvent::Opus(p)) => {
                match accept_opus_duration(p, expected) {
                    Some(d) => ValidationState::Done(Ok(d)),
                    None => ValidationState::Tags { size },
                }
            },
            (ValidationState::Tags { size }, ValidationEvent::Tags(t)) => match t {
                TagRead::OpenFailed(detail) => ValidationState::Done(
                    Err(ValidationError::ProbeOpen { detail }),
                ),
                TagRead::GuessFailed(detail) => ValidationState::Done(
                    Err(ValidationError::Guess { detail }),
                ),
                TagRead::ReadFailed(detail) => ValidationState::LateOpus { detail },
                TagRead::Read(facts) => judge_tags(facts, size, expected),
            },
            (ValidationState::LateOpus { detail }, ValidationEvent::Opus(p)) => {
                match accept_opus_duration(p, expected) {
                    Some(d) => ValidationState::Done(Ok(d)),
                    None => ValidationState::Done(Err(ValidationError::Unreadable { detail })),
                }
            },
            (ValidationState::Decoder { duration }, ValidationEvent::Decoder(probe)) => {
                match probe {
                    DecoderProbe::OpenFailed(detail) => ValidationState::Done(
                        Err(ValidationError::DecoderOpen { detail }),
                    ),
                    DecoderProbe::Rejected(detail) => ValidationState::FinalOpus { detail },
                    DecoderProbe::Accepted => ValidationState::Done(Ok(duration)),
                }
            },
            (ValidationState::FinalOpus { detail }, ValidationEvent::Opus(p)) => {
                match accept_opus_duration(p, expected) {
                    Some(d) => ValidationState::Done(Ok(d)),
                    None => ValidationState::Done(
                        Err(ValidationError::DecoderRejected { detail }),
                    ),
                }
            },
            (s, _) => s,
        };
        self.state = next;
    }

    /// The decision, once there is one.
    pub fn outcome(&self) -> (r: Option<&Result<u32, ValidationError>>)
        ensures
            match self.state {
                ValidationState::Done(res) => r == Some(&res),
                _ => r is None,
            },
    {
        match &self.state {
            ValidationState::Done(res) => Some(res),
            _ => None,
        }
    }
}

/// What the tags alone decide.
pub fn judge_tags(facts: TagFacts, size: u64, expected: Option<u32>) -> (r: ValidationState)
    ensures
        r == tags_verdict(facts, size, expected),
{
    let d = facts.duration_secs;
    if d == 0 {
        if expected.is_none() && (size <= TINY_FILE_BYTES || facts.sample_rate == 0
            || facts.channels == 0) {
            return ValidationState::Done(
                Err(
                    ValidationError::ZeroDurationDetail {
                        size,
                        sample_rate: facts.sample_rate,
                        channels: facts.channels,
                    },
                ),
            );
        }
        return ValidationState::Done(Err(ValidationError::ZeroDuration));
    }
    if !tolerated(d, expected) {
        let e = match expected {
            Some(e) => e,
            None => 0,
        };
        let diff = if d >= e {
            d - e
        } else {
            e - d
        };
        return ValidationState::Done(
            Err(ValidationError::DurationMismatch { decoded: d, expected: e, diff }),
        );
    }
    ValidationState::Decoder { duration: d }
}

/// Every answered probe brings the decision closer: at most five probes
/// decide any file.
pub proof fn law_each_answer_progresses(
    expected: Option<u32>,
    state: ValidationState,
    event: ValidationEvent,
)
    requires
        answers(state, event),
    ensures
        rank(validation_next(expected, state, event)) < rank(state),
{
}

/// Acceptance is sound at every step: a duration is only ever accepted when
/// it is non-zero and within tolerance of the expected duration.
pub proof fn law_accepted_duration_is_plausible(
    expected: Option<u32>,
    state: ValidationState,
    event: ValidationEvent,
)
    requires
        sound(expected, state),
    ensures
        sound(expected, validation_next(expected, state, event)),
{
}

/// A missing or empty file is refused at once, whatever else is known.
pub proof fn law_empty_file_refused(expected: Option<u32>, exists: bool, size: u64, ebml: bool)
    ensures
        !exists ==> validation_next(
            expected,
            ValidationState::Start,
            ValidationEvent::File { exists, size, ebml },
        ) == ValidationState::Done(Err(ValidationError::Missing)),
        exists && size == 0 ==> validation_next(
            expected,
            ValidationState::Start,
            ValidationEvent::File { exists, size, ebml },
        ) == ValidationState::Done(Err(ValidationError::Empty)),
{
}

/// The text a refusal is reported with, for the file at `path`.
pub open spec fn refusal_text(e: ValidationError, path: Seq<char>) -> Seq<char> {
    match e {
        ValidationError::Missing => "Staging file does not exist: "@ + path,
        ValidationError::Empty => "Staging file is empty (0 bytes)"@,
        ValidationError::ProbeOpen { detail } => "Failed to open file for lofty probe: "@ + detail@,
        ValidationError::Guess { detail } => "Failed to guess audio file type: "@ + detail@,
        ValidationError::Unreadable { detail } => "Corrupt or unreadable audio headers: "@ + detail@,
        ValidationError::ZeroDuration => zero_duration_text(),
        ValidationError::ZeroDurationDetail { size, sample_rate, channels } => zero_duration_text()
            + " (size="@ + decimal(size as nat) + " bytes, sample_rate="@ + decimal(
            sample_rate as nat,
        ) + ", channels="@ + decimal(channels as nat) + ")"@,
        ValidationError::DurationMismatch { decoded, expected, diff } => "Decoded duration ("@
            + decimal(decoded as nat) + "s) differs by > 5s from expected duration ("@ + decimal(
            expected as nat,
        ) + "s, diff="@ + decimal(diff as nat) + "s)"@,
        ValidationError::DecoderOpen { detail } => "Failed to open file for decoder probe: "@
            + detail@,
        ValidationError::DecoderRejected { detail } => "Decoder probe failed for "@ + path + ": "@
            + detail@,
    }
}

/// The refusal of a file whose tags report no duration.
pub open spec fn zero_duration_text() -> Seq<char> {
    "Decoded duration is 0s — file has unreadable atom index tables or is truncated"@
}

impl ValidationError {
    /// The text this refusal is reported with, for the file at `path`.
    pub fn message(&self, path: &str) -> (r: String)
        ensures
            r@ == refusal_text(*self, path@),
    {
        let mut out: Vec<char> = Vec::new();
        match self {
            ValidationError::Missing => {
                push_str(&mut out, "Staging file does not exist: ");
                push_str(&mut out, path);
            },
            ValidationError::Empty => push_str(&mut out, "Staging file is empty (0 bytes)"),
            ValidationError::ProbeOpen { detail } => {
                push_str(&mut out, "Failed to open file for lofty probe: ");
                push_str(&mut out, detail.as_str());
            },
            ValidationError::Guess { detail } => {
                push_str(&mut out, "Failed to guess audio file type: ");
                push_str(&mut out, detail.as_str());
            },
            ValidationError::Unreadable { detail } => {
                push_str(&mut out, "Corrupt or unreadable audio headers: ");
                push_str(&mut out, detail.as_str());
            },
            ValidationError::ZeroDuration => push_str(
                &mut out,
                "Decoded duration is 0s — file has unreadable atom index tables or is truncated",
            ),
            ValidationError::ZeroDurationDetail { size, sample_rate, channels } => {
                push_str(
                    &mut out,
                    "Decoded duration is 0s — file has unreadable atom index tables or is truncated",
                );
                push_str(&mut out, " (size=");
                push_decimal(&mut out, *size);
                push_str(&mut out, " bytes, sample_rate=");
                push_decimal(&mut out, *sample_rate as u64);
                push_str(&mut out, ", channels=");
                push_decimal(&mut out, *channels as u64);
                push_str(&mut out, ")");
            },
            ValidationError::DurationMismatch { decoded, expected, diff } => {
                push_str(&mut out, "Decoded duration (");
                push_decimal(&mut out, *decoded as u64);
                push_str(&mut out, "s) differs by > 5s from expected duration (");
                push_decimal(&mut out, *expected as u64);
                push_str(&mut out, "s, diff=");
                push_decimal(&mut out, *diff as u64);
                push_str(&mut out, "s)");
            },
            ValidationError::DecoderOpen { detail } => {
                push_str(&mut out, "Failed to open file for decoder probe: ");
                push_str(&mut out, detail.as_str());
            },
            ValidationError::DecoderRejected { detail } => {
                push_str(&mut out, "Decoder probe failed for ");
                push_str(&mut out, path);
                push_str(&mut out, ": ");
                push_str(&mut out, detail.as_str());
            },
        }
        assert(out@ =~= refusal_text(*self, path@));
        string_of(&out)
    }
}

} // verus!
