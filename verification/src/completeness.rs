//! Download completeness judged by *decoded* length.
//!
//! A truncated download can still carry the full track length in its
//! container header, so a finished file is judged by the length a decoder
//! actually finds. The threshold is deliberately loose: a file must be more
//! than 10% short (after two seconds of slack) before it is rejected, and
//! tracks shorter than 20 seconds are only rejected when nothing decodes.
use vstd::prelude::*;
use crate::mp4::tables::sat;

verus! {

/// A file must be at least this percentage of its expected length.
pub const MIN_DECODABLE_PCT: u64 = 90;

/// Absolute slack, in seconds, absorbing decoder rounding.
pub const DURATION_SLACK_SECS: u64 = 2;

/// Tracks shorter than this are only checked for an empty decode.
pub const MIN_DURATION_FOR_PCT_CHECK_SECS: u64 = 20;

/// Why a finished download is judged truncated.
#[derive(Debug, Clone, Copy, PartialEq, Eq, Structural)]
pub enum Truncation {
    /// The container opened but no audio decoded at all.
    NothingDecoded { expected_secs: u32 },
    /// Only `decoded` of `expected` seconds are present; `missing_pct` is
    /// the share reported as missing.
    Short { decoded: u64, expected: u64, missing_pct: u64 },
}

/// Whether `decoded` seconds is materially short of `expected`.
pub open spec fn too_short(decoded: u64, expected: u64) -> bool {
    sat(sat(decoded * 100) + DURATION_SLACK_SECS * 100) < sat(expected * MIN_DECODABLE_PCT)
        && expected >= MIN_DURATION_FOR_PCT_CHECK_SECS
}

/// The share of the track reported missing.
pub open spec fn missing_pct(decoded: u64, expected: u64) -> u64 {
    let have = sat(decoded * 100) / (if expected > 1 {
        expected
    } else {
        1
    });
    if have > 100 {
        0
    } else {
        (100 - have) as u64
    }
}

/// The verdict on a finished download, given the length the resolver
/// expected and the length a decoder found (`None` when no decoder could
/// open the container).
pub open spec fn decoded_verdict(expected: Option<u32>, decoded: Option<u64>) -> Result<
    Option<u64>,
    Truncation,
> {
    match expected {
        None => Ok(None),
        Some(e) => if e == 0 {
            Ok(None)
        } else {
            match decoded {
                None => Ok(None),
                Some(d) => if d == 0 {
                    Err(Truncation::NothingDecoded { expected_secs: e })
                } else if too_short(d, e as u64) {
                    Err(
                        Truncation::Short {
                            decoded: d,
                            expected: e as u64,
                            missing_pct: missing_pct(d, e as u64),
                        },
                    )
                } else {
                    Ok(Some(d))
                },
            }
        },
    }
}

/// Whether the decoded length is needed at all: only a positive expected
/// length can be compared against.
pub fn needs_decoded_length(expected_duration_secs: Option<u32>) -> (r: bool)
    ensures
        r == (expected_duration_secs matches Some(e) && e > 0),
{
    match expected_duration_secs {
        Some(e) => e > 0,
        None => false,
    }
}

/// Verify a finished download against the duration the resolver reported,
/// using the decoded length rather than container metadata.
///
/// * `Ok(Some(decoded_secs))`: verified.
/// * `Ok(None)`: nothing to compare against, or no decoder available.
/// * `Err(_)`: truncated; the caller must discard the file.
pub fn verify_decoded_duration(expected_duration_secs: Option<u32>, decoded_secs: Option<u64>) -> (r:
    Result<Option<u64>, Truncation>)
    ensures
        r == decoded_verdict(expected_duration_secs, decoded_secs),
{
    let expected = match expected_duration_secs {
        Some(e) => {
            if e == 0 {
                return Ok(None);
            }
            e
        },
        None => return Ok(None),
    };
    let decoded = match decoded_secs {
        Some(d) => d,
        None => return Ok(None),
    };
    if decoded == 0 {
        return Err(Truncation::NothingDecoded { expected_secs: expected });
    }
    let expected_u64 = expected as u64;
    let scaled = match decoded.checked_mul(100) {
        Some(v) => v,
        None => u64::MAX,
    };
    let needed = match expected_u64.checked_mul(MIN_DECODABLE_PCT) {
        Some(v) => v,
        None => u64::MAX,
    };
    let pct_short = scaled.saturating_add(DURATION_SLACK_SECS * 100) < needed;
    if pct_short && expected_u64 >= MIN_DURATION_FOR_PCT_CHECK_SECS {
        let divisor = if expected_u64 > 1 {
            expected_u64
        } else {
            1
        };
        let have = scaled / divisor;
        let missing = 100u64.saturating_sub(have);
        return Err(Truncation::Short { decoded, expected: expected_u64, missing_pct: missing });
    }
    Ok(Some(decoded))
}

/// A download is only ever refused against a positive expected length and
/// a decoder's measurement; a file that decodes to nothing is always
/// refused then; a file whose decoded length reaches a positive expected length is
/// never refused; and an accepted measurement is passed on unchanged.
pub proof fn law_refusal_needs_evidence(expected: Option<u32>, decoded: Option<u64>)
    ensures
        decoded_verdict(expected, decoded) is Err ==> (expected matches Some(e) && e > 0)
            && decoded is Some,
        (expected matches Some(e) && e > 0) && decoded == Some(0u64) ==> decoded_verdict(
            expected,
            decoded,
        ) is Err,
        (expected matches Some(e) && (e > 0 && (decoded matches Some(d) && d >= e))) ==> decoded_verdict(
            expected,
            decoded,
        ) == Ok::<Option<u64>, Truncation>(Some(decoded->0)),
        decoded_verdict(expected, decoded) matches Ok(Some(d)) ==> decoded == Some(d),
{
    if let (Some(e), Some(d)) = (expected, decoded) {
        if d > 0 && d >= e && e > 0 {
            assert(d * 100 >= e * 100) by (nonlinear_arith)
                requires
                    d >= e,
            ;
            assert(e * 90 <= e * 100) by (nonlinear_arith)
                requires
                    e >= 0,
            ;
            assert(e * 90 <= u32::MAX * 90) by (nonlinear_arith)
                requires
                    e <= u32::MAX,
            ;
            assert(sat(e as u64 * MIN_DECODABLE_PCT) == e * 90);
            assert(sat(d * 100) >= e * 90);
            assert(!too_short(d, e as u64));
        }
    }
}

} // verus!
