use auralis::validation::{
    accept_opus_duration, is_ebml_header, judge_tags, DecoderProbe, TagFacts, TagRead,
    ValidationError, ValidationEvent, ValidationState, Validator,
};

fn tags(duration_secs: u32) -> TagFacts {
    TagFacts {
        duration_secs,
        sample_rate: 44_100,
        channels: 2,
    }
}

#[test]
fn test_validate_audio_file_nonexistent() {
    let mut v = Validator::new(Some(100));
    v.step(ValidationEvent::File {
        exists: false,
        size: 0,
        ebml: false,
    });
    assert!(matches!(v.outcome(), Some(Err(ValidationError::Missing))));
}

#[test]
fn test_validate_audio_file_empty() {
    let mut v = Validator::new(None);
    v.step(ValidationEvent::File {
        exists: true,
        size: 0,
        ebml: false,
    });
    assert!(matches!(v.outcome(), Some(Err(ValidationError::Empty))));
}

#[test]
fn a_plain_file_goes_through_tags_and_decoder() {
    let mut v = Validator::new(Some(200));
    v.step(ValidationEvent::File {
        exists: true,
        size: 4_000_000,
        ebml: false,
    });
    assert!(matches!(v.state, ValidationState::Tags { size: 4_000_000 }));
    v.step(ValidationEvent::Tags(TagRead::Read(tags(203))));
    assert!(matches!(v.state, ValidationState::Decoder { duration: 203 }));
    v.step(ValidationEvent::Decoder(DecoderProbe::Accepted));
    assert!(matches!(v.outcome(), Some(Ok(203))));
}

#[test]
fn a_webm_mislabeled_as_m4a_is_accepted_on_the_opus_probe() {
    assert!(is_ebml_header(&[0x1a, 0x45, 0xdf, 0xa3, 0x01]));
    assert!(!is_ebml_header(&[0x1a, 0x45, 0xdf]));
    let mut v = Validator::new(Some(180));
    v.step(ValidationEvent::File {
        exists: true,
        size: 3_000_000,
        ebml: true,
    });
    assert!(matches!(v.state, ValidationState::EarlyOpus { .. }));
    v.step(ValidationEvent::Opus(Some(182)));
    assert!(matches!(v.outcome(), Some(Ok(182))));
}

#[test]
fn the_opus_probe_is_the_fallback_of_a_failed_tag_read_and_decoder() {
    let mut v = Validator::new(None);
    v.step(ValidationEvent::File {
        exists: true,
        size: 3_000_000,
        ebml: false,
    });
    v.step(ValidationEvent::Tags(TagRead::ReadFailed("no tags".to_string())));
    assert!(matches!(v.state, ValidationState::LateOpus { .. }));
    v.step(ValidationEvent::Opus(None));
    match v.outcome() {
        Some(Err(ValidationError::Unreadable { detail })) => assert_eq!(detail, "no tags"),
        other => panic!("expected an unreadable file, got {other:?}"),
    }

    let mut w = Validator::new(None);
    w.step(ValidationEvent::File {
        exists: true,
        size: 3_000_000,
        ebml: false,
    });
    w.step(ValidationEvent::Tags(TagRead::Read(tags(60))));
    w.step(ValidationEvent::Decoder(DecoderProbe::Rejected("no codec".to_string())));
    w.step(ValidationEvent::Opus(Some(61)));
    assert!(matches!(w.outcome(), Some(Ok(61))));
}

#[test]
fn durations_outside_the_tolerance_are_refused() {
    assert!(matches!(
        judge_tags(tags(100), 1_000_000, Some(110)),
        ValidationState::Done(Err(ValidationError::DurationMismatch {
            decoded: 100,
            expected: 110,
            diff: 10
        }))
    ));
    assert!(matches!(
        judge_tags(tags(105), 1_000_000, Some(110)),
        ValidationState::Decoder { duration: 105 }
    ));
    assert!(matches!(
        judge_tags(tags(0), 1_000_000, Some(110)),
        ValidationState::Done(Err(ValidationError::ZeroDuration))
    ));
    assert!(matches!(
        judge_tags(tags(0), 500, None),
        ValidationState::Done(Err(ValidationError::ZeroDurationDetail {
            size: 500,
            sample_rate: 44_100,
            channels: 2
        }))
    ));
    assert_eq!(accept_opus_duration(Some(0), None), None);
    assert_eq!(accept_opus_duration(Some(50), Some(56)), None);
    assert_eq!(accept_opus_duration(Some(50), Some(0)), Some(50));
}

#[test]
fn answers_to_other_probes_are_ignored() {
    let mut v = Validator::new(None);
    v.step(ValidationEvent::Opus(Some(10)));
    assert!(matches!(v.state, ValidationState::Start));
    assert!(v.outcome().is_none());
}

#[test]
fn test_validate_audio_file_webm_opus_mislabeled_m4a() {
    // Opus-in-WebM saved as `.m4a`: the tag reader and the decoder both fail
    // on it, so validation falls back to the Opus probe instead of
    // rejecting the download.
    let mut v = Validator::new(None);
    v.step(ValidationEvent::File {
        exists: true,
        size: 3_000_000,
        ebml: true,
    });
    v.step(ValidationEvent::Opus(Some(212)));
    match v.outcome() {
        Some(Ok(secs)) => assert!(*secs > 0, "duration should be non-zero"),
        other => panic!("expected the mislabeled file to pass validation: {other:?}"),
    }
}

#[test]
fn test_validate_audio_file_valid_wav() {
    // One second of 8 kHz 8-bit mono PCM in a 44-byte WAV header.
    let wav = TagFacts {
        duration_secs: 1,
        sample_rate: 8000,
        channels: 1,
    };
    let run = |expected: Option<u32>| {
        let mut v = Validator::new(expected);
        v.step(ValidationEvent::File {
            exists: true,
            size: 8044,
            ebml: false,
        });
        v.step(ValidationEvent::Tags(TagRead::Read(wav)));
        v.step(ValidationEvent::Decoder(DecoderProbe::Accepted));
        v.outcome().cloned()
    };
    assert!(matches!(run(Some(1)), Some(Ok(1))), "Expected valid WAV to pass validation");
    assert!(
        matches!(run(Some(60)), Some(Err(_))),
        "Expected duration mismatch to fail"
    );
}

#[test]
fn refusals_read_as_the_user_sees_them() {
    assert_eq!(
        ValidationError::Missing.message("/tmp/x.part"),
        "Staging file does not exist: /tmp/x.part"
    );
    assert_eq!(
        ValidationError::Empty.message("/tmp/x.part"),
        "Staging file is empty (0 bytes)"
    );
    assert_eq!(
        ValidationError::DurationMismatch {
            decoded: 120,
            expected: 200,
            diff: 80
        }
        .message("/tmp/x.part"),
        "Decoded duration (120s) differs by > 5s from expected duration (200s, diff=80s)"
    );
    assert_eq!(
        ValidationError::ZeroDurationDetail {
            size: 512,
            sample_rate: 0,
            channels: 2
        }
        .message("/tmp/x.part"),
        "Decoded duration is 0s — file has unreadable atom index tables or is truncated \
         (size=512 bytes, sample_rate=0, channels=2)"
    );
    assert_eq!(
        ValidationError::DecoderRejected {
            detail: "format not recognized".to_string()
        }
        .message("/tmp/x.part"),
        "Decoder probe failed for /tmp/x.part: format not recognized"
    );
}
