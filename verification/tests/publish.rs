use auralis::publish::{
    cache_copy_name, must_delete, next_step, resolve_outcome, should_attempt_clear, ClearOutcome, CopyOutcome,
    PendingOutcome, PendingStep,
};

#[test]
fn complete_copy_clears_then_stops() {
    // The happy path stops right after a successful clear: no delete, so a
    // published row is never removed.
    assert_eq!(
        next_step(CopyOutcome::Complete, ClearOutcome::NotAttempted),
        Some(PendingStep::Clear)
    );
    assert_eq!(next_step(CopyOutcome::Complete, ClearOutcome::Updated), None);
}

#[test]
fn incomplete_copy_is_never_cleared() {
    // A truncated row must not be published, whatever the clear said.
    for clear in [
        ClearOutcome::NotAttempted,
        ClearOutcome::Updated,
        ClearOutcome::NoRows,
        ClearOutcome::Failed,
    ] {
        assert_eq!(
            next_step(CopyOutcome::Failed, clear),
            Some(PendingStep::Delete),
            "a failed copy must delete, never clear (clear = {clear:?})"
        );
    }
}

#[test]
fn unclearable_row_is_deleted_not_left_pending() {
    assert_eq!(
        next_step(CopyOutcome::Complete, ClearOutcome::Failed),
        Some(PendingStep::Delete)
    );
    assert_eq!(
        next_step(CopyOutcome::Complete, ClearOutcome::NoRows),
        Some(PendingStep::Delete)
    );
}

#[test]
fn every_copy_and_clear_combination_terminates() {
    for copy in [CopyOutcome::Complete, CopyOutcome::Failed] {
        for clear in [
            ClearOutcome::NotAttempted,
            ClearOutcome::Updated,
            ClearOutcome::NoRows,
            ClearOutcome::Failed,
        ] {
            let step = next_step(copy, clear);
            if step == Some(PendingStep::Clear) {
                assert_eq!(copy, CopyOutcome::Complete, "{copy:?}/{clear:?}");
                assert_eq!(clear, ClearOutcome::NotAttempted, "{copy:?}/{clear:?}");
            }
            // The only way out without a step is a published row.
            if step.is_none() {
                assert_eq!(copy, CopyOutcome::Complete, "{copy:?}/{clear:?}");
                assert_eq!(clear, ClearOutcome::Updated, "{copy:?}/{clear:?}");
            }
        }
    }
}

#[test]
fn a_published_row_is_visible_and_others_are_resolved() {
    assert!(should_attempt_clear(CopyOutcome::Complete));
    assert!(!should_attempt_clear(CopyOutcome::Failed));
    assert!(must_delete(CopyOutcome::Complete, ClearOutcome::NoRows));
    assert!(!must_delete(CopyOutcome::Complete, ClearOutcome::Updated));
    assert_eq!(
        resolve_outcome(CopyOutcome::Complete, ClearOutcome::Updated, false),
        PendingOutcome::Visible
    );
}

#[test]
fn only_shared_download_paths_get_a_play_cache_copy() {
    assert_eq!(
        cache_copy_name("/storage/emulated/0/Download/Auralis/song.mp3"),
        Some("song.mp3".to_string())
    );
    assert_eq!(
        cache_copy_name("content://media/external/downloads/42"),
        Some("42".to_string())
    );
    assert_eq!(cache_copy_name("/sdcard/Music/song.mp3"), None);
    assert_eq!(cache_copy_name("/storage/Download/.."), None);
    assert_eq!(
        cache_copy_name("/storage/Download/"),
        Some("Download".to_string())
    );
}
