use auralis::queue::{reconcile_duration, PlaybackQueue, PlayerError, RepeatMode};
use std::time::Duration;

fn nanos(d: Duration) -> u128 {
    d.as_nanos()
}

#[test]
fn reconcile_never_shortens_a_known_duration() {
    // The real case: container says 4:26, rodio says 1:32.
    let db = Duration::from_secs(266);
    let decoded = Duration::from_secs(92);
    assert_eq!(reconcile_duration(nanos(db), Some(nanos(decoded))), nanos(db));
}

#[test]
fn reconcile_uses_the_decoder_when_the_library_has_nothing() {
    assert_eq!(
        reconcile_duration(nanos(Duration::ZERO), Some(nanos(Duration::from_secs(92)))),
        nanos(Duration::from_secs(92))
    );
}

#[test]
fn reconcile_raises_the_duration_when_the_decoder_claims_more() {
    assert_eq!(
        reconcile_duration(
            nanos(Duration::from_secs(30)),
            Some(nanos(Duration::from_secs(92)))
        ),
        nanos(Duration::from_secs(92))
    );
}

#[test]
fn reconcile_keeps_the_library_value_without_a_decoder_opinion() {
    assert_eq!(
        reconcile_duration(nanos(Duration::from_secs(266)), None),
        nanos(Duration::from_secs(266))
    );
}

fn queue_of(n: usize) -> PlaybackQueue<String> {
    let mut q = PlaybackQueue::new();
    q.set_queue((0..n).map(|i| format!("track-{i}")).collect());
    q
}

#[test]
fn next_and_previous_walk_the_queue_in_order() {
    let mut q = queue_of(3);
    assert_eq!(q.plan_next(false), Some(0));
    q.set_current_index(Some(0));
    assert_eq!(q.plan_next(false), Some(1));
    q.set_current_index(Some(2));
    assert_eq!(q.plan_next(false), None);
    q.set_repeat_mode(RepeatMode::All);
    assert_eq!(q.plan_next(false), Some(0));
    q.set_current_index(Some(0));
    assert_eq!(q.plan_previous(), Some(2));
    q.set_repeat_mode(RepeatMode::Off);
    assert_eq!(q.plan_previous(), Some(0));
}

#[test]
fn repeat_one_replays_only_on_automatic_advance() {
    let mut q = queue_of(3);
    q.set_current_index(Some(1));
    q.set_repeat_mode(RepeatMode::One);
    assert_eq!(q.plan_next(true), Some(1));
    assert_eq!(q.plan_next(false), Some(2));
    assert_eq!(q.plan_previous(), Some(1));
}

#[test]
fn an_empty_queue_plans_nothing() {
    let mut q: PlaybackQueue<String> = PlaybackQueue::new();
    assert_eq!(q.plan_next(false), None);
    assert_eq!(q.plan_previous(), None);
    assert_eq!(q.len(), 0);
}

#[test]
fn shuffle_never_repeats_within_a_session_on_two_tracks() {
    let mut q = queue_of(2);
    q.set_shuffle(true);
    q.set_current_index(Some(0));
    let next = q.plan_next(false);
    assert_eq!(next, Some(1));
}

#[test]
fn removing_before_the_current_entry_keeps_it_current() {
    let mut q = queue_of(4);
    q.set_current_index(Some(2));
    let removed = q.remove_from_queue(0).unwrap();
    assert_eq!(removed, "track-0");
    assert_eq!(q.get_current_index(), Some(1));
    assert_eq!(q.track_at(1).map(|s| s.as_str()), Some("track-2"));
    match q.remove_from_queue(9) {
        Err(PlayerError::StateError(m)) => assert_eq!(m, "Queue index out of bounds"),
        other => panic!("expected an out-of-bounds error, got {other:?}"),
    }
}

#[test]
fn play_next_inserts_after_the_current_entry() {
    let mut q = queue_of(3);
    q.set_current_index(Some(0));
    q.play_next("urgent".to_string());
    assert_eq!(q.track_at(1).map(|s| s.as_str()), Some("urgent"));
    q.add_to_queue("last".to_string());
    assert_eq!(q.len(), 5);
    assert_eq!(q.get_queue()[4], "last");
    q.clear_queue();
    assert_eq!(q.len(), 0);
    assert_eq!(q.get_current_index(), None);
}

#[test]
fn shuffle_history_steps_back_through_the_session() {
    let mut q: PlaybackQueue<u32> = PlaybackQueue::new();
    q.set_queue(vec![10, 11, 12, 13]);
    q.set_current_index(Some(0));
    q.set_repeat_mode(RepeatMode::All);
    assert_eq!(q.get_repeat_mode(), RepeatMode::All);
    q.set_shuffle(true);
    assert!(q.get_shuffle());
    q.record_shuffle_history(Some(0), 2);
    q.set_current_index(Some(2));
    q.record_shuffle_history(Some(2), 3);
    q.set_current_index(Some(3));
    // Going back pops the current position and lands on the one before.
    assert_eq!(q.plan_previous(), Some(2));
    q.set_current_index(Some(2));
    assert_eq!(q.plan_previous(), Some(0));
    // Once the session is over, the first previous is a random other entry.
    q.end_shuffle_session();
    let back = q.plan_previous().unwrap();
    assert!(back < 4);
    assert!(q.get_shuffle());
}

fn shuffled(len: usize, current: Option<usize>, repeat: RepeatMode) -> PlaybackQueue<usize> {
    let mut q = PlaybackQueue::new();
    q.set_queue((0..len).collect());
    q.set_current_index(current);
    q.set_repeat_mode(repeat);
    q.set_shuffle(true);
    q
}

#[test]
fn test_next_shuffle_index_single_track() {
    assert_eq!(shuffled(1, Some(0), RepeatMode::Off).plan_next(false), None);
    assert_eq!(shuffled(1, None, RepeatMode::Off).plan_next(false), Some(0));
    assert_eq!(shuffled(1, Some(0), RepeatMode::All).plan_next(false), Some(0));
}

#[test]
fn test_next_shuffle_index_repeat_all() {
    let idx = shuffled(3, Some(0), RepeatMode::All).plan_next(false);
    assert!(idx.is_some());
    assert_ne!(idx, Some(0));
    assert!(idx.unwrap() < 3);
}

#[test]
fn test_next_shuffle_index_repeat_off_exhaustion() {
    let mut q = shuffled(3, Some(0), RepeatMode::Off);
    q.record_shuffle_history(Some(0), 1);
    q.record_shuffle_history(Some(1), 2);
    assert_eq!(q.shuffle_history(), &vec![0, 1, 2]);
    q.set_current_index(Some(2));
    assert_eq!(q.plan_next(false), None);
}

#[test]
fn test_record_shuffle_history() {
    let mut q: PlaybackQueue<usize> = PlaybackQueue::new();
    q.record_shuffle_history(Some(0), 1);
    assert_eq!(q.shuffle_history(), &vec![0, 1]);
    // Recording the same next index should not duplicate it at the end
    q.record_shuffle_history(Some(1), 1);
    assert_eq!(q.shuffle_history(), &vec![0, 1]);
    // Recording a new index
    q.record_shuffle_history(Some(1), 2);
    assert_eq!(q.shuffle_history(), &vec![0, 1, 2]);
}
