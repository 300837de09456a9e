use auralis::player::{
    current_position, establish_start, resume_step, sink_snapshot, EstablishedStart, PlayerState,
    ResumeStep, SinkFacts,
};
use auralis::queue::{PlayerError, PlayerTrack, RepeatMode};

const SEC: u128 = 1_000_000_000;

fn track(title: &str, secs: u32) -> PlayerTrack<String> {
    PlayerTrack { item: title.to_string(), duration_secs: secs }
}

/// Track 0 of a two-track queue is current and shown, with a 4:26 length.
fn seeded() -> PlayerState<String> {
    let mut player = PlayerState::new();
    player.set_queue(vec![track("Previous", 266), track("Queued", 180)]);
    player.set_current_index(Some(0));
    player.commit_start(
        Some(track("Previous", 266)),
        EstablishedStart { duration: 266 * SEC, decoded: None },
    );
    player
}

fn state_message(r: Result<ResumeStep, PlayerError>) -> String {
    match r {
        Err(PlayerError::StateError(m)) => m,
        other => panic!("expected a StateError, got {other:?}"),
    }
}

#[test]
fn resume_without_a_sink_reports_an_error() {
    let message = state_message(resume_step(None, false));
    assert!(message.contains("nothing to resume"), "unexpected error message: {message}");
    assert_eq!(sink_snapshot(None), (false, true));
}

#[test]
fn resume_after_stop_reports_an_error() {
    // Stopping takes the sink away while the track stays shown.
    let player = seeded();
    assert!(player.current_track().is_some());
    let message = state_message(resume_step(None, false));
    assert!(message.contains("nothing to resume"), "unexpected error message: {message}");
    assert_eq!(sink_snapshot(None).0, false);
}

#[test]
fn resume_of_a_finished_or_running_sink() {
    let finished = SinkFacts { paused: true, empty: true };
    assert_eq!(
        state_message(resume_step(Some(finished), false)),
        "nothing to resume: the track already finished"
    );
    let running = SinkFacts { paused: false, empty: false };
    assert_eq!(resume_step(Some(running), true).unwrap(), ResumeStep::AlreadyPlaying);
    let paused = SinkFacts { paused: true, empty: false };
    assert_eq!(resume_step(Some(paused), true).unwrap(), ResumeStep::Play);
    assert_eq!(resume_step(Some(running), false).unwrap(), ResumeStep::Play);
    assert_eq!(sink_snapshot(Some(running)), (true, false));
    assert_eq!(sink_snapshot(Some(paused)), (false, false));
}

#[test]
fn play_track_that_cannot_start_keeps_the_previous_track() {
    let mut player = seeded();
    let duration_before = player.duration();
    let previous = player.point_at(1);
    player.start_failed(previous);
    let current = player.current_track().as_ref().expect("a failed start must not clear the track");
    assert_eq!(current.item, "Previous");
    assert_eq!(current.duration_secs, 266);
    assert_eq!(player.duration(), duration_before);
    assert_eq!(player.queue().get_current_index(), Some(0));
    assert_eq!(player.queue().get_queue()[0].duration_secs, 266);
}

#[test]
fn commit_start_publishes_the_established_track() {
    let mut player = PlayerState::new();
    player.set_queue(vec![track("Incoming", 30)]);
    player.set_current_index(Some(0));
    let start = establish_start(30 * SEC, Some(92 * SEC));
    assert_eq!(start, EstablishedStart { duration: 92 * SEC, decoded: Some(92 * SEC) });
    player.commit_start(Some(track("Incoming", 30)), start);
    assert_eq!(player.duration(), 92 * SEC);
    let current = player.current_track().as_ref().expect("the commit must publish the track");
    assert_eq!(current.item, "Incoming");
    assert_eq!(current.duration_secs, 92);
    assert_eq!(player.queue().get_queue()[0].duration_secs, 92);
}

#[test]
fn commit_start_without_a_decoder_opinion_leaves_the_queue_entry_alone() {
    let mut player = seeded();
    let start = EstablishedStart { duration: 42 * SEC, decoded: None };
    player.commit_start(Some(track("Incoming", 42)), start);
    assert_eq!(player.duration(), 42 * SEC);
    let current = player.current_track().as_ref().unwrap();
    assert_eq!(current.item, "Incoming");
    assert_eq!(current.duration_secs, 42);
    let queue = player.queue().get_queue();
    assert_eq!(queue[0].item, "Previous");
    assert_eq!(queue[0].duration_secs, 266);
}

#[test]
fn commit_start_without_a_track_refreshes_only_the_duration() {
    let mut player = seeded();
    let start = EstablishedStart { duration: 300 * SEC, decoded: Some(300 * SEC) };
    player.commit_start(None, start);
    assert_eq!(player.duration(), 300 * SEC);
    let current = player.current_track().as_ref().expect("a bare-path commit must not clear the track");
    assert_eq!(current.item, "Previous");
    assert_eq!(current.duration_secs, 300);
}

#[test]
fn next_moves_the_queue_index_before_starting_the_track() {
    let mut player = seeded();
    let idx = player.queue_mut().plan_next(false).expect("a next entry");
    assert_eq!(idx, 1);
    let previous = player.point_at(idx);
    assert_eq!(player.queue().get_current_index(), Some(1));
    player.start_failed(previous);
    assert_eq!(player.queue().get_current_index(), Some(0));
}

#[test]
fn next_wrapping_to_the_start_moves_the_index_before_starting_the_track() {
    let mut player = seeded();
    player.set_current_index(Some(1));
    player.queue_mut().set_repeat_mode(RepeatMode::All);
    let idx = player.queue_mut().plan_next(false).expect("a wrapped next entry");
    assert_eq!(idx, 0);
    let previous = player.point_at(idx);
    assert_eq!(player.queue().get_current_index(), Some(0));
    player.start_failed(previous);
    assert_eq!(player.queue().get_current_index(), Some(1));
}

#[test]
fn previous_moves_the_queue_index_before_starting_the_track() {
    let mut player = seeded();
    player.set_current_index(Some(1));
    let idx = player.queue_mut().plan_previous().expect("a previous entry");
    assert_eq!(idx, 0);
    let previous = player.point_at(idx);
    assert_eq!(player.queue().get_current_index(), Some(0));
    player.start_failed(previous);
    assert_eq!(player.queue().get_current_index(), Some(1));
}

#[test]
fn previous_wrapping_to_the_end_moves_the_index_before_starting_the_track() {
    let mut player = seeded();
    player.queue_mut().set_repeat_mode(RepeatMode::All);
    let idx = player.queue_mut().plan_previous().expect("a wrapped previous entry");
    assert_eq!(idx, 1);
    let previous = player.point_at(idx);
    assert_eq!(player.queue().get_current_index(), Some(1));
    player.start_failed(previous);
    assert_eq!(player.queue().get_current_index(), Some(0));
}

#[test]
fn a_successful_start_restamps_the_incoming_entry_only() {
    let mut player = seeded();
    let previous = player.point_at(1);
    assert_eq!(previous, Some(0));
    player.commit_start(Some(track("Queued", 180)), establish_start(180 * SEC, Some(200 * SEC)));
    let queue = player.queue().get_queue();
    assert_eq!(queue[0].duration_secs, 266);
    assert_eq!(queue[1].duration_secs, 200);
    assert_eq!(player.current_track().as_ref().unwrap().duration_secs, 200);
}

#[test]
fn the_position_is_capped_at_a_known_length() {
    assert_eq!(current_position(10 * SEC, 5 * SEC, 0), 15 * SEC);
    assert_eq!(current_position(10 * SEC, 5 * SEC, 12 * SEC), 12 * SEC);
    assert_eq!(current_position(1, 2, 12 * SEC), 3);
}
