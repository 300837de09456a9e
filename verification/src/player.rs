//! The player's own decisions around the audio output: what a start that
//! the output accepted publishes (and where a decoder's length lands), how
//! the queue position is kept when a start fails, whether a resume can do
//! anything, and where playback stands. Durations are in nanoseconds.
use vstd::prelude::*;
use crate::queue::{reconciled, PlaybackQueue, PlayerError, PlayerTrack};

verus! {

/// What the player can see of its audio sink.
#[derive(Debug, Clone, Copy, PartialEq, Eq, Structural)]
pub struct SinkFacts {
    /// Playback is paused.
    pub paused: bool,
    /// Everything queued in the sink has played.
    pub empty: bool,
}

/// A start the audio output accepted: the length to publish, and the
/// decoder's own claim when it made one.
#[derive(Debug, Clone, Copy, PartialEq, Eq, Structural)]
pub struct EstablishedStart {
    pub duration: u128,
    pub decoded: Option<u128>,
}

/// The start of a file whose library length is `library`, as accepted with
/// the decoder's claim `decoded`: the published length is the two
/// reconciled, so the decoder can only ever lengthen a known track.
pub fn establish_start(library: u128, decoded: Option<u128>) -> (r: EstablishedStart)
    ensures
        r.duration == reconciled(library, decoded),
        r.decoded == decoded,
{
    EstablishedStart { duration: crate::queue::reconcile_duration(library, decoded), decoded }
}

/// The whole seconds of `nanos`, as a `u32` (wrapped, as a cast wraps).
pub open spec fn secs_of(nanos: u128) -> u32 {
    (nanos / 1000000000) as u32
}

/// The length the published copies of the track are re-stamped with: only
/// when the decoder had something to say.
pub open spec fn mirror_secs(start: EstablishedStart) -> Option<u32> {
    match start.decoded {
        Some(_) => Some(secs_of(start.duration)),
        None => None,
    }
}

/// The track the player shows after a commit: the started track (with the
/// re-stamped length, if any); without one, the track already shown, with
/// its length refreshed when the decoder spoke.
pub open spec fn committed_current<X>(
    shown: Option<PlayerTrack<X>>,
    track: Option<PlayerTrack<X>>,
    start: EstablishedStart,
) -> Option<PlayerTrack<X>> {
    match track {
        Some(t) => match mirror_secs(start) {
            Some(s) => Some(PlayerTrack { item: t.item, duration_secs: s }),
            None => Some(t),
        },
        None => match (shown, mirror_secs(start)) {
            (Some(c), Some(s)) => Some(PlayerTrack { item: c.item, duration_secs: s }),
            _ => shown,
        },
    }
}

/// The queue entries after a commit: when the decoder spoke, the entry at
/// the current position takes the published length; otherwise nothing
/// changes.
pub open spec fn committed_entries<X>(
    entries: Seq<PlayerTrack<X>>,
    current: Option<usize>,
    start: EstablishedStart,
) -> Seq<PlayerTrack<X>> {
    match (mirror_secs(start), current) {
        (Some(s), Some(i)) => if i < entries.len() {
            entries.update(i as int, PlayerTrack { item: entries[i as int].item, duration_secs: s })
        } else {
            entries
        },
        _ => entries,
    }
}

/// The player's queue, the track it shows as playing, and that track's
/// length.
pub struct PlayerState<X> {
    queue: PlaybackQueue<PlayerTrack<X>>,
    current: Option<PlayerTrack<X>>,
    track_duration: u128,
}

impl<X> PlayerState<X> {
    /// The queue.
    pub closed spec fn queue_view(&self) -> PlaybackQueue<PlayerTrack<X>> {
        self.queue
    }

    /// The track shown as playing.
    pub closed spec fn shown(&self) -> Option<PlayerTrack<X>> {
        self.current
    }

    /// The length of the track shown as playing.
    pub closed spec fn length(&self) -> u128 {
        self.track_duration
    }

    /// A player with an empty queue, nothing shown and no length.
    pub fn new() -> (r: Self)
        ensures
            r.queue_view().entries() == Seq::<PlayerTrack<X>>::empty(),
            r.queue_view().current() is None,
            r.shown() is None,
            r.length() == 0,
    {
        PlayerState { queue: PlaybackQueue::new(), current: None, track_duration: 0 }
    }

    /// The queue.
    pub fn queue(&self) -> (r: &PlaybackQueue<PlayerTrack<X>>)
        ensures
            *r == self.queue_view(),
    {
        &self.queue
    }

    /// The queue, to plan or edit it; what is shown stays.
    pub fn queue_mut(&mut self) -> (r: &mut PlaybackQueue<PlayerTrack<X>>)
        ensures
            *r == old(self).queue_view(),
            final(self).queue_view() == *final(r),
            final(self).shown() == old(self).shown(),
            final(self).length() == old(self).length(),
    {
        &mut self.queue
    }

    /// The track shown as playing.
    pub fn current_track(&self) -> (r: &Option<PlayerTrack<X>>)
        ensures
            *r == self.shown(),
    {
        &self.current
    }

    /// The length of the track shown as playing.
    pub fn duration(&self) -> (r: u128)
        ensures
            r == self.length(),
    {
        self.track_duration
    }

    /// Replace the queue's entries; what is shown stays.
    pub fn set_queue(&mut self, tracks: Vec<PlayerTrack<X>>)
        ensures
            final(self).queue_view().entries() == tracks@,
            final(self).queue_view().current() == old(self).queue_view().current(),
            final(self).shown() == old(self).shown(),
            final(self).length() == old(self).length(),
    {
        self.queue.set_queue(tracks);
    }

    /// Move the queue position; what is shown stays.
    pub fn set_current_index(&mut self, index: Option<usize>)
        ensures
            final(self).queue_view().entries() == old(self).queue_view().entries(),
            final(self).queue_view().current() == index,
            final(self).shown() == old(self).shown(),
            final(self).length() == old(self).length(),
    {
        self.queue.set_current_index(index);
    }

    /// Point the queue at `idx` before starting the track there, so that
    /// the commit of that start re-stamps this entry; the position it
    /// replaced is handed back for `start_failed`.
    pub fn point_at(&mut self, idx: usize) -> (previous: Option<usize>)
        ensures
            previous == old(self).queue_view().current(),
            final(self).queue_view().current() == Some(idx),
            final(self).queue_view().entries() == old(self).queue_view().entries(),
            final(self).shown() == old(self).shown(),
            final(self).length() == old(self).length(),
    {
        let previous = self.queue.get_current_index();
        self.queue.set_current_index(Some(idx));
        previous
    }

    /// A start did not take: the queue position goes back to `previous`, and
    /// nothing else changes, so the queue and the player agree again on what
    /// is playing.
    pub fn start_failed(&mut self, previous: Option<usize>)
        ensures
            final(self).queue_view().current() == previous,
            final(self).queue_view().entries() == old(self).queue_view().entries(),
            final(self).shown() == old(self).shown(),
            final(self).length() == old(self).length(),
    {
        self.queue.set_current_index(previous);
    }

    /// Publish a start the output accepted: its length, the track it
    /// started (if it started one), and, when the decoder spoke, that length
    /// on the queue entry at the current position too.
    pub fn commit_start(&mut self, track: Option<PlayerTrack<X>>, start: EstablishedStart)
        ensures
            final(self).length() == start.duration,
            final(self).shown() == committed_current(old(self).shown(), track, start),
            final(self).queue_view().entries() == committed_entries(
                old(self).queue_view().entries(),
                old(self).queue_view().current(),
                start,
            ),
            final(self).queue_view().current() == old(self).queue_view().current(),
            final(self).queue_view().history() == old(self).queue_view().history(),
            final(self).queue_view().repeat() == old(self).queue_view().repeat(),
            final(self).queue_view().shuffled() == old(self).queue_view().shuffled(),
    {
        let mirror: Option<u32> = match start.decoded {
            Some(_) => {
                let secs: u128 = start.duration / 1000000000;
                Some(#[verifier::truncate] (secs as u32))
            },
            None => None,
        };
        self.track_duration = start.duration;
        match track {
            Some(t) => {
                let shown = match mirror {
                    Some(s) => PlayerTrack { item: t.item, duration_secs: s },
                    None => t,
                };
                self.current = Some(shown);
            },
            None => {
                if let Some(s) = mirror {
                    let shown = self.current.take();
                    self.current = match shown {
                        Some(c) => Some(PlayerTrack { item: c.item, duration_secs: s }),
                        None => None,
                    };
                }
            },
        }
        if let Some(s) = mirror {
            if let Some(i) = self.queue.get_current_index() {
                if i < self.queue.len() {
                    let ghost before = self.queue.entries();
                    self.queue.restamp(i, s);
                    assert(self.queue.entries() =~= before.update(
                        i as int,
                        PlayerTrack { item: before[i as int].item, duration_secs: s },
                    ));
                }
            }
        }
    }
}

/// A commit lands its length on the track that was started: after the
/// queue is pointed at `idx`, a start whose decoder spoke re-stamps exactly
/// the entry at `idx`, and every other entry keeps its own length; a start
/// without a decoder opinion changes no entry.
pub proof fn law_commit_restamps_the_incoming_entry<X>(
    entries: Seq<PlayerTrack<X>>,
    idx: usize,
    start: EstablishedStart,
)
    requires
        idx < entries.len(),
    ensures
        start.decoded is Some ==> committed_entries(entries, Some(idx), start)[idx as int]
            == (PlayerTrack { item: entries[idx as int].item, duration_secs: secs_of(start.duration) }),
        forall|j: int|
            0 <= j < entries.len() && j != idx ==> #[trigger] committed_entries(
                entries,
                Some(idx),
                start,
            )[j] == entries[j],
        committed_entries(entries, Some(idx), start).len() == entries.len(),
        start.decoded is None ==> committed_entries(entries, Some(idx), start) == entries,
{
}

/// A start that fails changes nothing the player describes: pointing the
/// queue at the incoming entry (`point_at`, from `before` to `pointed`) and
/// then taking the start back (`start_failed` with the position `point_at`
/// gave, from `pointed` to `after`) leaves the queue position, the entries,
/// the shown track and its length as they were before.
pub proof fn law_failed_start_changes_nothing<X>(
    before: PlayerState<X>,
    pointed: PlayerState<X>,
    after: PlayerState<X>,
    idx: usize,
    previous: Option<usize>,
)
    requires
        previous == before.queue_view().current(),
        pointed.queue_view().current() == Some(idx),
        pointed.queue_view().entries() == before.queue_view().entries(),
        pointed.shown() == before.shown(),
        pointed.length() == before.length(),
        after.queue_view().current() == previous,
        after.queue_view().entries() == pointed.queue_view().entries(),
        after.shown() == pointed.shown(),
        after.length() == pointed.length(),
    ensures
        after.queue_view().current() == before.queue_view().current(),
        after.queue_view().entries() == before.queue_view().entries(),
        after.shown() == before.shown(),
        after.length() == before.length(),
{
}

/// A commit never shortens a track the library knows: the published length
/// is at least the library's, and is the library's when the decoder said
/// nothing.
pub proof fn law_commit_never_shortens(library: u128, decoded: Option<u128>)
    ensures
        library != 0 ==> reconciled(library, decoded) >= library,
        decoded is None ==> reconciled(library, decoded) == library,
{
}

/// What a resume does when the sink is there and can play.
#[derive(Debug, Clone, Copy, PartialEq, Eq, Structural)]
pub enum ResumeStep {
    /// Start the sink and count playback time from now.
    Play,
    /// Playback already runs: nothing to do.
    AlreadyPlaying,
}

/// Resume playback, or report that there is nothing to resume: with no
/// sink (never started, or stopped) and with a sink that has played to its
/// end, a resume could only silently do nothing, so it is an error.
/// `counting` is whether playback time is being counted.
pub fn resume_step(sink: Option<SinkFacts>, counting: bool) -> (r: Result<ResumeStep, PlayerError>)
    ensures
        match sink {
            None => r matches Err(PlayerError::StateError(m)) && m@
                == "nothing to resume: playback is not active"@,
            Some(s) => if s.empty {
                r matches Err(PlayerError::StateError(m)) && m@
                    == "nothing to resume: the track already finished"@
            } else if counting && !s.paused {
                r == Ok::<ResumeStep, PlayerError>(ResumeStep::AlreadyPlaying)
            } else {
                r == Ok::<ResumeStep, PlayerError>(ResumeStep::Play)
            },
        },
{
    match sink {
        None => Err(PlayerError::StateError("nothing to resume: playback is not active".to_owned())),
        Some(s) => {
            if s.empty {
                Err(PlayerError::StateError("nothing to resume: the track already finished".to_owned()))
            } else if counting && !s.paused {
                Ok(ResumeStep::AlreadyPlaying)
            } else {
                Ok(ResumeStep::Play)
            }
        },
    }
}

/// Whether the player is playing and whether its sink is empty, read
/// together: a missing sink is not playing and empty.
pub fn sink_snapshot(sink: Option<SinkFacts>) -> (r: (bool, bool))
    ensures
        r == match sink {
            Some(s) => (!s.paused && !s.empty, s.empty),
            None => (false, true),
        },
{
    match sink {
        Some(s) => (!s.paused && !s.empty, s.empty),
        None => (false, true),
    }
}

/// Where playback stands: the time played before this session and in it,
/// capped at the track's length when the length is known.
pub fn current_position(played: u128, live: u128, length: u128) -> (r: u128)
    requires
        played + live <= u128::MAX,
    ensures
        r == if length == 0 {
            played + live
        } else if played + live <= length {
            played + live
        } else {
            length as int
        },
{
    let total = played + live;
    if length == 0 || total <= length {
        total
    } else {
        length
    }
}

} // verus!
