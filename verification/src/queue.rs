//! The playback queue: which entry plays next or previously, in order or
//! shuffled, under each repeat mode, and how the current position follows
//! edits of the queue.
use vstd::prelude::*;
use rand::seq::{IndexedRandom, SliceRandom};
use rand::RngExt;

verus! {

broadcast use {vstd::seq_lib::group_seq_properties, vstd::seq::Seq::lemma_push_to_set_commute};

/// Repeat behaviour of the queue.
#[derive(Debug, Clone, Copy, PartialEq, Eq, Structural)]
pub enum RepeatMode {
    Off,
    All,
    One,
}

/// Player errors.
#[derive(Debug)]
pub enum PlayerError {
    InitError(String),
    SinkError(String),
    FileError(String),
    DecodeError(String),
    StateError(String),
}

/// Reconcile the library's recorded duration with what a decoder reports
/// (both in nanoseconds): the decoder may only ever add information by
/// claiming more, and speaks for itself only when the library has nothing.
pub open spec fn reconciled(db: u128, decoded: Option<u128>) -> u128 {
    match decoded {
        Some(dec) => if db != 0 {
            if db >= dec {
                db
            } else {
                dec
            }
        } else {
            dec
        },
        None => db,
    }
}

/// Reconcile the library's recorded duration with what a decoder reports.
pub fn reconcile_duration(db: u128, decoded: Option<u128>) -> (r: u128)
    ensures
        r == reconciled(db, decoded),
{
    match decoded {
        Some(dec) => {
            if db != 0 {
                if db >= dec {
                    db
                } else {
                    dec
                }
            } else {
                dec
            }
        },
        None => db,
    }
}

/// A decoder never shortens a known duration, and without a decoder
/// opinion the library's value stands.
pub proof fn law_reconcile_never_shortens(db: u128, decoded: Option<u128>)
    ensures
        db != 0 ==> reconciled(db, decoded) >= db,
        decoded matches Some(d) ==> reconciled(db, decoded) >= d,
        decoded is None ==> reconciled(db, decoded) == db,
        db == 0 ==> reconciled(db, decoded) == match decoded {
            Some(d) => d,
            None => 0,
        },
{
}

/// The entry after `current` in queue order, or `None` at the end of the
/// queue unless the queue repeats as a whole.
pub open spec fn next_in_order(len: nat, current: Option<usize>, repeat: RepeatMode) -> Option<
    usize,
> {
    match current {
        None => Some(0),
        Some(idx) => if idx + 1 >= len {
            match repeat {
                RepeatMode::All => Some(0),
                _ => None,
            }
        } else {
            Some((idx + 1) as usize)
        },
    }
}

/// The entry before `current` in queue order: the first entry stays put,
/// unless the queue repeats as a whole and wraps to its last entry.
pub open spec fn previous_in_order(len: nat, current: Option<usize>, repeat: RepeatMode) -> Option<
    usize,
> {
    match current {
        None => Some(0),
        Some(idx) => if idx == 0 {
            match repeat {
                RepeatMode::All => Some((len - 1) as usize),
                _ => Some(0),
            }
        } else {
            Some((idx - 1) as usize)
        },
    }
}

/// Every entry of `h` that is below `n`, in order.
pub open spec fn below(h: Seq<usize>, n: nat) -> Seq<usize>
    decreases h.len(),
{
    if h.len() == 0 {
        Seq::empty()
    } else if h.last() < n {
        below(h.drop_last(), n).push(h.last())
    } else {
        below(h.drop_last(), n)
    }
}

/// The queue positions a shuffle session has visited, with the current one.
pub open spec fn visited(history: Seq<usize>, current: Option<usize>) -> Set<usize> {
    match current {
        Some(c) => history.to_set().insert(c),
        None => history.to_set(),
    }
}

/// `choose` from the `rand` crate: a uniformly drawn element of `items`,
/// `None` exactly when `items` is empty.
#[verifier::external_body]
fn choose_one(items: &Vec<usize>) -> (r: Option<usize>)
    ensures
        items@.len() == 0 <==> r is None,
        r matches Some(x) ==> items@.contains(x),
{
    items.choose(&mut rand::rng()).copied()
}

/// `random_range(0..n)` from the `rand` crate.
#[verifier::external_body]
fn random_below(n: usize) -> (r: usize)
    requires
        n > 0,
    ensures
        r < n,
{
    rand::rng().random_range(0..n)
}

/// `shuffle` from the `rand` crate: a random permutation, in place.
#[verifier::external_body]
fn shuffle_in_place(v: &mut Vec<usize>)
    ensures
        final(v)@.to_multiset() == old(v)@.to_multiset(),
{
    v.shuffle(&mut rand::rng());
}

/// The queue of a player: its entries, the current position, the repeat
/// and shuffle settings, and the positions a shuffle session has visited.
pub struct PlaybackQueue<T> {
    queue: Vec<T>,
    current_index: Option<usize>,
    repeat_mode: RepeatMode,
    shuffle_enabled: bool,
    shuffle_history: Vec<usize>,
}

impl<T> PlaybackQueue<T> {
    /// The entries of the queue.
    pub closed spec fn entries(&self) -> Seq<T> {
        self.queue@
    }

    /// The current position.
    pub closed spec fn current(&self) -> Option<usize> {
        self.current_index
    }

    /// The repeat setting.
    pub closed spec fn repeat(&self) -> RepeatMode {
        self.repeat_mode
    }

    /// Whether shuffle is on.
    pub closed spec fn shuffled(&self) -> bool {
        self.shuffle_enabled
    }

    /// The positions visited in the current shuffle session, oldest first.
    pub closed spec fn history(&self) -> Seq<usize> {
        self.shuffle_history@
    }

    /// An empty queue: nothing current, no repeat, no shuffle.
    pub fn new() -> (r: Self)
        ensures
            r.entries() == Seq::<T>::empty(),
            r.current() is None,
            r.repeat() == RepeatMode::Off,
            !r.shuffled(),
            r.history() == Seq::<usize>::empty(),
    {
        PlaybackQueue {
            queue: Vec::new(),
            current_index: None,
            repeat_mode: RepeatMode::Off,
            shuffle_enabled: false,
            shuffle_history: Vec::new(),
        }
    }

    /// The entries of the queue.
    pub fn get_queue(&self) -> (r: &Vec<T>)
        ensures
            r@ == self.entries(),
    {
        &self.queue
    }

    /// Number of entries.
    pub fn len(&self) -> (r: usize)
        ensures
            r == self.entries().len(),
    {
        self.queue.len()
    }

    /// The entry at `index`, if there is one.
    pub fn track_at(&self, index: usize) -> (r: Option<&T>)
        ensures
            index < self.entries().len() ==> r == Some(&self.entries()[index as int]),
            index >= self.entries().len() ==> r is None,
    {
        if index < self.queue.len() {
            Some(&self.queue[index])
        } else {
            None
        }
    }

    /// Replace the entries; the shuffle session ends, the position stays.
    pub fn set_queue(&mut self, tracks: Vec<T>)
        ensures
            final(self).entries() == tracks@,
            final(self).current() == old(self).current(),
            final(self).repeat() == old(self).repeat(),
            final(self).shuffled() == old(self).shuffled(),
            final(self).history() == Seq::<usize>::empty(),
    {
        self.queue = tracks;
        self.shuffle_history = Vec::new();
    }

    fn retain_history_below(&mut self, n: usize)
        ensures
            final(self).history() == below(old(self).history(), n as nat),
            final(self).entries() == old(self).entries(),
            final(self).current() == old(self).current(),
            final(self).repeat() == old(self).repeat(),
            final(self).shuffled() == old(self).shuffled(),
    {
        let mut kept: Vec<usize> = Vec::new();
        let mut i: usize = 0;
        let ghost h = self.shuffle_history@;
        while i < self.shuffle_history.len()
            invariant
                h == self.shuffle_history@,
                i <= h.len(),
                kept@ == below(h.take(i as int), n as nat),
            decreases h.len() - i,
        {
            assert(h.take(i + 1).drop_last() =~= h.take(i as int));
            let v = self.shuffle_history[i];
            if v < n {
                kept.push(v);
            }
            i = i + 1;
        }
        assert(h.take(h.len() as int) =~= h);
        self.shuffle_history = kept;
    }

    /// Append an entry; the shuffle session keeps every position that is
    /// still in range.
    pub fn add_to_queue(&mut self, track: T)
        ensures
            final(self).entries() == old(self).entries().push(track),
            final(self).current() == old(self).current(),
            final(self).repeat() == old(self).repeat(),
            final(self).shuffled() == old(self).shuffled(),
            final(self).history() == below(old(self).history(), old(self).entries().len() + 1),
    {
        self.queue.push(track);
        let n = self.queue.len();
        self.retain_history_below(n);
    }

    /// Where `play_next` inserts: right after the current entry, at the
    /// front when nothing is current, never past the end.
    pub open spec fn insert_position(len: nat, current: Option<usize>) -> int {
        match current {
            Some(i) => if i + 1 < len {
                i + 1
            } else {
                len as int
            },
            None => 0,
        }
    }

    /// Insert an entry to play right after the current one.
    pub fn play_next(&mut self, track: T)
        ensures
            final(self).entries() == old(self).entries().insert(
                Self::insert_position(old(self).entries().len(), old(self).current()),
                track,
            ),
            final(self).current() == old(self).current(),
            final(self).repeat() == old(self).repeat(),
            final(self).shuffled() == old(self).shuffled(),
            final(self).history() == below(old(self).history(), old(self).entries().len() + 1),
    {
        let len = self.queue.len();
        if len == 0 {
            self.queue.push(track);
            assert(self.queue@ =~= Seq::<T>::empty().insert(0, track));
        } else {
            let at = match self.current_index {
                Some(i) => if i < len - 1 {
                    i + 1
                } else {
                    len
                },
                None => 0,
            };
            self.queue.insert(at, track);
        }
        let n = self.queue.len();
        self.retain_history_below(n);
    }

    /// Remove the entry at `index`. The current position keeps naming the
    /// same entry when an earlier one is removed, and stays on the same slot
    /// (or clears at the end) when the current entry itself is removed. The
    /// shuffle session ends.
    pub fn remove_from_queue(&mut self, index: usize) -> (r: Result<T, PlayerError>)
        ensures
            index >= old(self).entries().len() ==> {
                &&& r matches Err(PlayerError::StateError(m)) && m@ == "Queue index out of bounds"@
                &&& final(self).entries() == old(self).entries()
                &&& final(self).current() == old(self).current()
                &&& final(self).history() == old(self).history()
            },
            index < old(self).entries().len() ==> {
                &&& r matches Ok(t) && t == old(self).entries()[index as int]
                &&& final(self).entries() == old(self).entries().remove(index as int)
                &&& final(self).current() == match old(self).current() {
                    Some(c) => if index < c {
                        Some((c - 1) as usize)
                    } else if index == c {
                        if c < old(self).entries().len() - 1 {
                            Some(c)
                        } else {
                            None
                        }
                    } else {
                        Some(c)
                    },
                    None => None,
                }
                &&& final(self).history() == Seq::<usize>::empty()
            },
            final(self).repeat() == old(self).repeat(),
            final(self).shuffled() == old(self).shuffled(),
    {
        if index >= self.queue.len() {
            return Err(PlayerError::StateError("Queue index out of bounds".to_owned()));
        }
        let track = self.queue.remove(index);
        if let Some(current) = self.current_index {
            if index < current {
                self.current_index = Some(current - 1);
            } else if index == current {
                self.current_index = if current < self.queue.len() {
                    Some(current)
                } else {
                    None
                };
            }
        }
        self.shuffle_history = Vec::new();
        Ok(track)
    }

    /// Empty the queue; nothing is current and the shuffle session ends.
    pub fn clear_queue(&mut self)
        ensures
            final(self).entries() == Seq::<T>::empty(),
            final(self).current() is None,
            final(self).history() == Seq::<usize>::empty(),
            final(self).repeat() == old(self).repeat(),
            final(self).shuffled() == old(self).shuffled(),
    {
        self.queue = Vec::new();
        self.current_index = None;
        self.shuffle_history = Vec::new();
    }

    /// The current position.
    pub fn get_current_index(&self) -> (r: Option<usize>)
        ensures
            r == self.current(),
    {
        self.current_index
    }

    /// Move the current position.
    pub fn set_current_index(&mut self, index: Option<usize>)
        ensures
            final(self).current() == index,
            final(self).entries() == old(self).entries(),
            final(self).history() == old(self).history(),
            final(self).repeat() == old(self).repeat(),
            final(self).shuffled() == old(self).shuffled(),
    {
        self.current_index = index;
    }

    /// The repeat setting.
    pub fn get_repeat_mode(&self) -> (r: RepeatMode)
        ensures
            r == self.repeat(),
    {
        self.repeat_mode
    }

    /// Change the repeat setting; the shuffle session ends.
    pub fn set_repeat_mode(&mut self, mode: RepeatMode)
        ensures
            final(self).repeat() == mode,
            final(self).history() == Seq::<usize>::empty(),
            final(self).entries() == old(self).entries(),
            final(self).current() == old(self).current(),
            final(self).shuffled() == old(self).shuffled(),
    {
        self.repeat_mode = mode;
        self.shuffle_history = Vec::new();
    }

    /// Whether shuffle is on.
    pub fn get_shuffle(&self) -> (r: bool)
        ensures
            r == self.shuffled(),
    {
        self.shuffle_enabled
    }

    /// Turn shuffle on or off. A new session starts; turning it on seeds the
    /// session with the current position so `previous` has a base.
    pub fn set_shuffle(&mut self, enabled: bool)
        ensures
            final(self).shuffled() == enabled,
            final(self).history() == if enabled && old(self).current() is Some {
                seq![old(self).current()->0]
            } else {
                Seq::<usize>::empty()
            },
            final(self).entries() == old(self).entries(),
            final(self).current() == old(self).current(),
            final(self).repeat() == old(self).repeat(),
    {
        self.shuffle_enabled = enabled;
        let mut hist: Vec<usize> = Vec::new();
        if enabled {
            if let Some(idx) = self.current_index {
                hist.push(idx);
            }
        }
        assert(enabled && old(self).current() is Some ==> hist@ =~= seq![old(self).current()->0]);
        self.shuffle_history = hist;
    }

    /// The positions visited in the current shuffle session, oldest first.
    pub fn shuffle_history(&self) -> (r: &Vec<usize>)
        ensures
            r@ == self.history(),
    {
        &self.shuffle_history
    }

    /// End the shuffle session (the queue was exhausted).
    pub fn end_shuffle_session(&mut self)
        ensures
            final(self).history() == Seq::<usize>::empty(),
            final(self).entries() == old(self).entries(),
            final(self).current() == old(self).current(),
            final(self).repeat() == old(self).repeat(),
            final(self).shuffled() == old(self).shuffled(),
    {
        self.shuffle_history = Vec::new();
    }

    /// Record a shuffle transition from `current_idx` to `next_idx`: the
    /// position left is remembered once, and the new one is pushed unless it
    /// is already the latest.
    pub fn record_shuffle_history(&mut self, current_idx: Option<usize>, next_idx: usize)
        ensures
            ({
                let h0 = old(self).history();
                let h1 = match current_idx {
                    Some(ci) => if h0.contains(ci) {
                        h0
                    } else {
                        h0.push(ci)
                    },
                    None => h0,
                };
                final(self).history() == if h1.len() > 0 && h1.last() == next_idx {
                    h1
                } else {
                    h1.push(next_idx)
                }
            }),
            final(self).entries() == old(self).entries(),
            final(self).current() == old(self).current(),
            final(self).repeat() == old(self).repeat(),
            final(self).shuffled() == old(self).shuffled(),
    {
        if let Some(ci) = current_idx {
            let mut found = false;
            let mut i: usize = 0;
            while i < self.shuffle_history.len()
                invariant
                    i <= self.shuffle_history@.len(),
                    found == self.shuffle_history@.take(i as int).contains(ci),
                decreases self.shuffle_history@.len() - i,
            {
                let ghost t = self.shuffle_history@.take(i as int);
                assert(self.shuffle_history@.take(i + 1) =~= t.push(self.shuffle_history@[i as int]));
                if self.shuffle_history[i] == ci {
                    assert(self.shuffle_history@.take(i + 1)[i as int] == ci);
                    found = true;
                } else {
                    proof {
                        let u = t.push(self.shuffle_history@[i as int]);
                        if u.contains(ci) {
                            let j = choose|j: int| 0 <= j < u.len() && u[j] == ci;
                            assert(t[j] == ci);
                        }
                    }
                }
                i = i + 1;
            }
            assert(self.shuffle_history@.take(self.shuffle_history@.len() as int)
                =~= self.shuffle_history@);
            if !found {
                self.shuffle_history.push(ci);
            }
        }
        let n = self.shuffle_history.len();
        if n == 0 || self.shuffle_history[n - 1] != next_idx {
            self.shuffle_history.push(next_idx);
        }
    }
}

impl<T> PlaybackQueue<T> {
    /// The positions visited in the current shuffle session, each once.
    fn distinct_visited(&self) -> (d: Vec<usize>)
        ensures
            d@.no_duplicates(),
            d@.to_set() == visited(self.history(), self.current()),
    {
        let mut d: Vec<usize> = Vec::new();
        let ghost h = self.shuffle_history@;
        let mut i: usize = 0;
        while i < self.shuffle_history.len()
            invariant
                h == self.shuffle_history@,
                i <= h.len(),
                d@.no_duplicates(),
                d@.to_set() == h.take(i as int).to_set(),
            decreases h.len() - i,
        {
            let v = self.shuffle_history[i];
            assert(h.take(i + 1) =~= h.take(i as int).push(v));
            assert(h.take(i + 1).to_set() =~= h.take(i as int).to_set().insert(v));
            if !vec_contains(&d, v) {
                assert(d@.push(v).to_set() =~= d@.to_set().insert(v));
                d.push(v);
            } else {
                assert(d@.to_set().contains(v));
                assert(d@.to_set().insert(v) =~= d@.to_set());
            }
            i = i + 1;
        }
        assert(h.take(h.len() as int) =~= h);
        if let Some(c) = self.current_index {
            if !vec_contains(&d, c) {
                assert(d@.push(c).to_set() =~= d@.to_set().insert(c));
                d.push(c);
            } else {
                assert(d@.to_set().contains(c));
                assert(d@.to_set().insert(c) =~= d@.to_set());
            }
        }
        d
    }

    /// A shuffled next position. A one-entry queue replays its entry unless
    /// the session ends there. Without repeat, a session ends once every
    /// position has been visited and otherwise draws an unvisited position;
    /// with repeat, any position but the current one is drawn.
    fn next_shuffle_index(&self) -> (r: Option<usize>)
        requires
            self.entries().len() >= 1,
        ensures
            self.shuffle_next_ok(r),
    {
        let len = self.queue.len();
        let current = self.current_index;
        if len == 1 {
            return match (current, self.repeat_mode) {
                (Some(_), RepeatMode::Off) => None,
                _ => Some(0),
            };
        }
        if self.repeat_mode == RepeatMode::Off {
            let seen = self.distinct_visited();
            proof {
                seen@.unique_seq_to_set();
            }
            if seen.len() >= len {
                return None;
            }
            let mut unvisited: Vec<usize> = Vec::new();
            let mut i: usize = 0;
            while i < len
                invariant
                    i <= len,
                    forall|x: usize| #[trigger] unvisited@.contains(x) ==> x < len && !seen@.contains(x),
                    forall|x: usize| x < i && !seen@.contains(x) ==> #[trigger] unvisited@.contains(x),
                decreases len - i,
            {
                if !vec_contains(&seen, i) {
                    unvisited.push(i);
                    assert(unvisited@.last() == i);
                }
                i = i + 1;
            }
            let ghost v = visited(self.history(), self.current());
            assert(forall|x: usize| v.contains(x) <==> seen@.contains(x));
            match choose_one(&unvisited) {
                Some(idx) => Some(idx),
                None => {
                    assert(!(exists|j: usize| j < len && !v.contains(j))) by {
                        if exists|j: usize| j < len && !v.contains(j) {
                            let j = choose|j: usize| j < len && !v.contains(j);
                            assert(unvisited@.contains(j));
                        }
                    }
                    let others = Self::all_but(len, current);
                    match choose_one(&others) {
                        Some(idx) => Some(idx),
                        None => Some(random_below(len)),
                    }
                },
            }
        } else {
            let others = Self::all_but(len, current);
            if current == Some(0usize) {
                assert(others@.contains(1));
            } else {
                assert(others@.contains(0));
            }
            match choose_one(&others) {
                Some(idx) => Some(idx),
                None => Some(random_below(len)),
            }
        }
    }

    /// What holds of any shuffled next position.
    pub open spec fn shuffle_next_ok(&self, r: Option<usize>) -> bool {
        let len = self.entries().len();
        let v = visited(self.history(), self.current());
        if len == 1 {
            r == if self.current() is Some && self.repeat() == RepeatMode::Off {
                None
            } else {
                Some(0usize)
            }
        } else if self.repeat() == RepeatMode::Off {
            &&& (r is None <==> v.len() >= len)
            &&& (r matches Some(i) ==> i < len)
            &&& ((exists|j: usize| j < len && !v.contains(j)) && v.len() < len) ==> (r matches Some(
                i,
            ) && !v.contains(i))
        } else {
            r matches Some(i) && i < len && self.current() != Some(i)
        }
    }

    /// Every position of a `len`-entry queue except `current`.
    fn all_but(len: usize, current: Option<usize>) -> (v: Vec<usize>)
        ensures
            forall|x: usize| #[trigger] v@.contains(x) <==> (x < len && current != Some(x)),
    {
        let mut v: Vec<usize> = Vec::new();
        let mut i: usize = 0;
        while i < len
            invariant
                i <= len,
                forall|x: usize| #[trigger] v@.contains(x) <==> (x < i && current != Some(x)),
            decreases len - i,
        {
            let ghost before = v@;
            if current != Some(i) {
                v.push(i);
                assert forall|x: usize| #[trigger] v@.contains(x) <==> (x < i + 1 && current != Some(
                    x,
                )) by {
                    if x == i {
                        assert(v@.last() == i);
                    }
                    if v@.contains(x) && x != i {
                        let j = choose|j: int| 0 <= j < v@.len() && v@[j] == x;
                        assert(before[j] == x);
                    }
                    if x < i && current != Some(x) {
                        let j = choose|j: int| 0 <= j < before.len() && before[j] == x;
                        assert(v@[j] == x);
                    }
                }
            }
            i = i + 1;
        }
        v
    }

    /// The position to play next, before anything is started: the current
    /// one again when an automatic advance meets repeat-one, a shuffled one
    /// when shuffle is on, and the next in queue order otherwise.
    pub fn plan_next(&self, for_auto_advance: bool) -> (r: Option<usize>)
        ensures
            self.entries().len() == 0 ==> r is None,
            self.entries().len() > 0 && for_auto_advance && self.repeat() == RepeatMode::One ==> r
                == match self.current() {
                Some(i) => Some(i),
                None => Some(0usize),
            },
            self.entries().len() > 0 && !(for_auto_advance && self.repeat() == RepeatMode::One)
                && !self.shuffled() ==> r == next_in_order(
                self.entries().len(),
                self.current(),
                self.repeat(),
            ),
            self.entries().len() > 0 && !(for_auto_advance && self.repeat() == RepeatMode::One)
                && self.shuffled() ==> self.shuffle_next_ok(r),
    {
        let len = self.queue.len();
        if len == 0 {
            return None;
        }
        if for_auto_advance && self.repeat_mode == RepeatMode::One {
            match self.current_index {
                Some(i) => Some(i),
                None => Some(0),
            }
        } else if self.shuffle_enabled {
            self.next_shuffle_index()
        } else {
            match self.current_index {
                Some(idx) => {
                    if idx >= len - 1 {
                        match self.repeat_mode {
                            RepeatMode::All => Some(0),
                            _ => None,
                        }
                    } else {
                        Some(idx + 1)
                    }
                },
                None => Some(0),
            }
        }
    }

    /// A random position other than `current` when there is one.
    fn random_other(len: usize, current: Option<usize>) -> (r: usize)
        requires
            len >= 2,
        ensures
            r < len,
            current != Some(r),
    {
        let mut candidates: Vec<usize> = Vec::new();
        let mut i: usize = 0;
        while i < len
            invariant
                i <= len,
                candidates@.len() == i,
                forall|k: int| 0 <= k < i ==> #[trigger] candidates@[k] == k,
            decreases len - i,
        {
            candidates.push(i);
            i = i + 1;
        }
        let ghost before = candidates@;
        assert(before[0] == 0usize && before[1] == 1usize);
        assert(before.contains(0usize) && before.contains(1usize));
        assert forall|x: usize| #[trigger] before.contains(x) implies x < len by {
            let k = choose|k: int| 0 <= k < before.len() && before[k] == x;
        }
        shuffle_in_place(&mut candidates);
        proof {
            before.to_multiset_ensures();
            candidates@.to_multiset_ensures();
            assert(candidates@.to_multiset().count(0usize) > 0);
            assert(candidates@.to_multiset().count(1usize) > 0);
            assert(candidates@.contains(0usize) && candidates@.contains(1usize));
        }
        let mut j: usize = 0;
        while j < candidates.len()
            invariant
                j <= candidates@.len(),
                candidates@.to_multiset() == before.to_multiset(),
                forall|x: usize| #[trigger] before.contains(x) ==> x < len,
                candidates@.contains(0usize) && candidates@.contains(1usize),
                forall|k: int| 0 <= k < j ==> current == Some(#[trigger] candidates@[k]),
            decreases candidates@.len() - j,
        {
            let x = candidates[j];
            if current != Some(x) {
                proof {
                    before.to_multiset_ensures();
                    candidates@.to_multiset_ensures();
                    assert(candidates@.contains(x));
                    assert(candidates@.to_multiset().count(x) > 0);
                    assert(before.contains(x));
                }
                return x;
            }
            j = j + 1;
        }
        proof {
            let a = choose|k: int| 0 <= k < candidates@.len() && candidates@[k] == 0usize;
            let b = choose|k: int| 0 <= k < candidates@.len() && candidates@[k] == 1usize;
            assert(current == Some(candidates@[a]) && current == Some(candidates@[b]));
            assert(false);
        }
        random_below(len)
    }

    /// The position to go back to, before anything is started: the current
    /// one under repeat-one; under shuffle the previous entry of the session
    /// (popping the current one off it), or a random other position when the
    /// session has no earlier entry; the previous in queue order otherwise.
    pub fn plan_previous(&mut self) -> (r: Option<usize>)
        ensures
            final(self).entries() == old(self).entries(),
            final(self).current() == old(self).current(),
            final(self).repeat() == old(self).repeat(),
            final(self).shuffled() == old(self).shuffled(),
            old(self).entries().len() == 0 ==> r is None && final(self).history() == old(
                self,
            ).history(),
            old(self).entries().len() > 0 && old(self).repeat() == RepeatMode::One ==> r == old(
                self,
            ).current() && final(self).history() == old(self).history(),
            old(self).entries().len() > 0 && old(self).repeat() != RepeatMode::One
                && !old(self).shuffled() ==> r == previous_in_order(
                old(self).entries().len(),
                old(self).current(),
                old(self).repeat(),
            ) && final(self).history() == old(self).history(),
            old(self).entries().len() > 0 && old(self).repeat() != RepeatMode::One
                && old(self).shuffled() ==> ({
                let h = old(self).history();
                let len = old(self).entries().len();
                if len == 1 {
                    r == Some(0usize) && final(self).history() == h
                } else if h.len() > 1 {
                    final(self).history() == h.drop_last() && r == Some(h.drop_last().last())
                } else if h.len() == 1 && h[0] != match old(self).current() {
                    Some(c) => c,
                    None => usize::MAX,
                } {
                    final(self).history() == h && r == Some(h[0])
                } else {
                    final(self).history() == h && (r matches Some(i) && i < len)
                }
            }),
    {
        let len = self.queue.len();
        if len == 0 {
            return None;
        }
        if self.repeat_mode == RepeatMode::One {
            return self.current_index;
        }
        if self.shuffle_enabled {
            if len == 1 {
                return Some(0);
            }
            let n = self.shuffle_history.len();
            if n > 1 {
                self.shuffle_history.pop();
                return Some(self.shuffle_history[n - 2]);
            }
            if n == 1 {
                let only = self.shuffle_history[0];
                let current_or_max = match self.current_index {
                    Some(c) => c,
                    None => usize::MAX,
                };
                if only != current_or_max {
                    return Some(only);
                }
            }
            return Some(Self::random_other(len, self.current_index));
        }
        match self.current_index {
            Some(idx) => {
                if idx == 0 {
                    match self.repeat_mode {
                        RepeatMode::All => Some(len - 1),
                        _ => Some(0),
                    }
                } else {
                    Some(idx - 1)
                }
            },
            None => Some(0),
        }
    }
}

/// Whether `v` holds `x`.
fn vec_contains(v: &Vec<usize>, x: usize) -> (r: bool)
    ensures
        r == v@.contains(x),
{
    let mut i: usize = 0;
    while i < v.len()
        invariant
            i <= v@.len(),
            forall|j: int| 0 <= j < i ==> v@[j] != x,
        decreases v@.len() - i,
    {
        if v[i] == x {
            assert(v@[i as int] == x);
            return true;
        }
        i = i + 1;
    }
    false
}

/// With the whole queue repeating, stepping forward and then back in queue
/// order returns to the entry one started from.
pub proof fn law_next_then_previous_in_order(len: nat, c: usize)
    requires
        c < len <= usize::MAX,
    ensures
        next_in_order(len, Some(c), RepeatMode::All) matches Some(n) && previous_in_order(
            len,
            Some(n),
            RepeatMode::All,
        ) == Some(c),
{
}

/// In queue order, "previous" is the entry just before the current one,
/// whatever the repeat mode: from position `i > 0` it is `i - 1`. Only the
/// first entry is special: it wraps to the last entry when the whole queue
/// repeats, and otherwise stays put.
pub proof fn law_previous_steps_back(len: nat, i: usize, repeat: RepeatMode)
    requires
        i < len <= usize::MAX,
    ensures
        i > 0 ==> (previous_in_order(len, Some(i), repeat) matches Some(p) && p + 1 == i),
        i == 0 && repeat == RepeatMode::All ==> (previous_in_order(len, Some(i), repeat) matches Some(
            p,
        ) && p + 1 == len),
        i == 0 && repeat != RepeatMode::All ==> previous_in_order(len, Some(i), repeat) == Some(
            0usize,
        ),
{
}

/// Away from the end of the queue, "next" and "previous" in queue order
/// undo each other under every repeat mode: stepping forward from `c` lands
/// on `c + 1`, and stepping back from there returns to `c`.
pub proof fn law_previous_undoes_next(len: nat, c: usize, repeat: RepeatMode)
    requires
        c + 1 < len <= usize::MAX,
    ensures
        next_in_order(len, Some(c), repeat) matches Some(n) && n == c + 1 && previous_in_order(
            len,
            Some(n),
            repeat,
        ) == Some(c),
{
}

/// Stepping in queue order from a position inside the queue never leaves
/// the queue.
pub proof fn law_order_steps_stay_in_queue(len: nat, current: Option<usize>, repeat: RepeatMode)
    requires
        len > 0,
        current matches Some(c) ==> c < len,
    ensures
        next_in_order(len, current, repeat) matches Some(n) ==> n < len,
        previous_in_order(len, current, repeat) matches Some(p) ==> p < len,
        next_in_order(len, current, repeat) is None <==> (current matches Some(c) && c + 1 == len
            && repeat != RepeatMode::All),
{
}

/// Removing any other entry keeps the current position on the same entry.
pub proof fn law_remove_keeps_current_entry<T>(entries: Seq<T>, index: int, c: usize)
    requires
        0 <= index < entries.len(),
        c < entries.len(),
        index != c,
    ensures
        ({
            let rest = entries.remove(index);
            let moved: int = if index < c {
                c - 1
            } else {
                c as int
            };
            0 <= moved < rest.len() && rest[moved] == entries[c as int]
        }),
{
}

/// An entry queued with `play_next` sits right after the current entry (at
/// the front when nothing is current, at the end when the current position
/// is the last one or beyond).
pub proof fn law_play_next_follows_current<T>(entries: Seq<T>, current: Option<usize>, track: T)
    requires
        entries.len() > 0,
    ensures
        ({
            let at = PlaybackQueue::<T>::insert_position(entries.len(), current);
            let after = entries.insert(at, track);
            &&& after[at] == track
            &&& current matches Some(c) ==> (c + 1 < entries.len() ==> at == c + 1 && after[c
                as int] == entries[c as int])
        }),
{
}

/// A queue entry as the player keeps it: the track, and its length in
/// whole seconds.
#[derive(Debug, Clone)]
pub struct PlayerTrack<X> {
    pub item: X,
    pub duration_secs: u32,
}

impl<X> PlaybackQueue<PlayerTrack<X>> {
    /// Give the entry at `index` the length `secs`; nothing else changes.
    pub fn restamp(&mut self, index: usize, secs: u32)
        requires
            index < old(self).entries().len(),
        ensures
            final(self).entries().len() == old(self).entries().len(),
            final(self).entries()[index as int].duration_secs == secs,
            final(self).entries()[index as int].item == old(self).entries()[index as int].item,
            forall|j: int|
                0 <= j < old(self).entries().len() && j != index ==> #[trigger] final(self).entries()[j]
                    == old(self).entries()[j],
            final(self).current() == old(self).current(),
            final(self).history() == old(self).history(),
            final(self).repeat() == old(self).repeat(),
            final(self).shuffled() == old(self).shuffled(),
    {
        let mut e = self.queue.remove(index);
        e.duration_secs = secs;
        self.queue.insert(index, e);
    }
}

} // verus!
