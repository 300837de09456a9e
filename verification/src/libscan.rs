//! A whole library scan: the roots it walks, the audio files it found (each
//! once, in the order first seen), the tally of what processing each file
//! came to, the progress reported after each, and the library records the
//! scan shows to be stale. On Android the rows of the system `MediaStore`
//! table are taken into the same tally.
//!
//! Walking directories, reading tags and the library's store run outside
//! the library: the caller reports each result to a [`LibraryScan`] and
//! does what it answers.
use vstd::prelude::*;
use crate::mediastore::{row_seconds, row_wanted, wants_row};
use crate::scanner::MediaStoreRawTrack;
use crate::text::{chars_of, decimal, lemma_texts_push, push_decimal, push_str, string_of, texts};
use crate::walk::{among, same_path, stale, under_any, ScanResult, ScanSummary};

verus! {

/// Whether `files` holds a path equal (as a `Path`) to `p`.
pub open spec fn has_path(files: Seq<Seq<char>>, p: Seq<char>) -> bool {
    exists|k: int| 0 <= k < files.len() && same_path(p, #[trigger] files[k])
}

/// `files` with each path of `v` that it does not hold yet appended, in
/// order.
pub open spec fn add_found(files: Seq<Seq<char>>, v: Seq<Seq<char>>) -> Seq<Seq<char>>
    decreases v.len(),
{
    if v.len() == 0 {
        files
    } else {
        let acc = add_found(files, v.drop_last());
        if has_path(acc, v.last()) {
            acc
        } else {
            acc.push(v.last())
        }
    }
}

/// The ids, in order, of the stored records that are stale after a scan of
/// `roots` that found `found`.
pub open spec fn stale_ids(stored: Seq<(u64, Seq<char>)>, roots: Seq<Seq<char>>, found: Seq<Seq<char>>) -> Seq<u64>
    decreases stored.len(),
{
    if stored.len() == 0 {
        Seq::empty()
    } else {
        let r = stale_ids(stored.drop_last(), roots, found);
        if stale(stored.last().1, roots, found) {
            r.push(stored.last().0)
        } else {
            r
        }
    }
}

/// The view of stored records: id and path text.
pub open spec fn stored_view(stored: Seq<(u64, String)>) -> Seq<(u64, Seq<char>)> {
    stored.map_values(|e: (u64, String)| (e.0, e.1@))
}

/// Where a scan stands after one file, for a progress report.
#[derive(Debug, Clone)]
pub struct ProgressCounts {
    pub current_file: String,
    pub total_files: usize,
    pub processed_files: usize,
    pub tracks_added: u32,
    pub tracks_updated: u32,
    pub error_count: usize,
}

/// What the Android scan does with one `MediaStore` row.
#[derive(Debug, Clone, Copy, PartialEq, Eq, Structural)]
pub enum RowAction {
    /// The row lies in a sandboxed directory or outside the music and
    /// download folders: it is not looked at.
    Ignore,
    /// The row's file has no duration: it is skipped as unplayable.
    Unplayable,
    /// Index the file from its own tags; `update` when the library already
    /// has a record at that path.
    FromTags { update: bool },
    /// Index the file from what the row states; `update` as above.
    FromRow { update: bool },
}

/// The decision about a row at `path`: `tags` is the duration the file's
/// own tags give (`None` when they could not be read), `secondary_ok`
/// whether a second probe found a positive duration, `secs` the row's own
/// duration.
pub open spec fn row_action(
    path: Seq<char>,
    sandboxed: Seq<Seq<char>>,
    known: bool,
    tags: Option<u32>,
    secondary_ok: bool,
    secs: u32,
) -> RowAction {
    if !row_wanted(path, sandboxed) {
        RowAction::Ignore
    } else if tags matches Some(d) && d > 0 {
        RowAction::FromTags { update: known }
    } else if tags == Some(0u32) && !secondary_ok {
        RowAction::Unplayable
    } else if secs == 0 {
        RowAction::Unplayable
    } else {
        RowAction::FromRow { update: known }
    }
}

/// A library scan in progress.
pub struct LibraryScan {
    roots: Vec<String>,
    files: Vec<String>,
    summary: ScanSummary,
}

impl LibraryScan {
    /// The roots scanned.
    pub closed spec fn roots(&self) -> Seq<Seq<char>> {
        texts(self.roots@)
    }

    /// The audio files found, each once, in the order first seen.
    pub closed spec fn files(&self) -> Seq<Seq<char>> {
        texts(self.files@)
    }

    /// The tally so far.
    pub closed spec fn tally(&self) -> ScanSummary {
        self.summary
    }

    /// The errors recorded so far, by text.
    pub open spec fn errors(&self) -> Seq<Seq<char>> {
        texts(self.tally().errors@)
    }

    /// A scan of `roots` that has found and counted nothing yet.
    pub fn new(roots: &Vec<String>) -> (r: Self)
        ensures
            r.roots() == texts(roots@),
            r.files() == Seq::<Seq<char>>::empty(),
            r.tally().tracks_added == 0,
            r.tally().tracks_updated == 0,
            r.tally().tracks_removed == 0,
            r.tally().skipped_unplayable == 0,
            r.errors() == Seq::<Seq<char>>::empty(),
    {
        let mut copies: Vec<String> = Vec::new();
        let mut i: usize = 0;
        while i < roots.len()
            invariant
                i <= roots@.len(),
                texts(copies@) == texts(roots@).take(i as int),
            decreases roots@.len() - i,
        {
            let c = string_of(&chars_of(roots[i].as_str()));
            proof {
                lemma_texts_push(copies@, c);
            }
            copies.push(c);
            assert(texts(copies@) =~= texts(roots@).take(i + 1));
            i = i + 1;
        }
        assert(texts(roots@).take(i as int) =~= texts(roots@));
        let r = LibraryScan { roots: copies, files: Vec::new(), summary: ScanSummary::new() };
        assert(r.files() =~= Seq::<Seq<char>>::empty());
        assert(r.errors() =~= Seq::<Seq<char>>::empty());
        r
    }

    /// The tally of the finished scan.
    pub fn into_summary(self) -> (r: ScanSummary)
        ensures
            r == self.tally(),
    {
        self.summary
    }

    /// The audio files found.
    pub fn found(&self) -> (r: &Vec<String>)
        ensures
            texts(r@) == self.files(),
    {
        &self.files
    }

    fn push_error(&mut self, text: Vec<char>)
        requires
            old(self).tally().errors@.len() < usize::MAX,
        ensures
            final(self).errors() == old(self).errors().push(text@),
            final(self).roots() == old(self).roots(),
            final(self).files() == old(self).files(),
            final(self).tally().tracks_added == old(self).tally().tracks_added,
            final(self).tally().tracks_updated == old(self).tally().tracks_updated,
            final(self).tally().tracks_removed == old(self).tally().tracks_removed,
            final(self).tally().skipped_unplayable == old(self).tally().skipped_unplayable,
    {
        let s = string_of(&text);
        proof {
            lemma_texts_push(self.summary.errors@, s);
        }
        self.summary.errors.push(s);
    }

    /// The outcome of listing the audio files below `root`: `None` when the
    /// root does not exist, else the walk's result.
    pub fn on_root(&mut self, root: &str, listed: Option<Result<Vec<String>, String>>)
        requires
            old(self).tally().errors@.len() < usize::MAX,
        ensures
            final(self).roots() == old(self).roots(),
            final(self).tally().tracks_added == old(self).tally().tracks_added,
            final(self).tally().tracks_updated == old(self).tally().tracks_updated,
            final(self).tally().tracks_removed == old(self).tally().tracks_removed,
            final(self).tally().skipped_unplayable == old(self).tally().skipped_unplayable,
            match listed {
                None => final(self).files() == old(self).files() && final(self).errors() == old(
                    self,
                ).errors().push("Path does not exist: "@ + root@),
                Some(Err(e)) => final(self).files() == old(self).files() && final(self).errors()
                    == old(self).errors().push("Failed to scan "@ + root@ + ": "@ + e@),
                Some(Ok(v)) => final(self).files() == add_found(old(self).files(), texts(v@))
                    && final(self).errors() == old(self).errors(),
            },
    {
        match listed {
            None => {
                let mut text = chars_of("Path does not exist: ");
                push_str(&mut text, root);
                self.push_error(text);
            },
            Some(Err(e)) => {
                let mut text = chars_of("Failed to scan ");
                push_str(&mut text, root);
                push_str(&mut text, ": ");
                push_str(&mut text, e.as_str());
                proof {
                    assert(text@ =~= "Failed to scan "@ + root@ + ": "@ + e@);
                }
                self.push_error(text);
            },
            Some(Ok(v)) => {
                let ghost start = self.files();
                let mut i: usize = 0;
                while i < v.len()
                    invariant
                        i <= v@.len(),
                        self.files() == add_found(start, texts(v@).take(i as int)),
                        self.roots() == old(self).roots(),
                        self.tally() == old(self).tally(),
                    decreases v@.len() - i,
                {
                    let ghost t = texts(v@).take(i + 1);
                    assert(t.drop_last() =~= texts(v@).take(i as int));
                    assert(t.last() == v@[i as int]@);
                    if !among(v[i].as_str(), &self.files) {
                        let c = string_of(&chars_of(v[i].as_str()));
                        proof {
                            lemma_texts_push(self.files@, c);
                        }
                        self.files.push(c);
                    }
                    i = i + 1;
                }
                assert(texts(v@).take(i as int) =~= texts(v@));
            },
        }
    }

    /// The progress to report before any file is processed.
    pub fn start_progress(&self) -> (p: ProgressCounts)
        ensures
            p.current_file@ == Seq::<char>::empty(),
            p.total_files == self.files().len(),
            p.processed_files == 0,
            p.tracks_added == self.tally().tracks_added,
            p.tracks_updated == self.tally().tracks_updated,
            p.error_count == self.tally().errors@.len(),
    {
        ProgressCounts {
            current_file: String::new(),
            total_files: self.files.len(),
            processed_files: 0,
            tracks_added: self.summary.tracks_added,
            tracks_updated: self.summary.tracks_updated,
            error_count: self.summary.errors.len(),
        }
    }

    /// The progress to report once the row at position `idx` of `total`
    /// system audio rows, for the file at `path`, has been indexed.
    pub fn row_progress(&self, path: &str, idx: usize, total: usize) -> (p: ProgressCounts)
        requires
            idx < total,
        ensures
            p.current_file@ == path@,
            p.total_files == total,
            p.processed_files == idx + 1,
            p.tracks_added == self.tally().tracks_added,
            p.tracks_updated == self.tally().tracks_updated,
            p.error_count == self.tally().errors@.len(),
    {
        ProgressCounts {
            current_file: path.to_string(),
            total_files: total,
            processed_files: idx + 1,
            tracks_added: self.summary.tracks_added,
            tracks_updated: self.summary.tracks_updated,
            error_count: self.summary.errors.len(),
        }
    }

    /// What processing the file at position `idx` came to; an error is
    /// kept with the file's path.
    pub fn on_file(&mut self, idx: usize, outcome: Result<ScanResult, String>) -> (p: ProgressCounts)
        requires
            idx < old(self).files().len(),
            old(self).tally().tracks_added < u32::MAX,
            old(self).tally().tracks_updated < u32::MAX,
            old(self).tally().skipped_unplayable < u32::MAX,
            old(self).tally().errors@.len() < usize::MAX,
        ensures
            final(self).roots() == old(self).roots(),
            final(self).files() == old(self).files(),
            final(self).tally().tracks_removed == old(self).tally().tracks_removed,
            final(self).tally().tracks_added == old(self).tally().tracks_added + if outcome
                == Ok::<ScanResult, String>(ScanResult::Added) {
                1int
            } else {
                0int
            },
            final(self).tally().tracks_updated == old(self).tally().tracks_updated + if outcome
                == Ok::<ScanResult, String>(ScanResult::Updated) {
                1int
            } else {
                0int
            },
            final(self).tally().skipped_unplayable == old(self).tally().skipped_unplayable + if outcome
                == Ok::<ScanResult, String>(ScanResult::SkippedUnplayable) {
                1int
            } else {
                0int
            },
            final(self).errors() == match outcome {
                Err(e) => old(self).errors().push(old(self).files()[idx as int] + ": "@ + e@),
                Ok(_) => old(self).errors(),
            },
            p.current_file@ == old(self).files()[idx as int],
            p.total_files == old(self).files().len(),
            p.processed_files == idx + 1,
            p.tracks_added == final(self).tally().tracks_added,
            p.tracks_updated == final(self).tally().tracks_updated,
            p.error_count == final(self).tally().errors@.len(),
    {
        assert(self.files()[idx as int] == self.files@[idx as int]@);
        match outcome {
            Ok(ScanResult::Added) => {
                self.summary.tracks_added = self.summary.tracks_added + 1;
            },
            Ok(ScanResult::Updated) => {
                self.summary.tracks_updated = self.summary.tracks_updated + 1;
            },
            Ok(ScanResult::Skipped) => {},
            Ok(ScanResult::SkippedUnplayable) => {
                self.summary.skipped_unplayable = self.summary.skipped_unplayable + 1;
            },
            Err(e) => {
                let mut text = chars_of(self.files[idx].as_str());
                push_str(&mut text, ": ");
                push_str(&mut text, e.as_str());
                self.push_error(text);
            },
        }
        ProgressCounts {
            current_file: string_of(&chars_of(self.files[idx].as_str())),
            total_files: self.files.len(),
            processed_files: idx + 1,
            tracks_added: self.summary.tracks_added,
            tracks_updated: self.summary.tracks_updated,
            error_count: self.summary.errors.len(),
        }
    }

    /// The ids, in order, of the stored records (id and path) that lie
    /// under a scanned root and were not found.
    pub fn stale(&self, stored: &Vec<(u64, String)>) -> (ids: Vec<u64>)
        ensures
            ids@ == stale_ids(stored_view(stored@), self.roots(), self.files()),
    {
        let ghost sv = stored_view(stored@);
        let mut ids: Vec<u64> = Vec::new();
        let mut i: usize = 0;
        while i < stored.len()
            invariant
                i <= stored@.len(),
                sv == stored_view(stored@),
                ids@ == stale_ids(sv.take(i as int), self.roots(), self.files()),
            decreases stored@.len() - i,
        {
            let ghost t = sv.take(i + 1);
            assert(t.drop_last() =~= sv.take(i as int));
            assert(t.last() == (stored@[i as int].0, stored@[i as int].1@));
            let p = stored[i].1.as_str();
            if under_any(p, &self.roots) && !among(p, &self.files) {
                ids.push(stored[i].0);
            }
            i = i + 1;
        }
        assert(sv.take(i as int) =~= sv);
        ids
    }

    /// `count` stale records were to be removed; `failure` says why their
    /// removal failed, if it did.
    pub fn on_removed(&mut self, count: u32, failure: Option<String>)
        requires
            old(self).tally().errors@.len() < usize::MAX,
        ensures
            final(self).roots() == old(self).roots(),
            final(self).files() == old(self).files(),
            final(self).tally().tracks_added == old(self).tally().tracks_added,
            final(self).tally().tracks_updated == old(self).tally().tracks_updated,
            final(self).tally().skipped_unplayable == old(self).tally().skipped_unplayable,
            match failure {
                None => final(self).tally().tracks_removed == count && final(self).errors() == old(
                    self,
                ).errors(),
                Some(e) => final(self).tally().tracks_removed == 0 && final(self).errors() == old(
                    self,
                ).errors().push(
                    "Failed to remove "@ + decimal(count as nat) + " stale tracks: "@ + e@,
                ),
            },
    {
        match failure {
            None => {
                self.summary.tracks_removed = count;
            },
            Some(e) => {
                let mut text = chars_of("Failed to remove ");
                push_decimal(&mut text, count as u64);
                push_str(&mut text, " stale tracks: ");
                push_str(&mut text, e.as_str());
                proof {
                    assert(text@ =~= "Failed to remove "@ + decimal(count as nat)
                        + " stale tracks: "@ + e@);
                }
                self.push_error(text);
                self.summary.tracks_removed = 0;
            },
        }
    }

    /// The stored records could not be listed, so none is checked for
    /// staleness.
    pub fn on_listing_failed(&mut self, e: &str)
        requires
            old(self).tally().errors@.len() < usize::MAX,
        ensures
            final(self).roots() == old(self).roots(),
            final(self).files() == old(self).files(),
            final(self).tally().tracks_added == old(self).tally().tracks_added,
            final(self).tally().tracks_updated == old(self).tally().tracks_updated,
            final(self).tally().tracks_removed == old(self).tally().tracks_removed,
            final(self).tally().skipped_unplayable == old(self).tally().skipped_unplayable,
            final(self).errors() == old(self).errors().push("Failed to check stale tracks: "@ + e@),
    {
        let mut text = chars_of("Failed to check stale tracks: ");
        push_str(&mut text, e);
        self.push_error(text);
    }

    /// One row of the system `MediaStore` table (Android): the scan's roots
    /// are the sandboxed directories, `known` says whether the library has a
    /// record at the row's path, `tags` is the duration the file's tags give
    /// (`None` when they could not be read) and `secondary_ok` whether a
    /// second probe found a positive duration.
    pub fn on_row(&mut self, row: &MediaStoreRawTrack, known: bool, tags: Option<u32>, secondary_ok: bool) -> (a: RowAction)
        requires
            old(self).tally().tracks_added < u32::MAX,
            old(self).tally().tracks_updated < u32::MAX,
            old(self).tally().skipped_unplayable < u32::MAX,
        ensures
            a == row_action(
                row.path@,
                old(self).roots(),
                known,
                tags,
                secondary_ok,
                row_seconds(row.duration_ms),
            ),
            final(self).roots() == old(self).roots(),
            final(self).files() == old(self).files(),
            final(self).errors() == old(self).errors(),
            final(self).tally().tracks_removed == old(self).tally().tracks_removed,
            final(self).tally().skipped_unplayable == old(self).tally().skipped_unplayable + if a
                == RowAction::Unplayable {
                1int
            } else {
                0int
            },
            final(self).tally().tracks_updated == old(self).tally().tracks_updated + if a
                == (RowAction::FromTags { update: true }) || a == (RowAction::FromRow {
                update: true,
            }) {
                1int
            } else {
                0int
            },
            final(self).tally().tracks_added == old(self).tally().tracks_added + if a
                == (RowAction::FromTags { update: false }) || a == (RowAction::FromRow {
                update: false,
            }) {
                1int
            } else {
                0int
            },
    {
        assert(self.roots@.map_values(|s: String| s@) =~= self.roots());
        let secs = row.duration_ms / 1000;
        let secs32: u32 = (secs % 0x1_0000_0000) as u32;
        let action = if !wants_row(row.path.as_str(), &self.roots) {
            RowAction::Ignore
        } else {
            match tags {
                Some(d) => {
                    if d > 0 {
                        RowAction::FromTags { update: known }
                    } else if !secondary_ok {
                        RowAction::Unplayable
                    } else if secs32 == 0 {
                        RowAction::Unplayable
                    } else {
                        RowAction::FromRow { update: known }
                    }
                },
                None => {
                    if secs32 == 0 {
                        RowAction::Unplayable
                    } else {
                        RowAction::FromRow { update: known }
                    }
                },
            }
        };
        match action {
            RowAction::Ignore => {},
            RowAction::Unplayable => {
                self.summary.skipped_unplayable = self.summary.skipped_unplayable + 1;
            },
            RowAction::FromTags { update } | RowAction::FromRow { update } => {
                if update {
                    self.summary.tracks_updated = self.summary.tracks_updated + 1;
                } else {
                    self.summary.tracks_added = self.summary.tracks_added + 1;
                }
            },
        }
        action
    }
}

/// What processing a file that was read comes to: unplayable without a
/// duration, else an update of a known record or a new one.
pub fn read_outcome(known: bool, duration: Option<u32>) -> (r: ScanResult)
    ensures
        r == match duration {
            None => ScanResult::SkippedUnplayable,
            Some(_) => if known {
                ScanResult::Updated
            } else {
                ScanResult::Added
            },
        },
{
    match duration {
        None => ScanResult::SkippedUnplayable,
        Some(_) => {
            if known {
                ScanResult::Updated
            } else {
                ScanResult::Added
            }
        },
    }
}

} // verus!
