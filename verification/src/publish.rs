//! Publishing a finished download to the shared `Download/Auralis` folder.
//!
//! On Android 10+ the copy goes into a `MediaStore` row created invisible
//! (`is_pending = 1`). A row inserted pending is always either made visible
//! or removed: it is made visible only when the byte copy completed, and if
//! the visibility step did not demonstrably happen the row is deleted. The
//! decision lives here; the platform calls that carry it out live with the
//! application.
use vstd::prelude::*;
use crate::paths::{file_name_of, path_file_name};
use crate::text::{chars_of, contains_text, occurs, starts_with_str, string_of};

verus! {

/// How the byte copy into the `MediaStore` stream ended.
#[derive(Debug, Clone, Copy, PartialEq, Eq, Structural)]
pub enum CopyOutcome {
    /// Every source byte reached the row's file and the stream closed.
    Complete,
    /// Anything else; the row holds a truncated file (or nothing).
    Failed,
}

/// What the `is_pending = 0` update reported.
#[derive(Debug, Clone, Copy, PartialEq, Eq, Structural)]
pub enum ClearOutcome {
    /// Not attempted (yet).
    NotAttempted,
    /// At least one row was updated.
    Updated,
    /// The update matched no row, so visibility was not achieved.
    NoRows,
    /// The update itself failed.
    Failed,
}

/// The two ways a pending row can be resolved.
#[derive(Debug, Clone, Copy, PartialEq, Eq, Structural)]
pub enum PendingStep {
    Clear,
    Delete,
}

/// What became of a pending row.
#[derive(Debug, Clone, Copy, PartialEq, Eq, Structural)]
pub enum PendingOutcome {
    /// `is_pending = 0` was applied; the file is visible.
    Visible,
    /// The row is gone.
    Removed,
    /// Deleting the row failed too; it is still there and still invisible.
    Unresolved,
}

/// The next step for a pending row, as a decision table.
pub open spec fn next_step_spec(copy: CopyOutcome, clear: ClearOutcome) -> Option<PendingStep> {
    match (copy, clear) {
        (CopyOutcome::Complete, ClearOutcome::NotAttempted) => Some(PendingStep::Clear),
        (CopyOutcome::Complete, ClearOutcome::Updated) => None,
        (CopyOutcome::Complete, _) => Some(PendingStep::Delete),
        (CopyOutcome::Failed, _) => Some(PendingStep::Delete),
    }
}

/// Decide the next step for a pending row: clear only after a complete
/// copy, stop only once the clear updated the row, delete in every other
/// case.
pub fn next_step(copy: CopyOutcome, clear: ClearOutcome) -> (r: Option<PendingStep>)
    ensures
        r == next_step_spec(copy, clear),
{
    match (copy, clear) {
        (CopyOutcome::Complete, ClearOutcome::NotAttempted) => Some(PendingStep::Clear),
        (CopyOutcome::Complete, ClearOutcome::Updated) => None,
        (CopyOutcome::Complete, ClearOutcome::NoRows) => Some(PendingStep::Delete),
        (CopyOutcome::Complete, ClearOutcome::Failed) => Some(PendingStep::Delete),
        (CopyOutcome::Failed, _) => Some(PendingStep::Delete),
    }
}

/// The first action on a freshly copied row: `true` to attempt the clear,
/// `false` to go straight to the delete.
pub fn should_attempt_clear(copy: CopyOutcome) -> (r: bool)
    ensures
        r == (next_step_spec(copy, ClearOutcome::NotAttempted) == Some(PendingStep::Clear)),
        r == (copy == CopyOutcome::Complete),
{
    match next_step(copy, ClearOutcome::NotAttempted) {
        Some(PendingStep::Clear) => true,
        _ => false,
    }
}

/// Whether, after the clear reported `clear`, the row must be deleted.
pub fn must_delete(copy: CopyOutcome, clear: ClearOutcome) -> (r: bool)
    ensures
        r == (next_step_spec(copy, clear) == Some(PendingStep::Delete)),
{
    match next_step(copy, clear) {
        Some(PendingStep::Delete) => true,
        _ => false,
    }
}

/// The final state of a row given how the copy, the clear and (when it was
/// needed) the delete went.
pub open spec fn resolution(copy: CopyOutcome, clear: ClearOutcome, deleted: bool) -> PendingOutcome {
    if next_step_spec(copy, clear) == Some(PendingStep::Delete) {
        if deleted {
            PendingOutcome::Removed
        } else {
            PendingOutcome::Unresolved
        }
    } else {
        PendingOutcome::Visible
    }
}

/// Outcome of resolving a row, once the delete (if any) has reported.
pub fn resolve_outcome(copy: CopyOutcome, clear: ClearOutcome, deleted: bool) -> (r: PendingOutcome)
    ensures
        r == resolution(copy, clear, deleted),
{
    if must_delete(copy, clear) {
        if deleted {
            PendingOutcome::Removed
        } else {
            PendingOutcome::Unresolved
        }
    } else {
        PendingOutcome::Visible
    }
}

/// A pending row is made visible only after a complete copy whose clear
/// updated the row; in every other case where the clear was tried (or
/// skipped for an incomplete copy) the next step is the delete.
pub proof fn law_visible_only_after_complete_copy(copy: CopyOutcome, clear: ClearOutcome)
    ensures
        next_step_spec(copy, clear) is None <==> (copy == CopyOutcome::Complete && clear
            == ClearOutcome::Updated),
        next_step_spec(copy, clear) == Some(PendingStep::Clear) <==> (copy == CopyOutcome::Complete
            && clear == ClearOutcome::NotAttempted),
        copy == CopyOutcome::Failed ==> next_step_spec(copy, clear) == Some(PendingStep::Delete),
{
}

/// The two-step protocol always ends: after the clear has been attempted
/// (whatever it reported) the table never asks for another clear, so a row
/// ends visible, removed, or (only when the delete itself fails) unresolved.
pub proof fn law_resolution_terminates(copy: CopyOutcome, clear: ClearOutcome, deleted: bool)
    requires
        clear != ClearOutcome::NotAttempted || copy == CopyOutcome::Failed,
    ensures
        next_step_spec(copy, clear) != Some(PendingStep::Clear),
        resolution(copy, clear, deleted) == PendingOutcome::Visible <==> (copy
            == CopyOutcome::Complete && clear == ClearOutcome::Updated),
        resolution(copy, clear, deleted) == PendingOutcome::Unresolved ==> !deleted,
{
}

/// A path worth copying into the play cache when it cannot be opened
/// directly: one in shared `Download` storage, or a `content://` URI.
pub open spec fn cache_candidate(path: Seq<char>) -> bool {
    occurs(path, "Download"@) || ("content://"@.len() <= path.len() && path.take(
        "content://"@.len() as int,
    ) == "content://"@)
}

/// A cache candidate with a non-empty file name.
pub open spec fn cache_copy_wanted(path: Seq<char>) -> bool {
    &&& cache_candidate(path)
    &&& path_file_name(path) matches Some(n) && n.len() > 0
}

/// The name to give the play-cache copy of `path`: its file name, when the
/// path is a cache candidate and that name is not empty; otherwise no copy
/// is made.
pub fn cache_copy_name(path: &str) -> (r: Option<String>)
    ensures
        r matches Some(n) ==> cache_candidate(path@) && path_file_name(path@) == Some(n@),
        r is Some <==> cache_copy_wanted(path@),
{
    let p = chars_of(path);
    let wanted = contains_text(&p, &chars_of("Download")) || starts_with_str(&p, "content://");
    if !wanted {
        return None;
    }
    match file_name_of(&p) {
        Some(name) => {
            if name.len() == 0 {
                None
            } else {
                Some(string_of(&name))
            }
        },
        None => None,
    }
}

} // verus!
