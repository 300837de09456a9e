//! Library scans: the walk over a directory tree (which entries are
//! skipped, descended into or collected), the per-file decisions of an
//! incremental scan, the tally of a scan, and which library records a scan
//! shows to be stale. Paths compare as `std::path::Path` compares them on
//! Unix: component by component.
use vstd::prelude::*;
use crate::paths::{file_name_of, path_file_name};
use crate::range::{split_at, split_on, views};
use crate::text::{chars_of, eq_str, lemma_texts_push, string_of, texts, trim_ws};

verus! {

/// Directories deeper than this below a scan root are not read.
pub const MAX_SCAN_DEPTH: usize = 64;

/// The pieces of a split path that name components: not empty, not `.`.
pub open spec fn named_pieces(parts: Seq<Seq<char>>) -> Seq<Seq<char>>
    decreases parts.len(),
{
    if parts.len() == 0 {
        parts
    } else {
        let rest = named_pieces(parts.drop_last());
        let p = parts.last();
        if p.len() == 0 || p == seq!['.'] {
            rest
        } else {
            rest.push(p)
        }
    }
}

/// The components of a Unix path as `Path::components` yields them: `/` for
/// a root, `.` for a leading current-directory component, then the named
/// pieces (`.` pieces and empty pieces dropped, `..` kept).
pub open spec fn components(p: Seq<char>) -> Seq<Seq<char>> {
    let lead: Seq<Seq<char>> = if p.len() > 0 && p[0] == '/' {
        seq![seq!['/']]
    } else if p.len() > 0 && p[0] == '.' && (p.len() == 1 || p[1] == '/') {
        seq![seq!['.']]
    } else {
        Seq::empty()
    };
    lead + named_pieces(split_on(p, '/'))
}

/// `Path::starts_with`: the components of `base` begin those of `p`.
pub open spec fn path_starts_with(p: Seq<char>, base: Seq<char>) -> bool {
    components(base).is_prefix_of(components(p))
}

/// `Path` equality: the same components.
pub open spec fn same_path(a: Seq<char>, b: Seq<char>) -> bool {
    components(a) == components(b)
}

fn same_chars(a: &[char], b: &[char]) -> (r: bool)
    ensures
        r == (a@ == b@),
{
    if a.len() != b.len() {
        return false;
    }
    let mut i: usize = 0;
    while i < a.len()
        invariant
            a@.len() == b@.len(),
            i <= a@.len(),
            forall|j: int| 0 <= j < i ==> a@[j] == b@[j],
        decreases a@.len() - i,
    {
        if a[i] != b[i] {
            assert(a@[i as int] != b@[i as int]);
            return false;
        }
        i = i + 1;
    }
    assert(a@ =~= b@);
    true
}

/// The components of a path.
pub fn path_components(p: &str) -> (r: Vec<Vec<char>>)
    ensures
        views(r@) == components(p@),
{
    let v = chars_of(p);
    let parts = split_at(&v, '/');
    let mut out: Vec<Vec<char>> = Vec::new();
    if v.len() > 0 && v[0] == '/' {
        let mut piece: Vec<char> = Vec::new();
        piece.push('/');
        out.push(piece);
        assert(views(out@) =~= seq![seq!['/']]);
    } else if v.len() > 0 && v[0] == '.' && (v.len() == 1 || v[1] == '/') {
        let mut piece: Vec<char> = Vec::new();
        piece.push('.');
        out.push(piece);
        assert(views(out@) =~= seq![seq!['.']]);
    } else {
        assert(views(out@) =~= Seq::<Seq<char>>::empty());
    }
    let ghost lead = views(out@);
    assert(lead == (if p@.len() > 0 && p@[0] == '/' {
        seq![seq!['/']]
    } else if p@.len() > 0 && p@[0] == '.' && (p@.len() == 1 || p@[1] == '/') {
        seq![seq!['.']]
    } else {
        Seq::<Seq<char>>::empty()
    }));
    let mut i: usize = 0;
    while i < parts.len()
        invariant
            i <= parts@.len(),
            views(parts@) == split_on(p@, '/'),
            views(out@) == lead + named_pieces(views(parts@).take(i as int)),
        decreases parts@.len() - i,
    {
        let ghost pv = views(parts@);
        assert(pv.take(i + 1).drop_last() =~= pv.take(i as int));
        assert(pv[i as int] == parts@[i as int]@);
        let piece = &parts[i];
        let dot = piece.len() == 1 && piece[0] == '.';
        proof {
            if dot {
                assert(piece@ =~= seq!['.']);
            }
        }
        assert(dot == (piece@ == seq!['.']));
        if piece.len() > 0 && !dot {
            let copy = crate::text::slice_chars(piece, 0, piece.len());
            assert(copy@ =~= piece@);
            let ghost before = views(out@);
            out.push(copy);
            assert(pv.take(i + 1).last() == piece@);
            assert(named_pieces(pv.take(i + 1)) == named_pieces(pv.take(i as int)).push(piece@));
            assert(views(out@) =~= before.push(piece@));
            assert(views(out@) =~= lead + named_pieces(pv.take(i + 1)));
        } else {
            assert(views(out@) =~= lead + named_pieces(pv.take(i + 1)));
        }
        i = i + 1;
    }
    assert(views(parts@).take(parts@.len() as int) =~= views(parts@));
    out
}

fn same_components(a: &Vec<Vec<char>>, b: &Vec<Vec<char>>, n: usize) -> (r: bool)
    requires
        n <= a@.len(),
        n <= b@.len(),
    ensures
        r == (views(a@).take(n as int) == views(b@).take(n as int)),
{
    let mut i: usize = 0;
    while i < n
        invariant
            n <= a@.len(),
            n <= b@.len(),
            i <= n,
            views(a@).take(i as int) == views(b@).take(i as int),
        decreases n - i,
    {
        assert(views(a@)[i as int] == a@[i as int]@);
        assert(views(b@)[i as int] == b@[i as int]@);
        if !same_chars(&a[i], &b[i]) {
            assert(views(a@).take(n as int)[i as int] != views(b@).take(n as int)[i as int]);
            return false;
        }
        assert(views(a@).take(i + 1) =~= views(a@).take(i as int).push(views(a@)[i as int]));
        assert(views(b@).take(i + 1) =~= views(b@).take(i as int).push(views(b@)[i as int]));
        i = i + 1;
    }
    true
}

/// `Path::starts_with` on two paths.
pub fn starts_with_path(p: &str, base: &str) -> (r: bool)
    ensures
        r == path_starts_with(p@, base@),
{
    let a = path_components(p);
    let b = path_components(base);
    if b.len() > a.len() {
        return false;
    }
    let r = same_components(&a, &b, b.len());
    assert(views(b@).take(b@.len() as int) =~= views(b@));
    r
}

/// `Path` equality on two paths.
pub fn is_same_path(x: &str, y: &str) -> (r: bool)
    ensures
        r == same_path(x@, y@),
{
    let a = path_components(x);
    let b = path_components(y);
    if a.len() != b.len() {
        return false;
    }
    let r = same_components(&a, &b, a.len());
    assert(views(a@).take(a@.len() as int) =~= views(a@));
    assert(views(b@).take(b@.len() as int) =~= views(b@));
    r
}

/// Whether a library record at `path` is stale after a scan of the roots
/// `roots` that found the files `found`: it lies under a root, and the scan
/// did not find it.
pub open spec fn stale(path: Seq<char>, roots: Seq<Seq<char>>, found: Seq<Seq<char>>) -> bool {
    (exists|j: int| 0 <= j < roots.len() && path_starts_with(path, #[trigger] roots[j])) && !(
    exists|k: int| 0 <= k < found.len() && same_path(path, #[trigger] found[k]))
}

pub(crate) fn under_any(path: &str, roots: &Vec<String>) -> (r: bool)
    ensures
        r == exists|j: int| 0 <= j < roots@.len() && path_starts_with(path@, #[trigger] texts(roots@)[j]),
{
    let mut j: usize = 0;
    while j < roots.len()
        invariant
            j <= roots@.len(),
            forall|k: int| 0 <= k < j ==> !path_starts_with(path@, #[trigger] texts(roots@)[k]),
        decreases roots@.len() - j,
    {
        assert(texts(roots@)[j as int] == roots@[j as int]@);
        if starts_with_path(path, roots[j].as_str()) {
            return true;
        }
        j = j + 1;
    }
    false
}

pub(crate) fn among(path: &str, found: &Vec<String>) -> (r: bool)
    ensures
        r == exists|k: int| 0 <= k < found@.len() && same_path(path@, #[trigger] texts(found@)[k]),
{
    let mut k: usize = 0;
    while k < found.len()
        invariant
            k <= found@.len(),
            forall|x: int| 0 <= x < k ==> !same_path(path@, #[trigger] texts(found@)[x]),
        decreases found@.len() - k,
    {
        assert(texts(found@)[k as int] == found@[k as int]@);
        if is_same_path(path, found[k].as_str()) {
            return true;
        }
        k = k + 1;
    }
    false
}

/// Positions, in order, of the library records a scan shows to be stale.
pub fn stale_records(paths: &Vec<String>, roots: &Vec<String>, found: &Vec<String>) -> (r: Vec<
    usize,
>)
    ensures
        forall|k: int| 0 <= k < r@.len() ==> #[trigger] r@[k] < paths@.len(),
        forall|k: int, l: int| 0 <= k < l < r@.len() ==> #[trigger] r@[k] < #[trigger] r@[l],
        forall|i: int|
            0 <= i < paths@.len() ==> (r@.contains(i as usize) <==> stale(
                texts(paths@)[i],
                texts(roots@),
                texts(found@),
            )),
{
    let mut out: Vec<usize> = Vec::new();
    let mut i: usize = 0;
    while i < paths.len()
        invariant
            i <= paths@.len(),
            forall|k: int| 0 <= k < out@.len() ==> #[trigger] out@[k] < i,
            forall|k: int, l: int| 0 <= k < l < out@.len() ==> #[trigger] out@[k] < #[trigger] out@[l],
            forall|x: int|
                0 <= x < i ==> (out@.contains(x as usize) <==> stale(
                    texts(paths@)[x],
                    texts(roots@),
                    texts(found@),
                )),
        decreases paths@.len() - i,
    {
        assert(texts(paths@)[i as int] == paths@[i as int]@);
        let p = paths[i].as_str();
        let gone = under_any(p, roots) && !among(p, found);
        let ghost before = out@;
        if gone {
            out.push(i);
        }
        assert forall|x: int|
            0 <= x < i + 1 implies (out@.contains(x as usize) <==> stale(
            texts(paths@)[x],
            texts(roots@),
            texts(found@),
        )) by {
            if x < i {
                if out@.contains(x as usize) {
                    let k = choose|k: int| 0 <= k < out@.len() && out@[k] == x as usize;
                    if k < before.len() {
                        assert(before[k] == x as usize);
                        assert(before.contains(x as usize));
                    }
                }
                if before.contains(x as usize) {
                    let k = choose|k: int| 0 <= k < before.len() && before[k] == x as usize;
                    assert(out@[k] == x as usize);
                }
            } else {
                if out@.contains(x as usize) && !gone {
                    let k = choose|k: int| 0 <= k < out@.len() && out@[k] == x as usize;
                    assert(out@[k] < i);
                }
                if gone {
                    assert(out@[before.len() as int] == i);
                } else {
                    if out@.contains(x as usize) {
                        let k = choose|k: int| 0 <= k < out@.len() && out@[k] == x as usize;
                        assert(out@[k] < i);
                    }
                }
            }
        }
        i = i + 1;
    }
    out
}

/// What a directory walk does with one entry.
#[derive(Debug, Clone, Copy, PartialEq, Eq, Structural)]
pub enum EntryAction {
    /// A hidden entry (its name starts with `.`).
    Hidden,
    /// A symbolic link to a directory: never followed.
    SymlinkedDir,
    /// A directory already walked (same canonical path).
    AlreadyVisited,
    /// A directory to walk.
    Descend,
    /// A wanted file, recorded.
    Collect,
    /// A wanted file found before.
    Duplicate,
    /// Anything else.
    Ignore,
}

/// What one directory entry says about itself.
#[derive(Debug, Clone)]
pub struct EntryFacts {
    pub path: String,
    pub name: String,
    pub is_symlink: bool,
    pub is_dir: bool,
    pub is_file: bool,
    /// The canonical path of a directory, when it could be resolved.
    pub canonical: Option<String>,
}

/// A directory walk in progress: the directories still to read, the
/// canonical paths of the directories taken, and the files collected.
pub struct DirWalk {
    pending: Vec<(String, usize)>,
    visited: Vec<String>,
    found: Vec<String>,
    unique: bool,
}

/// The decision on one entry, given the canonical directories taken, the
/// files collected, and whether the entry is a file the scan wants.
pub open spec fn entry_action(
    visited: Seq<Seq<char>>,
    found: Seq<Seq<char>>,
    unique: bool,
    name: Seq<char>,
    path: Seq<char>,
    is_symlink: bool,
    is_dir: bool,
    is_file: bool,
    canonical: Option<Seq<char>>,
    wanted: bool,
) -> EntryAction {
    if name.len() > 0 && name[0] == '.' {
        EntryAction::Hidden
    } else if is_symlink && is_dir {
        EntryAction::SymlinkedDir
    } else if is_dir {
        if canonical is Some && visited.contains(canonical->0) {
            EntryAction::AlreadyVisited
        } else {
            EntryAction::Descend
        }
    } else if is_file && wanted {
        if unique && exists|k: int| 0 <= k < found.len() && same_path(path, #[trigger] found[k]) {
            EntryAction::Duplicate
        } else {
            EntryAction::Collect
        }
    } else {
        EntryAction::Ignore
    }
}

impl DirWalk {
    /// Directories still to read, with their depth below the root.
    pub closed spec fn pending_view(&self) -> Seq<(Seq<char>, usize)> {
        self.pending@.map_values(|e: (String, usize)| (e.0@, e.1))
    }

    /// Canonical paths of the directories taken.
    pub closed spec fn visited_view(&self) -> Seq<Seq<char>> {
        texts(self.visited@)
    }

    /// Files collected, in the order they were found.
    pub closed spec fn found_view(&self) -> Seq<Seq<char>> {
        texts(self.found@)
    }

    /// Whether a file found twice is collected once.
    pub closed spec fn unique_files(&self) -> bool {
        self.unique
    }

    /// No directory waits deeper than one level below the depth limit.
    pub open spec fn wf(&self) -> bool {
        forall|i: int|
            0 <= i < self.pending_view().len() ==> #[trigger] self.pending_view()[i].1
                <= MAX_SCAN_DEPTH + 1
    }

    /// A walk of the tree at `root`, whose canonical path is
    /// `root_canonical` when it could be resolved; `unique` collects a file
    /// found twice only once.
    pub fn new(root: &str, root_canonical: Option<String>, unique: bool) -> (r: Self)
        ensures
            r.wf(),
            r.pending_view() == seq![(root@, 0usize)],
            r.visited_view() == match root_canonical {
                Some(c) => seq![c@],
                None => Seq::empty(),
            },
            r.found_view().len() == 0,
            r.unique_files() == unique,
    {
        let mut pending: Vec<(String, usize)> = Vec::new();
        pending.push((string_of(&chars_of(root)), 0));
        let ghost want: Seq<Seq<char>> = match &root_canonical {
            Some(c) => seq![c@],
            None => Seq::empty(),
        };
        let mut visited: Vec<String> = Vec::new();
        match root_canonical {
            Some(c) => {
                visited.push(c);
                assert(texts(visited@) =~= want);
            },
            None => {
                assert(texts(visited@) =~= want);
            },
        }
        let r = DirWalk { pending, visited, found: Vec::new(), unique };
        assert(r.pending_view() =~= seq![(root@, 0usize)]);
        assert(texts(r.found@) =~= Seq::<Seq<char>>::empty());
        r
    }

    /// The next directory to read, with its depth: the most recently found
    /// one within the depth limit; deeper ones are dropped on the way.
    pub fn next_dir(&mut self) -> (r: Option<(String, usize)>)
        requires
            old(self).wf(),
        ensures
            final(self).wf(),
            final(self).visited_view() == old(self).visited_view(),
            final(self).found_view() == old(self).found_view(),
            final(self).unique_files() == old(self).unique_files(),
            final(self).pending_view().is_prefix_of(old(self).pending_view()),
            match r {
                Some((dir, depth)) => {
                    &&& depth <= MAX_SCAN_DEPTH
                    &&& final(self).pending_view().len() < old(self).pending_view().len()
                    &&& old(self).pending_view()[final(self).pending_view().len() as int] == (
                    dir@, depth)
                    &&& forall|i: int|
                        final(self).pending_view().len() < i < old(self).pending_view().len()
                            ==> #[trigger] old(self).pending_view()[i].1 > MAX_SCAN_DEPTH
                },
                None => final(self).pending_view().len() == 0 && forall|i: int|
                    0 <= i < old(self).pending_view().len() ==> #[trigger] old(
                        self,
                    ).pending_view()[i].1 > MAX_SCAN_DEPTH,
            },
    {
        let ghost start = self.pending_view();
        loop
            invariant
                self.wf(),
                self.visited_view() == old(self).visited_view(),
                self.found_view() == old(self).found_view(),
                self.unique_files() == old(self).unique_files(),
                start == old(self).pending_view(),
                self.pending_view().is_prefix_of(start),
                forall|i: int|
                    self.pending_view().len() <= i < start.len() ==> #[trigger] start[i].1
                        > MAX_SCAN_DEPTH,
            decreases self.pending@.len(),
        {
            let ghost before = self.pending_view();
            match self.pending.pop() {
                None => {
                    assert(before.len() == 0);
                    return None;
                },
                Some((dir, depth)) => {
                    assert(self.pending_view() =~= before.drop_last());
                    assert(before.last() == (dir@, depth));
                    assert(start[self.pending_view().len() as int] == before.last());
                    if depth <= MAX_SCAN_DEPTH {
                        return Some((dir, depth));
                    }
                },
            }
        }
    }

    /// Take one entry of a directory read at `depth`: `wanted` says whether
    /// it is a file the scan collects.
    #[verifier::loop_isolation(false)]
    pub fn visit(&mut self, depth: usize, entry: EntryFacts, wanted: bool) -> (r: EntryAction)
        requires
            old(self).wf(),
            depth <= MAX_SCAN_DEPTH,
        ensures
            final(self).wf(),
            final(self).unique_files() == old(self).unique_files(),
            r == entry_action(
                old(self).visited_view(),
                old(self).found_view(),
                old(self).unique_files(),
                entry.name@,
                entry.path@,
                entry.is_symlink,
                entry.is_dir,
                entry.is_file,
                match entry.canonical {
                    Some(c) => Some(c@),
                    None => None,
                },
                wanted,
            ),
            r == EntryAction::Descend ==> final(self).pending_view() == old(
                self,
            ).pending_view().push((entry.path@, (depth + 1) as usize)) && final(self).visited_view()
                == match entry.canonical {
                Some(c) => old(self).visited_view().push(c@),
                None => old(self).visited_view(),
            } && final(self).found_view() == old(self).found_view(),
            r == EntryAction::Collect ==> final(self).found_view() == old(self).found_view().push(
                entry.path@,
            ) && final(self).pending_view() == old(self).pending_view()
                && final(self).visited_view() == old(self).visited_view(),
            r != EntryAction::Descend && r != EntryAction::Collect ==> final(self).pending_view()
                == old(self).pending_view() && final(self).visited_view() == old(
                self,
            ).visited_view() && final(self).found_view() == old(self).found_view(),
    {
        let name = chars_of(entry.name.as_str());
        if name.len() > 0 && name[0] == '.' {
            return EntryAction::Hidden;
        }
        if entry.is_symlink && entry.is_dir {
            return EntryAction::SymlinkedDir;
        }
        if entry.is_dir {
            match entry.canonical {
                Some(c) => {
                    let mut k: usize = 0;
                    while k < self.visited.len()
                        invariant
                            k <= self.visited@.len(),
                            forall|x: int|
                                0 <= x < k ==> #[trigger] texts(self.visited@)[x] != c@,
                        decreases self.visited@.len() - k,
                    {
                        assert(texts(self.visited@)[k as int] == self.visited@[k as int]@);
                        if same_chars(&chars_of(self.visited[k].as_str()), &chars_of(c.as_str())) {
                            assert(self.visited_view().contains(c@));
                            return EntryAction::AlreadyVisited;
                        }
                        k = k + 1;
                    }
                    assert(!self.visited_view().contains(c@));
                    let ghost vb = self.visited@;
                    proof {
                        lemma_texts_push(vb, c);
                    }
                    self.visited.push(c);
                },
                None => {},
            }
            let ghost pb = self.pending_view();
            self.pending.push((entry.path, depth + 1));
            assert(self.pending_view() =~= pb.push((entry.path@, (depth + 1) as usize)));
            return EntryAction::Descend;
        }
        if entry.is_file && wanted {
            if self.unique {
                let mut k: usize = 0;
                while k < self.found.len()
                    invariant
                        k <= self.found@.len(),
                        forall|x: int|
                            0 <= x < k ==> !same_path(entry.path@, #[trigger] texts(self.found@)[x]),
                    decreases self.found@.len() - k,
                {
                    assert(texts(self.found@)[k as int] == self.found@[k as int]@);
                    if is_same_path(entry.path.as_str(), self.found[k].as_str()) {
                        return EntryAction::Duplicate;
                    }
                    k = k + 1;
                }
            }
            let ghost fb = self.found@;
            proof {
                lemma_texts_push(fb, entry.path);
            }
            self.found.push(entry.path);
            return EntryAction::Collect;
        }
        EntryAction::Ignore
    }

    /// The files collected so far.
    pub fn files(&self) -> (r: &Vec<String>)
        ensures
            texts(r@) == self.found_view(),
    {
        &self.found
    }
}

/// What processing one file of a scan came to.
#[derive(Debug, Clone, Copy, PartialEq, Eq, Structural)]
pub enum ScanResult {
    Added,
    Updated,
    Skipped,
    SkippedUnplayable,
}

/// What a library record remembers of its file.
#[derive(Debug, Clone, Copy, PartialEq, Eq, Structural)]
pub struct KnownFile {
    pub mtime: i64,
    pub file_size: u64,
    pub duration_secs: u32,
}

/// Whether an indexed file can be skipped: same modification time and size
/// as recorded; when `recheck_silent` (the Android scanner), a record with
/// no duration is always read again.
pub open spec fn unchanged_spec(known: Option<KnownFile>, mtime: i64, size: u64, recheck_silent: bool) -> bool {
    match known {
        Some(k) => !(recheck_silent && k.duration_secs == 0) && k.mtime == mtime && k.file_size
            == size,
        None => false,
    }
}

/// Decide whether a file of an incremental scan can be skipped.
pub fn is_unchanged(known: Option<KnownFile>, mtime: i64, size: u64, recheck_silent: bool) -> (r:
    bool)
    ensures
        r == unchanged_spec(known, mtime, size, recheck_silent),
{
    match known {
        Some(k) => !(recheck_silent && k.duration_secs == 0) && k.mtime == mtime && k.file_size
            == size,
        None => false,
    }
}

/// The duration a sandboxed file is indexed with: the tag reader's when it
/// is positive, else the second probe's when that one is; `None` marks the
/// file unplayable.
pub open spec fn playable_spec(primary: u32, secondary: Option<u32>) -> Option<u32> {
    if primary > 0 {
        Some(primary)
    } else {
        match secondary {
            Some(d) => if d > 0 {
                Some(d)
            } else {
                None
            },
            None => None,
        }
    }
}

/// Decide the indexed duration of a file from its two probes.
pub fn playable_duration(primary: u32, secondary: Option<u32>) -> (r: Option<u32>)
    ensures
        r == playable_spec(primary, secondary),
{
    if primary > 0 {
        Some(primary)
    } else {
        match secondary {
            Some(d) => if d > 0 {
                Some(d)
            } else {
                None
            },
            None => None,
        }
    }
}

/// Whether a title says nothing: blank, or the tag reader's `Unknown`.
pub open spec fn untitled(title: Seq<char>) -> bool {
    trim_ws(title).len() == 0 || title == "Unknown"@
}

/// The title a track is listed under: its own, unless that says nothing;
/// then `fallback`.
pub open spec fn listed_title(title: Seq<char>, fallback: Seq<char>) -> Seq<char> {
    if untitled(title) {
        fallback
    } else {
        title
    }
}

/// The title a track is listed under, falling back to `fallback`.
pub fn title_or(title: &str, fallback: &str) -> (r: String)
    ensures
        r@ == listed_title(title@, fallback@),
{
    let t = chars_of(title);
    let blank = crate::text::trim(&t).len() == 0;
    if blank || eq_str(&t, "Unknown") {
        string_of(&chars_of(fallback))
    } else {
        string_of(&t)
    }
}

/// The genre written to a tag: a genre with some non-blank text, else none
/// (the tag's genre is then removed).
pub fn kept_genre(genre: Option<&str>) -> (r: Option<String>)
    ensures
        match genre {
            Some(g) => if trim_ws(g@).len() > 0 {
                r matches Some(s) && s@ == g@
            } else {
                r is None
            },
            None => r is None,
        },
{
    match genre {
        Some(g) => {
            let v = chars_of(g);
            if crate::text::trim(&v).len() > 0 {
                Some(string_of(&v))
            } else {
                None
            }
        },
        None => None,
    }
}

/// The name a file given by name or path is stored under: its final
/// component, or the name itself when it has none.
pub open spec fn ingest_name_spec(name: Seq<char>) -> Seq<char> {
    match path_file_name(name) {
        Some(f) => f,
        None => name,
    }
}

/// The name an imported buffer is stored under inside the sandbox, so that
/// a path handed over by a picker cannot point outside it.
pub fn ingest_name(name: &str) -> (r: String)
    ensures
        r@ == ingest_name_spec(name@),
{
    let v = chars_of(name);
    match file_name_of(&v) {
        Some(f) => string_of(&f),
        None => string_of(&v),
    }
}

/// Totals of a library scan.
#[derive(Debug, Clone)]
pub struct ScanSummary {
    pub tracks_added: u32,
    pub tracks_updated: u32,
    pub tracks_removed: u32,
    pub skipped_unplayable: u32,
    pub errors: Vec<String>,
}

impl ScanSummary {
    /// Nothing counted yet.
    pub fn new() -> (r: Self)
        ensures
            r.tracks_added == 0 && r.tracks_updated == 0 && r.tracks_removed == 0
                && r.skipped_unplayable == 0 && r.errors@.len() == 0,
    {
        ScanSummary {
            tracks_added: 0,
            tracks_updated: 0,
            tracks_removed: 0,
            skipped_unplayable: 0,
            errors: Vec::new(),
        }
    }

    /// Count the outcome of one file; an error is kept with its message.
    pub fn record(&mut self, outcome: Result<ScanResult, String>)
        requires
            old(self).tracks_added < u32::MAX,
            old(self).tracks_updated < u32::MAX,
            old(self).skipped_unplayable < u32::MAX,
        ensures
            final(self).tracks_removed == old(self).tracks_removed,
            final(self).tracks_added == old(self).tracks_added + if outcome == Ok::<ScanResult, String>(ScanResult::Added) {
                1int
            } else {
                0int
            },
            final(self).tracks_updated == old(self).tracks_updated + if outcome == Ok::<ScanResult, String>(ScanResult::Updated) {
                1int
            } else {
                0int
            },
            final(self).skipped_unplayable == old(self).skipped_unplayable + if outcome == Ok::<ScanResult, String>(ScanResult::SkippedUnplayable) {
                1int
            } else {
                0int
            },
            texts(final(self).errors@) == match outcome {
                Err(e) => texts(old(self).errors@).push(e@),
                Ok(_) => texts(old(self).errors@),
            },
    {
        match outcome {
            Ok(ScanResult::Added) => {
                self.tracks_added = self.tracks_added + 1;
            },
            Ok(ScanResult::Updated) => {
                self.tracks_updated = self.tracks_updated + 1;
            },
            Ok(ScanResult::Skipped) => {},
            Ok(ScanResult::SkippedUnplayable) => {
                self.skipped_unplayable = self.skipped_unplayable + 1;
            },
            Err(e) => {
                proof {
                    lemma_texts_push(self.errors@, e);
                }
                self.errors.push(e);
            },
        }
    }
}

/// A stale record is one the scan could have found: it is never outside
/// every scanned root, and never a file the scan found.
pub proof fn law_stale_only_in_scope(path: Seq<char>, roots: Seq<Seq<char>>, found: Seq<Seq<char>>, k: int)
    requires
        0 <= k < found.len(),
        same_path(path, found[k]),
    ensures
        !stale(path, roots, found),
{
}

/// A path lies under itself, and a root covers the files below it.
pub proof fn law_path_under_itself(p: Seq<char>)
    ensures
        path_starts_with(p, p),
        same_path(p, p),
{
}

/// An incremental scan skips a file only when the library has a record of
/// it with both the same modification time and the same size; a change of
/// either, or no record, means the file is read again. With those equal,
/// the desktop scanner always skips, and the Android scanner skips unless
/// the record has no duration.
pub proof fn law_skip_needs_same_time_and_size(
    known: Option<KnownFile>,
    mtime: i64,
    size: u64,
    recheck_silent: bool,
)
    ensures
        unchanged_spec(known, mtime, size, recheck_silent) ==> (known matches Some(k) && k.mtime
            == mtime && k.file_size == size),
        known is None ==> !unchanged_spec(known, mtime, size, recheck_silent),
        known matches Some(k) && (k.mtime != mtime || k.file_size != size) ==> !unchanged_spec(
            known,
            mtime,
            size,
            recheck_silent,
        ),
        forall|k: KnownFile|
            known == Some(k) && k.mtime == mtime && k.file_size == size ==> (unchanged_spec(
                known,
                mtime,
                size,
                recheck_silent,
            ) <==> !(recheck_silent && k.duration_secs == 0)),
{
}

} // verus!
