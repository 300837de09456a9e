//! Exclusion patterns of the desktop scanner. A pattern excludes a path
//! when, as a glob, it matches the path or its file name; a pattern ending
//! in `/` also excludes every path whose parent directory contains the rest
//! of it, and any other pattern every path that contains it. Glob matching
//! is the `glob` crate's.
use vstd::prelude::*;
use crate::paths::{file_name_of, path_file_name};
use crate::text::{chars_of, contains_text, occurs, slice_chars, string_of};

verus! {

#[verifier::external_type_specification]
#[verifier::external_body]
pub struct ExGlobPattern(glob::Pattern);

/// Whether `glob::Pattern::new` accepts `pattern`.
pub uninterp spec fn glob_valid(pattern: Seq<char>) -> bool;

/// Whether the glob `pattern` matches `text` (`glob::Pattern::matches`
/// with the default options).
pub uninterp spec fn glob_matches(pattern: Seq<char>, text: Seq<char>) -> bool;

/// `glob::Pattern::new`: a compiled pattern when the pattern is valid, as
/// `glob_valid` names it; the compile error is dropped.
#[verifier::external_body]
fn compile_glob(pattern: &str) -> (r: Option<glob::Pattern>)
    ensures
        r is Some <==> glob_valid(pattern@),
{
    glob::Pattern::new(pattern).ok()
}

/// A glob compiled from `source`.
pub struct Glob {
    source: String,
    compiled: glob::Pattern,
}

impl Glob {
    /// The text the glob was compiled from.
    pub closed spec fn view(&self) -> Seq<char> {
        self.source@
    }

    /// Compile `pattern`; `None` when it is not a valid glob.
    pub fn new(pattern: &str) -> (r: Option<Glob>)
        ensures
            r is Some <==> glob_valid(pattern@),
            r matches Some(g) ==> g@ == pattern@,
    {
        match compile_glob(pattern) {
            Some(compiled) => Some(Glob { source: string_of(&chars_of(pattern)), compiled }),
            None => None,
        }
    }

    /// `glob::Pattern::matches` on the glob compiled from `self@`: whether
    /// it matches `text`, as `glob_matches` names it. That the compiled
    /// pattern belongs to the source text holds because `Glob::new` is the
    /// only way to build a `Glob`.
    #[verifier::external_body]
    pub(crate) fn matches(&self, text: &str) -> (r: bool)
        ensures
            r == glob_matches(self@, text@),
    {
        self.compiled.matches(text)
    }
}

/// Length of the part of a Unix path before its body: a root `/`, or a
/// leading `.` component of a relative path.
pub open spec fn body_start(p: Seq<char>) -> int {
    if p.len() > 0 && p[0] == '/' {
        1
    } else if p.len() > 0 && p[0] == '.' && (p.len() == 1 || p[1] == '/') {
        1
    } else {
        0
    }
}

/// Where the last component of `p[..e]` starts, looking no further back
/// than `lo`.
pub open spec fn comp_start(p: Seq<char>, lo: int, e: int) -> int
    decreases e - lo,
{
    if e <= lo {
        lo
    } else if p[e - 1] == '/' {
        e
    } else {
        comp_start(p, lo, e - 1)
    }
}

/// The end of `p[..e]` without its last component and that component's
/// separator.
pub open spec fn cut(p: Seq<char>, lo: int, e: int) -> int {
    let s = comp_start(p, lo, e);
    if s > lo {
        s - 1
    } else {
        lo
    }
}

/// Whether the last component of `p[..e]` is empty or `.`.
pub open spec fn ignorable(p: Seq<char>, lo: int, e: int) -> bool {
    let s = comp_start(p, lo, e);
    e - s == 0 || (e - s == 1 && p[s] == '.')
}

pub proof fn lemma_comp_start(p: Seq<char>, lo: int, e: int)
    requires
        0 <= lo <= e <= p.len(),
    ensures
        lo <= comp_start(p, lo, e) <= e,
        comp_start(p, lo, e) > lo ==> p[comp_start(p, lo, e) - 1] == '/',
        forall|j: int| comp_start(p, lo, e) <= j < e ==> p[j] != '/',
    decreases e - lo,
{
    if e > lo && p[e - 1] != '/' {
        lemma_comp_start(p, lo, e - 1);
    }
}

/// The end of `p[..e]` after trailing empty and `.` components are dropped,
/// never cutting into the part before the body.
pub open spec fn trim_end(p: Seq<char>, lo: int, e: int) -> int
    decreases e,
{
    if e > lo && 0 <= lo && e <= p.len() && ignorable(p, lo, e) {
        proof {
            lemma_comp_start(p, lo, e);
        }
        trim_end(p, lo, cut(p, lo, e))
    } else {
        e
    }
}

/// `Path::parent` of a Unix path: the path without its last component,
/// `None` for a root or an empty path.
pub open spec fn parent_spec(p: Seq<char>) -> Option<Seq<char>> {
    let lo = body_start(p);
    let t = trim_end(p, lo, p.len() as int);
    if t > lo {
        Some(p.take(trim_end(p, lo, cut(p, lo, t))))
    } else if p.len() > 0 && p[0] == '/' {
        None
    } else if p.len() > 0 && p[0] == '.' && (p.len() == 1 || p[1] == '/') {
        Some(Seq::empty())
    } else {
        None
    }
}

proof fn lemma_trim_end(p: Seq<char>, lo: int, e: int)
    requires
        0 <= lo <= e <= p.len(),
    ensures
        lo <= trim_end(p, lo, e) <= e,
    decreases e,
{
    if e > lo && ignorable(p, lo, e) {
        lemma_comp_start(p, lo, e);
        lemma_trim_end(p, lo, cut(p, lo, e));
    }
}

fn comp_start_of(p: &[char], lo: usize, e: usize) -> (r: usize)
    requires
        lo <= e <= p@.len(),
    ensures
        r == comp_start(p@, lo as int, e as int),
{
    let mut s: usize = e;
    while s > lo && p[s - 1] != '/'
        invariant
            lo <= s <= e <= p@.len(),
            comp_start(p@, lo as int, e as int) == comp_start(p@, lo as int, s as int),
        decreases s,
    {
        s = s - 1;
    }
    s
}

fn cut_of(p: &[char], lo: usize, e: usize) -> (r: usize)
    requires
        lo <= e <= p@.len(),
    ensures
        r == cut(p@, lo as int, e as int),
        lo <= r <= e,
        e > lo ==> r < e,
{
    proof {
        lemma_comp_start(p@, lo as int, e as int);
    }
    let s = comp_start_of(p, lo, e);
    if s > lo {
        s - 1
    } else {
        lo
    }
}

fn trim_end_of(p: &[char], lo: usize, e: usize) -> (r: usize)
    requires
        lo <= e <= p@.len(),
    ensures
        r == trim_end(p@, lo as int, e as int),
{
    let mut end: usize = e;
    loop
        invariant
            lo <= end <= e <= p@.len(),
            trim_end(p@, lo as int, e as int) == trim_end(p@, lo as int, end as int),
        decreases end,
    {
        if end <= lo {
            return end;
        }
        proof {
            lemma_comp_start(p@, lo as int, end as int);
        }
        let s = comp_start_of(p, lo, end);
        let ign = end - s == 0 || (end - s == 1 && p[s] == '.');
        if !ign {
            return end;
        }
        end = cut_of(p, lo, end);
    }
}

/// The parent directory of a path, as `Path::parent` gives it.
pub fn parent_of(p: &[char]) -> (r: Option<Vec<char>>)
    ensures
        match parent_spec(p@) {
            Some(q) => r matches Some(v) && v@ == q,
            None => r is None,
        },
{
    let n = p.len();
    let lo: usize = if n > 0 && p[0] == '/' {
        1
    } else if n > 0 && p[0] == '.' && (n == 1 || p[1] == '/') {
        1
    } else {
        0
    };
    assert(lo == body_start(p@));
    proof {
        lemma_trim_end(p@, lo as int, n as int);
    }
    let t = trim_end_of(p, lo, n);
    if t > lo {
        let c = cut_of(p, lo, t);
        proof {
            lemma_trim_end(p@, lo as int, c as int);
        }
        let e = trim_end_of(p, lo, c);
        let v = slice_chars(p, 0, e);
        assert(v@ =~= p@.take(e as int));
        Some(v)
    } else if n > 0 && p[0] == '/' {
        None
    } else if n > 0 && p[0] == '.' && (n == 1 || p[1] == '/') {
        let v: Vec<char> = Vec::new();
        assert(v@ =~= Seq::<char>::empty());
        Some(v)
    } else {
        None
    }
}

/// Whether the exclusion pattern `pattern` excludes `path`.
pub open spec fn excluded_by(pattern: Seq<char>, path: Seq<char>) -> bool {
    ||| (glob_valid(pattern) && (glob_matches(pattern, path) || (path_file_name(path) matches Some(
        f,
    ) && glob_matches(pattern, f))))
    ||| (if pattern.len() > 0 && pattern.last() == '/' {
        parent_spec(path) matches Some(dir) && occurs(dir, pattern.drop_last())
    } else {
        occurs(path, pattern)
    })
}

/// Whether any of the exclusion patterns excludes `path`.
pub open spec fn excluded(patterns: Seq<Seq<char>>, path: Seq<char>) -> bool {
    exists|i: int| 0 <= i < patterns.len() && excluded_by(#[trigger] patterns[i], path)
}

fn excluded_by_one(pattern: &String, path: &str) -> (r: bool)
    ensures
        r == excluded_by(pattern@, path@),
{
    let pv = chars_of(pattern.as_str());
    let path_chars = chars_of(path);
    let by_glob = match Glob::new(pattern.as_str()) {
        Some(g) => {
            if g.matches(path) {
                true
            } else {
                match file_name_of(&path_chars) {
                    Some(f) => {
                        let fs = string_of(&f);
                        g.matches(fs.as_str())
                    },
                    None => false,
                }
            }
        },
        None => false,
    };
    if by_glob {
        return true;
    }
    if pv.len() > 0 && pv[pv.len() - 1] == '/' {
        let dir_pattern = slice_chars(&pv, 0, pv.len() - 1);
        assert(dir_pattern@ =~= pv@.drop_last());
        match parent_of(&path_chars) {
            Some(dir) => contains_text(&dir, &dir_pattern),
            None => false,
        }
    } else {
        contains_text(&path_chars, &pv)
    }
}

/// Whether any of the exclusion patterns excludes `path`.
pub fn is_excluded(patterns: &Vec<String>, path: &str) -> (r: bool)
    ensures
        r == excluded(crate::text::texts(patterns@), path@),
{
    let mut i: usize = 0;
    while i < patterns.len()
        invariant
            i <= patterns@.len(),
            forall|j: int|
                0 <= j < i ==> !excluded_by(#[trigger] crate::text::texts(patterns@)[j], path@),
        decreases patterns@.len() - i,
    {
        assert(crate::text::texts(patterns@)[i as int] == patterns@[i as int]@);
        if excluded_by_one(&patterns[i], path) {
            return true;
        }
        i = i + 1;
    }
    false
}

} // verus!
