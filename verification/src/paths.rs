//! File names and extensions of `/`-separated paths, as `std::path::Path`
//! reports them on Unix: trailing separators and `.` components are ignored,
//! a path ending in `..` has no file name, and a name's extension is what
//! follows its last `.` unless that dot is the name's first character.
use vstd::prelude::*;
use crate::text::slice_chars;

verus! {

/// `p` without trailing separators and trailing `.` components.
pub open spec fn trim_tail(p: Seq<char>) -> Seq<char>
    decreases p.len(),
{
    if p.len() > 0 && p.last() == '/' {
        trim_tail(p.drop_last())
    } else if p.len() > 0 && p.last() == '.' && (p.len() == 1 || p[p.len() - 2] == '/') {
        trim_tail(p.drop_last())
    } else {
        p
    }
}

/// The characters after the last `/` of `p` (all of `p` without one).
pub open spec fn after_last_slash(p: Seq<char>) -> Seq<char>
    decreases p.len(),
{
    if p.len() == 0 {
        p
    } else if p.last() == '/' {
        Seq::empty()
    } else {
        after_last_slash(p.drop_last()).push(p.last())
    }
}

/// The final component of a path, unless the path has none or ends in `..`.
pub open spec fn path_file_name(p: Seq<char>) -> Option<Seq<char>> {
    let t = trim_tail(p);
    if t.len() == 0 {
        None
    } else {
        let c = after_last_slash(t);
        if c == seq!['.', '.'] {
            None
        } else {
            Some(c)
        }
    }
}

/// Index of the last `.` in `s`.
pub open spec fn last_dot(s: Seq<char>) -> Option<int>
    decreases s.len(),
{
    if s.len() == 0 {
        None
    } else if s.last() == '.' {
        Some(s.len() - 1)
    } else {
        last_dot(s.drop_last())
    }
}

/// The extension of a file name: what follows its last `.`, when that dot
/// is not the first character.
pub open spec fn name_extension(name: Seq<char>) -> Option<Seq<char>> {
    match last_dot(name) {
        None => None,
        Some(k) => if k == 0 {
            None
        } else {
            Some(name.subrange(k + 1, name.len() as int))
        },
    }
}

/// The extension of the file a path names.
pub open spec fn path_extension(p: Seq<char>) -> Option<Seq<char>> {
    match path_file_name(p) {
        None => None,
        Some(name) => name_extension(name),
    }
}

/// Length of the prefix `trim_tail` keeps.
fn trimmed_len(p: &[char]) -> (n: usize)
    ensures
        n <= p@.len(),
        trim_tail(p@) == p@.take(n as int),
{
    let mut n = p.len();
    proof {
        assert(p@.take(n as int) =~= p@);
    }
    while n > 0 && (p[n - 1] == '/' || (p[n - 1] == '.' && (n == 1 || p[n - 2] == '/')))
        invariant
            n <= p@.len(),
            trim_tail(p@) == trim_tail(p@.take(n as int)),
        decreases n,
    {
        assert(p@.take(n as int).drop_last() =~= p@.take(n - 1));
        n = n - 1;
    }
    n
}

proof fn lemma_after_last_slash(p: Seq<char>, k: int)
    requires
        0 <= k <= p.len(),
        k == 0 || p[k - 1] == '/',
        forall|j: int| k <= j < p.len() ==> p[j] != '/',
    ensures
        after_last_slash(p) == p.subrange(k, p.len() as int),
    decreases p.len(),
{
    if p.len() == 0 {
    } else if p.last() == '/' {
        assert(k == p.len());
    } else {
        lemma_after_last_slash(p.drop_last(), k);
        assert(p.drop_last().subrange(k, p.len() - 1).push(p.last()) =~= p.subrange(
            k,
            p.len() as int,
        ));
    }
}

proof fn lemma_last_dot(s: Seq<char>, k: int)
    requires
        -1 <= k < s.len(),
        k == -1 || s[k] == '.',
        forall|j: int| k < j < s.len() ==> s[j] != '.',
    ensures
        last_dot(s) == if k == -1 {
            None
        } else {
            Some(k)
        },
    decreases s.len(),
{
    if s.len() > 0 && s.last() != '.' {
        lemma_last_dot(s.drop_last(), k);
    }
}

/// The file name a path ends in.
pub fn file_name_of(p: &[char]) -> (r: Option<Vec<char>>)
    ensures
        match path_file_name(p@) {
            None => r is None,
            Some(name) => r matches Some(v) && v@ == name,
        },
{
    let n = trimmed_len(p);
    if n == 0 {
        return None;
    }
    let ghost t = p@.take(n as int);
    let mut k = n;
    while k > 0 && p[k - 1] != '/'
        invariant
            k <= n <= p@.len(),
            t == p@.take(n as int),
            forall|j: int| k <= j < n ==> t[j] != '/',
        decreases k,
    {
        k = k - 1;
    }
    proof {
        lemma_after_last_slash(t, k as int);
    }
    let name = slice_chars(p, k, n);
    assert(name@ =~= t.subrange(k as int, n as int));
    if name.len() == 2 && name[0] == '.' && name[1] == '.' {
        assert(name@ =~= seq!['.', '.']);
        return None;
    }
    assert(name@ != seq!['.', '.']) by {
        if name@ == seq!['.', '.'] {
            assert(name@.len() == 2 && name@[0] == '.' && name@[1] == '.');
        }
    }
    Some(name)
}

/// The extension of a file name.
pub fn extension_of_name(name: &[char]) -> (r: Option<Vec<char>>)
    ensures
        match name_extension(name@) {
            None => r is None,
            Some(ext) => r matches Some(v) && v@ == ext,
        },
{
    let mut k = name.len();
    while k > 0 && name[k - 1] != '.'
        invariant
            k <= name@.len(),
            forall|j: int| k <= j < name@.len() ==> name@[j] != '.',
        decreases k,
    {
        k = k - 1;
    }
    proof {
        lemma_last_dot(name@, k - 1);
    }
    if k <= 1 {
        return None;
    }
    Some(slice_chars(name, k, name.len()))
}

/// The extension of the file a path names (`Path::extension`).
pub fn extension_of_path(p: &[char]) -> (r: Option<Vec<char>>)
    ensures
        match path_extension(p@) {
            None => r is None,
            Some(ext) => r matches Some(v) && v@ == ext,
        },
{
    match file_name_of(p) {
        None => None,
        Some(name) => extension_of_name(&name),
    }
}

} // verus!
