//! Safe names for saved downloads: a whitelisted extension and a file name
//! that can neither escape the download directory nor collide with a
//! reserved device name.
use vstd::prelude::*;
use crate::formats::{format_extension, AudioFormat};
use crate::range::{split_at, split_on, views};
use vstd::string::StrSliceExecFns;
use crate::text::{
    ascii_alnum, ascii_lower, char_width, chars_of, eq_str, is_alphanumeric,
    is_ascii_alnum, is_control, lower_ascii, slice_chars, string_of, trim, trim_start_char,
    trim_start_matching, trim_ws, trim_start_ws, trim_end_ws, unicode_white_space, alphanumeric,
    unicode_control, utf8_len, utf8_width,
};

verus! {

/// Extensions a download may be saved with.
pub open spec fn allowed_ext(t: Seq<char>) -> bool {
    t == "mp3"@ || t == "m4a"@ || t == "aac"@ || t == "flac"@ || t == "ogg"@ || t == "opus"@ || t
        == "wav"@ || t == "webm"@ || t == "mp4"@ || t == "mov"@ || t == "oga"@
}

fn allowed(t: &[char]) -> (r: bool)
    ensures
        r == allowed_ext(t@),
{
    eq_str(t, "mp3") || eq_str(t, "m4a") || eq_str(t, "aac") || eq_str(t, "flac") || eq_str(
        t,
        "ogg",
    ) || eq_str(t, "opus") || eq_str(t, "wav") || eq_str(t, "webm") || eq_str(t, "mp4")
        || eq_str(t, "mov") || eq_str(t, "oga")
}

/// Whether every character of `t` is an ASCII letter or digit.
pub open spec fn all_alnum(t: Seq<char>) -> bool {
    forall|i: int| 0 <= i < t.len() ==> is_ascii_alnum(#[trigger] t[i])
}

/// The ASCII letters and digits of `t`, in order.
pub open spec fn only_alnum(t: Seq<char>) -> Seq<char>
    decreases t.len(),
{
    if t.len() == 0 {
        t
    } else if is_ascii_alnum(t.last()) {
        only_alnum(t.drop_last()).push(t.last())
    } else {
        only_alnum(t.drop_last())
    }
}

/// An extension as written, trimmed, without leading dots, in ASCII lower
/// case.
pub open spec fn ext_text(raw: Seq<char>) -> Seq<char> {
    ascii_lower(trim_start_char(trim_ws(raw), '.'))
}

/// The extension a download is saved with: the requested one when it is a
/// short alphanumeric whitelisted extension, else the fallback with
/// everything but ASCII letters and digits removed when that is
/// whitelisted, else `mp3`.
pub open spec fn sanitized_ext(raw: Seq<char>, fallback: Seq<char>) -> Seq<char> {
    let t = ext_text(raw);
    if t.len() > 0 && t.len() <= 8 && all_alnum(t) && allowed_ext(t) {
        t
    } else {
        let fb = only_alnum(ext_text(fallback));
        if allowed_ext(fb) {
            fb
        } else {
            "mp3"@
        }
    }
}

fn alnum_only(t: &[char]) -> (r: bool)
    ensures
        r == all_alnum(t@),
{
    let mut i: usize = 0;
    while i < t.len()
        invariant
            i <= t@.len(),
            forall|j: int| 0 <= j < i ==> is_ascii_alnum(#[trigger] t@[j]),
        decreases t@.len() - i,
    {
        if !ascii_alnum(t[i]) {
            return false;
        }
        i = i + 1;
    }
    true
}

fn ext_chars(raw: &str) -> (r: Vec<char>)
    ensures
        r@ == ext_text(raw@),
{
    let v = chars_of(raw);
    let t = trim(&v);
    let t = trim_start_matching(&t, '.');
    lower_ascii(&t)
}

/// Whitelist and sanitize an extension string, falling back to the trusted
/// `fallback` or to `mp3`.
pub fn sanitize_ext(raw: &str, fallback: &str) -> (r: String)
    ensures
        r@ == sanitized_ext(raw@, fallback@),
{
    let t = ext_chars(raw);
    let clean = t.len() > 0 && t.len() <= 8 && alnum_only(&t);
    if clean && allowed(&t) {
        return string_of(&t);
    }
    let fb = ext_chars(fallback);
    let mut kept: Vec<char> = Vec::new();
    let mut i: usize = 0;
    while i < fb.len()
        invariant
            i <= fb@.len(),
            kept@ == only_alnum(fb@.take(i as int)),
        decreases fb@.len() - i,
    {
        assert(fb@.take(i + 1).drop_last() =~= fb@.take(i as int));
        if ascii_alnum(fb[i]) {
            kept.push(fb[i]);
        }
        i = i + 1;
    }
    assert(fb@.take(fb@.len() as int) =~= fb@);
    if allowed(&kept) {
        string_of(&kept)
    } else {
        string_of(&chars_of("mp3"))
    }
}

/// `s` without its control characters.
pub open spec fn drop_controls(s: Seq<char>) -> Seq<char>
    decreases s.len(),
{
    if s.len() == 0 {
        s
    } else if unicode_control(s.last()) {
        drop_controls(s.drop_last())
    } else {
        drop_controls(s.drop_last()).push(s.last())
    }
}

/// A character kept in a file name as is, or `_` in its place.
pub open spec fn safe_char(c: char) -> char {
    if alphanumeric(c) || c == ' ' || c == '-' || c == '_' || c == '.' {
        c
    } else {
        '_'
    }
}

/// Whether `c` is one of `a`, `b`, `d`.
pub open spec fn one_of(c: char, a: char, b: char, d: char) -> bool {
    c == a || c == b || c == d
}

/// `s` without leading characters among `a`, `b`, `d`.
pub open spec fn trim_start_set(s: Seq<char>, a: char, b: char, d: char) -> Seq<char>
    decreases s.len(),
{
    if s.len() > 0 && one_of(s[0], a, b, d) {
        trim_start_set(s.drop_first(), a, b, d)
    } else {
        s
    }
}

/// `s` without trailing characters among `a`, `b`, `d`.
pub open spec fn trim_end_set(s: Seq<char>, a: char, b: char, d: char) -> Seq<char>
    decreases s.len(),
{
    if s.len() > 0 && one_of(s.last(), a, b, d) {
        trim_end_set(s.drop_last(), a, b, d)
    } else {
        s
    }
}

/// `s` without leading or trailing characters among `a`, `b`, `d`
/// (`str::trim_matches`).
pub open spec fn trim_set(s: Seq<char>, a: char, b: char, d: char) -> Seq<char> {
    trim_end_set(trim_start_set(s, a, b, d), a, b, d)
}

/// `s` with each non-overlapping `xy`, left to right, replaced by `rep`
/// (`str::replace` of a two-character pattern).
pub open spec fn replace_pair(s: Seq<char>, x: char, y: char, rep: char) -> Seq<char>
    decreases s.len(),
{
    if s.len() == 0 {
        s
    } else if s.len() >= 2 && s[0] == x && s[1] == y {
        seq![rep] + replace_pair(s.skip(2), x, y, rep)
    } else {
        seq![s[0]] + replace_pair(s.drop_first(), x, y, rep)
    }
}

/// Whether `xy` occurs in `s`.
pub open spec fn has_pair(s: Seq<char>, x: char, y: char) -> bool {
    exists|i: int| 0 <= i < s.len() - 1 && s[i] == x && #[trigger] s[i + 1] == y
}

pub proof fn lemma_replace_pair_len(s: Seq<char>, x: char, y: char, rep: char)
    ensures
        replace_pair(s, x, y, rep).len() <= s.len(),
        has_pair(s, x, y) ==> replace_pair(s, x, y, rep).len() < s.len(),
    decreases s.len(),
{
    if s.len() == 0 {
    } else if s.len() >= 2 && s[0] == x && s[1] == y {
        lemma_replace_pair_len(s.skip(2), x, y, rep);
    } else {
        lemma_replace_pair_len(s.drop_first(), x, y, rep);
        if has_pair(s, x, y) {
            let i = choose|i: int| 0 <= i < s.len() - 1 && s[i] == x && #[trigger] s[i + 1] == y;
            assert(i >= 1);
            assert(s.drop_first()[i - 1] == x && s.drop_first()[i] == y);
            assert(has_pair(s.drop_first(), x, y));
        }
    }
}

/// `s` with `xy` replaced by `rep` until no `xy` is left.
pub open spec fn collapse_pair(s: Seq<char>, x: char, y: char, rep: char) -> Seq<char>
    decreases s.len(),
{
    if has_pair(s, x, y) {
        proof {
            lemma_replace_pair_len(s, x, y, rep);
        }
        collapse_pair(replace_pair(s, x, y, rep), x, y, rep)
    } else {
        s
    }
}

/// `c`, or `_` for a path separator.
pub open spec fn unslash(c: char) -> char {
    if c == '/' || c == '\\' {
        '_'
    } else {
        c
    }
}

/// The file name before the reserved-name and length rules: control
/// characters dropped, unsafe characters replaced by `_`, outer white space
/// and dots trimmed, `..` collapsed, separators replaced, `__` collapsed,
/// and outer dots, underscores and spaces trimmed.
pub open spec fn filename_core(name: Seq<char>) -> Seq<char> {
    let a = drop_controls(name).map_values(|c: char| safe_char(c));
    let b = trim_set(trim_ws(a), '.', '.', '.');
    let c = collapse_pair(b, '.', '.', '_');
    let d = c.map_values(|ch: char| unslash(ch));
    let e = collapse_pair(d, '_', '_', '_');
    trim_set(e, '.', '_', ' ')
}

/// Windows reserved device names.
pub open spec fn reserved_name(lower: Seq<char>) -> bool {
    lower == "con"@ || lower == "prn"@ || lower == "aux"@ || lower == "nul"@ || lower == "com1"@
        || lower == "com2"@ || lower == "com3"@ || lower == "com4"@ || lower == "com5"@ || lower
        == "com6"@ || lower == "com7"@ || lower == "com8"@ || lower == "com9"@ || lower == "lpt1"@
        || lower == "lpt2"@ || lower == "lpt3"@ || lower == "lpt4"@ || lower == "lpt5"@ || lower
        == "lpt6"@ || lower == "lpt7"@ || lower == "lpt8"@ || lower == "lpt9"@
}

/// The longest prefix of `s` taking at most `n` bytes in UTF-8.
pub open spec fn bytes_prefix(s: Seq<char>, n: nat) -> Seq<char>
    decreases s.len(),
{
    if utf8_len(s) <= n || s.len() == 0 {
        s
    } else {
        bytes_prefix(s.drop_last(), n)
    }
}

/// The name a download is saved under (before its extension): the cleaned
/// title cut to its first 200 characters (then stripped of trailing dots,
/// underscores and spaces), `audio_track` when nothing is left, and with
/// `_track` appended when what is left is a reserved device name.
pub open spec fn sanitized_filename(name: Seq<char>) -> Seq<char> {
    let core = filename_core(name);
    if core.len() == 0 || core == "."@ || core == ".."@ {
        "audio_track"@
    } else {
        let t = if core.len() > 200 {
            trim_end_set(core.take(200), '.', '_', ' ')
        } else {
            core
        };
        if t.len() == 0 {
            "audio_track"@
        } else if reserved_name(ascii_lower(t)) {
            t + "_track"@
        } else {
            t
        }
    }
}

fn drop_control_chars(v: &[char]) -> (r: Vec<char>)
    ensures
        r@ == drop_controls(v@),
{
    let mut r: Vec<char> = Vec::new();
    let mut i: usize = 0;
    while i < v.len()
        invariant
            i <= v@.len(),
            r@ == drop_controls(v@.take(i as int)),
        decreases v@.len() - i,
    {
        assert(v@.take(i + 1).drop_last() =~= v@.take(i as int));
        if !is_control(v[i]) {
            r.push(v[i]);
        }
        i = i + 1;
    }
    assert(v@.take(v@.len() as int) =~= v@);
    r
}

fn safe_chars(v: &[char]) -> (r: Vec<char>)
    ensures
        r@ == v@.map_values(|c: char| safe_char(c)),
{
    let mut r: Vec<char> = Vec::new();
    let mut i: usize = 0;
    while i < v.len()
        invariant
            i <= v@.len(),
            r@ == v@.take(i as int).map_values(|c: char| safe_char(c)),
        decreases v@.len() - i,
    {
        let c = v[i];
        let k = if is_alphanumeric(c) || c == ' ' || c == '-' || c == '_' || c == '.' {
            c
        } else {
            '_'
        };
        r.push(k);
        i = i + 1;
        assert(r@ =~= v@.take(i as int).map_values(|c: char| safe_char(c)));
    }
    assert(v@.take(v@.len() as int) =~= v@);
    r
}

fn unslash_chars(v: &[char]) -> (r: Vec<char>)
    ensures
        r@ == v@.map_values(|c: char| unslash(c)),
{
    let mut r: Vec<char> = Vec::new();
    let mut i: usize = 0;
    while i < v.len()
        invariant
            i <= v@.len(),
            r@ == v@.take(i as int).map_values(|c: char| unslash(c)),
        decreases v@.len() - i,
    {
        let c = v[i];
        let k = if c == '/' || c == '\\' {
            '_'
        } else {
            c
        };
        r.push(k);
        i = i + 1;
        assert(r@ =~= v@.take(i as int).map_values(|c: char| unslash(c)));
    }
    assert(v@.take(v@.len() as int) =~= v@);
    r
}

/// Trim leading and trailing characters among `a`, `b`, `d`.
fn trim_chars(v: &[char], a: char, b: char, d: char) -> (r: Vec<char>)
    ensures
        r@ == trim_set(v@, a, b, d),
{
    let mut s: usize = 0;
    assert(v@.subrange(0, v@.len() as int) =~= v@);
    while s < v.len() && (v[s] == a || v[s] == b || v[s] == d)
        invariant
            s <= v@.len(),
            trim_start_set(v@, a, b, d) == trim_start_set(
                v@.subrange(s as int, v@.len() as int),
                a,
                b,
                d,
            ),
        decreases v@.len() - s,
    {
        assert(v@.subrange(s as int, v@.len() as int).drop_first() =~= v@.subrange(
            s + 1,
            v@.len() as int,
        ));
        s = s + 1;
    }
    let ghost t = v@.subrange(s as int, v@.len() as int);
    let mut e: usize = v.len();
    assert(t =~= v@.subrange(s as int, e as int));
    while e > s && (v[e - 1] == a || v[e - 1] == b || v[e - 1] == d)
        invariant
            s <= e <= v@.len(),
            t == v@.subrange(s as int, v@.len() as int),
            trim_end_set(t, a, b, d) == trim_end_set(v@.subrange(s as int, e as int), a, b, d),
        decreases e,
    {
        assert(v@.subrange(s as int, e as int).drop_last() =~= v@.subrange(s as int, e - 1));
        e = e - 1;
    }
    slice_chars(v, s, e)
}

/// Trim trailing characters among `a`, `b`, `d`.
fn trim_end_chars(v: &[char], a: char, b: char, d: char) -> (r: Vec<char>)
    ensures
        r@ == trim_end_set(v@, a, b, d),
{
    let mut e: usize = v.len();
    assert(v@.take(e as int) =~= v@);
    while e > 0 && (v[e - 1] == a || v[e - 1] == b || v[e - 1] == d)
        invariant
            e <= v@.len(),
            trim_end_set(v@, a, b, d) == trim_end_set(v@.take(e as int), a, b, d),
        decreases e,
    {
        assert(v@.take(e as int).drop_last() =~= v@.take(e - 1));
        e = e - 1;
    }
    slice_chars(v, 0, e)
}

fn replace_pair_chars(v: &[char], x: char, y: char, rep: char) -> (r: Vec<char>)
    ensures
        r@ == replace_pair(v@, x, y, rep),
{
    let mut r: Vec<char> = Vec::new();
    let mut i: usize = 0;
    assert(v@.skip(0) =~= v@);
    while i < v.len()
        invariant
            i <= v@.len(),
            r@ + replace_pair(v@.skip(i as int), x, y, rep) == replace_pair(v@, x, y, rep),
        decreases v@.len() - i,
    {
        let ghost rest = v@.skip(i as int);
        if i + 1 < v.len() && v[i] == x && v[i + 1] == y {
            assert(rest.skip(2) =~= v@.skip(i + 2));
            assert(replace_pair(rest, x, y, rep) == seq![rep] + replace_pair(rest.skip(2), x, y, rep));
            r.push(rep);
            assert(r@ + replace_pair(v@.skip(i + 2), x, y, rep) =~= replace_pair(v@, x, y, rep));
            i = i + 2;
        } else {
            assert(rest.drop_first() =~= v@.skip(i + 1));
            assert(replace_pair(rest, x, y, rep) == seq![v@[i as int]] + replace_pair(
                rest.drop_first(),
                x,
                y,
                rep,
            ));
            r.push(v[i]);
            assert(r@ + replace_pair(v@.skip(i + 1), x, y, rep) =~= replace_pair(v@, x, y, rep));
            i = i + 1;
        }
    }
    assert(v@.skip(v@.len() as int) =~= Seq::<char>::empty());
    assert(r@ =~= r@ + replace_pair(Seq::<char>::empty(), x, y, rep));
    r
}

fn contains_pair(v: &[char], x: char, y: char) -> (r: bool)
    ensures
        r == has_pair(v@, x, y),
{
    let mut i: usize = 0;
    while i < v.len() && i + 1 < v.len()
        invariant
            i <= v@.len(),
            forall|j: int| 0 <= j < i && j < v@.len() - 1 ==> !(v@[j] == x && #[trigger] v@[j + 1] == y),
        decreases v@.len() - i,
    {
        if v[i] == x && v[i + 1] == y {
            return true;
        }
        i = i + 1;
    }
    false
}

fn collapse_pair_chars(v: Vec<char>, x: char, y: char, rep: char) -> (r: Vec<char>)
    ensures
        r@ == collapse_pair(v@, x, y, rep),
{
    let mut cur = v;
    while contains_pair(&cur, x, y)
        invariant
            collapse_pair(cur@, x, y, rep) == collapse_pair(v@, x, y, rep),
        decreases cur@.len(),
    {
        proof {
            lemma_replace_pair_len(cur@, x, y, rep);
        }
        cur = replace_pair_chars(&cur, x, y, rep);
    }
    cur
}

fn is_reserved(core: &[char]) -> (r: bool)
    ensures
        r == reserved_name(ascii_lower(core@)),
{
    let l = lower_ascii(core);
    eq_str(&l, "con") || eq_str(&l, "prn") || eq_str(&l, "aux") || eq_str(&l, "nul") || eq_str(
        &l,
        "com1",
    ) || eq_str(&l, "com2") || eq_str(&l, "com3") || eq_str(&l, "com4") || eq_str(&l, "com5")
        || eq_str(&l, "com6") || eq_str(&l, "com7") || eq_str(&l, "com8") || eq_str(&l, "com9")
        || eq_str(&l, "lpt1") || eq_str(&l, "lpt2") || eq_str(&l, "lpt3") || eq_str(&l, "lpt4")
        || eq_str(&l, "lpt5") || eq_str(&l, "lpt6") || eq_str(&l, "lpt7") || eq_str(&l, "lpt8")
        || eq_str(&l, "lpt9")
}

proof fn lemma_utf8_len_prefix(s: Seq<char>, k: int)
    requires
        0 <= k < s.len(),
    ensures
        utf8_len(s.take(k + 1)) == utf8_len(s.take(k)) + utf8_width(s[k]),
{
    assert(s.take(k + 1).drop_last() =~= s.take(k));
}

proof fn lemma_bytes_prefix(s: Seq<char>, k: int, n: nat)
    requires
        0 <= k <= s.len(),
        utf8_len(s.take(k)) <= n,
        k == s.len() || utf8_len(s.take(k + 1)) > n,
    ensures
        bytes_prefix(s, n) == s.take(k),
    decreases s.len(),
{
    if utf8_len(s) <= n {
        if k < s.len() {
            lemma_utf8_len_monotone(s, k + 1);
        }
        assert(s.take(k) =~= s);
    } else {
        if k == s.len() {
            assert(s.take(k) =~= s);
        }
        assert(s.drop_last().take(k) =~= s.take(k));
        if k + 1 < s.len() {
            assert(s.drop_last().take(k + 1) =~= s.take(k + 1));
        } else {
            assert(s.take(k + 1) =~= s);
        }
        lemma_bytes_prefix(s.drop_last(), k, n);
    }
}

proof fn lemma_utf8_len_monotone(s: Seq<char>, k: int)
    requires
        0 <= k <= s.len(),
    ensures
        utf8_len(s.take(k)) <= utf8_len(s),
    decreases s.len() - k,
{
    if k < s.len() {
        lemma_utf8_len_prefix(s, k);
        lemma_utf8_len_monotone(s, k + 1);
    } else {
        assert(s.take(k) =~= s);
    }
}

fn core_of(name: &str) -> (r: Vec<char>)
    ensures
        r@ == filename_core(name@),
{
    let v = chars_of(name);
    let a = drop_control_chars(&v);
    let a = safe_chars(&a);
    let b = trim(&a);
    let b = trim_chars(&b, '.', '.', '.');
    let c = collapse_pair_chars(b, '.', '.', '_');
    let d = unslash_chars(&c);
    let e = collapse_pair_chars(d, '_', '_', '_');
    trim_chars(&e, '.', '_', ' ')
}

proof fn lemma_prefix_lengths(s: Seq<char>, k: int, n: nat)
    requires
        0 <= k < s.len(),
        utf8_len(s.take(k)) <= n,
        utf8_len(s.take(k + 1)) > n,
    ensures
        (exists|j: int| 0 <= j <= s.len() && utf8_len(#[trigger] s.take(j)) == n) <==> utf8_len(
            s.take(k),
        ) == n,
{
    if exists|j: int| 0 <= j <= s.len() && utf8_len(#[trigger] s.take(j)) == n {
        let j = choose|j: int| 0 <= j <= s.len() && utf8_len(#[trigger] s.take(j)) == n;
        if j < k {
            lemma_utf8_strict(s, j, k);
        } else if j > k {
            lemma_utf8_prefix_order(s, k + 1, j);
        }
    }
}

proof fn lemma_utf8_prefix_order(s: Seq<char>, a: int, b: int)
    requires
        0 <= a <= b <= s.len(),
    ensures
        utf8_len(s.take(a)) <= utf8_len(s.take(b)),
    decreases b - a,
{
    if a < b {
        lemma_utf8_prefix_order(s, a, b - 1);
        lemma_utf8_len_prefix(s, b - 1);
    }
}

proof fn lemma_utf8_strict(s: Seq<char>, a: int, b: int)
    requires
        0 <= a < b <= s.len(),
    ensures
        utf8_len(s.take(a)) < utf8_len(s.take(b)),
    decreases b - a,
{
    lemma_utf8_len_prefix(s, b - 1);
    if a < b - 1 {
        lemma_utf8_strict(s, a, b - 1);
    }
}

/// The URL as a download error shows it: its first 160 bytes followed by
/// `…` when it is longer.
pub open spec fn url_snippet_text(url: Seq<char>) -> Seq<char> {
    if utf8_len(url) > 160 {
        bytes_prefix(url, 160) + "…"@
    } else {
        url
    }
}

/// A 160-byte cut of `url` falls between two characters, or is not needed.
pub open spec fn snips_cleanly(url: Seq<char>) -> bool {
    utf8_len(url) <= 160 || exists|k: int| 0 <= k <= url.len() && utf8_len(#[trigger] url.take(k))
        == 160
}

/// The longest prefix of `v` within `n` bytes: its length in characters
/// and in bytes.
fn prefix_within(v: &[char], n: usize) -> (r: (usize, usize))
    ensures
        r.0 <= v@.len(),
        r.1 == utf8_len(v@.take(r.0 as int)),
        r.1 <= n,
        r.0 == v@.len() || utf8_len(v@.take(r.0 + 1)) > n,
{
    let mut bytes: usize = 0;
    let mut k: usize = 0;
    while k < v.len() && char_width(v[k]) <= n - bytes
        invariant
            k <= v@.len(),
            bytes == utf8_len(v@.take(k as int)),
            bytes <= n,
        decreases v@.len() - k,
    {
        proof {
            lemma_utf8_len_prefix(v@, k as int);
        }
        bytes = bytes + char_width(v[k]);
        k = k + 1;
    }
    if k < v.len() {
        proof {
            lemma_utf8_len_prefix(v@, k as int);
        }
    }
    (k, bytes)
}

/// Whether `url_snippet` can take `url`.
pub fn url_snips_cleanly(url: &str) -> (r: bool)
    ensures
        r == snips_cleanly(url@),
{
    let v = chars_of(url);
    let (k, bytes) = prefix_within(&v, 160);
    if k == v.len() {
        assert(v@.take(k as int) =~= v@);
        return true;
    }
    proof {
        lemma_utf8_len_monotone(v@, k + 1);
        lemma_prefix_lengths(v@, k as int, 160);
    }
    bytes == 160
}

/// The URL as a download error shows it: cut after 160 bytes, and marked
/// with `…`, when longer.
pub fn url_snippet(url: &str) -> (r: String)
    requires
        snips_cleanly(url@),
    ensures
        r@ == url_snippet_text(url@),
{
    let v = chars_of(url);
    let (k, bytes) = prefix_within(&v, 160);
    proof {
        lemma_bytes_prefix(v@, k as int, 160);
    }
    if k == v.len() {
        assert(v@.take(k as int) =~= v@);
        return string_of(&v);
    }
    proof {
        lemma_utf8_len_monotone(v@, k + 1);
    }
    let mut out = slice_chars(&v, 0, k);
    let mut mark = chars_of("…");
    out.append(&mut mark);
    assert(out@ =~= v@.take(k as int) + "…"@);
    string_of(&out)
}

/// Replace filesystem-unsafe characters so titles produce valid file names.
/// Strips control characters, path separators and `..`, avoids reserved
/// Windows names, and limits the name to 200 characters; never returns an
/// empty name.
pub fn sanitize_filename(name: &str) -> (r: String)
    ensures
        r@ == sanitized_filename(name@),
{
    let core = core_of(name);
    if core.len() == 0 || eq_str(&core, ".") || eq_str(&core, "..") {
        return string_of(&chars_of("audio_track"));
    }
    let t = if core.len() > 200 {
        let cut = slice_chars(&core, 0, 200);
        assert(cut@ =~= core@.take(200));
        trim_end_chars(&cut, '.', '_', ' ')
    } else {
        core
    };
    if t.len() == 0 {
        return string_of(&chars_of("audio_track"));
    }
    if is_reserved(&t) {
        let mut out = t;
        let mut suffix = chars_of("_track");
        let ghost before = out@;
        out.append(&mut suffix);
        assert(out@ =~= before + "_track"@);
        return string_of(&out);
    }
    string_of(&t)
}

/// Whether `c` occurs nowhere in `s`.
pub open spec fn free_of(s: Seq<char>, c: char) -> bool {
    forall|i: int| 0 <= i < s.len() ==> s[i] != c
}

proof fn lemma_collapse_no_pair(s: Seq<char>, x: char, y: char, rep: char)
    ensures
        !has_pair(collapse_pair(s, x, y, rep), x, y),
    decreases s.len(),
{
    if has_pair(s, x, y) {
        lemma_replace_pair_len(s, x, y, rep);
        lemma_collapse_no_pair(replace_pair(s, x, y, rep), x, y, rep);
    }
}

/// Replacing pairs keeps a character out when the replacement is another.
proof fn lemma_replace_keeps_free(s: Seq<char>, x: char, y: char, rep: char, c: char)
    requires
        free_of(s, c),
        rep != c,
    ensures
        free_of(replace_pair(s, x, y, rep), c),
    decreases s.len(),
{
    if s.len() == 0 {
    } else if s.len() >= 2 && s[0] == x && s[1] == y {
        assert(free_of(s.skip(2), c)) by {
            assert forall|i: int| 0 <= i < s.skip(2).len() implies s.skip(2)[i] != c by {
                assert(s.skip(2)[i] == s[i + 2]);
            }
        }
        lemma_replace_keeps_free(s.skip(2), x, y, rep, c);
    } else {
        assert(free_of(s.drop_first(), c)) by {
            assert forall|i: int| 0 <= i < s.drop_first().len() implies s.drop_first()[i] != c by {
                assert(s.drop_first()[i] == s[i + 1]);
            }
        }
        lemma_replace_keeps_free(s.drop_first(), x, y, rep, c);
    }
}

proof fn lemma_collapse_keeps_free(s: Seq<char>, x: char, y: char, rep: char, c: char)
    requires
        free_of(s, c),
        rep != c,
    ensures
        free_of(collapse_pair(s, x, y, rep), c),
    decreases s.len(),
{
    if has_pair(s, x, y) {
        lemma_replace_pair_len(s, x, y, rep);
        lemma_replace_keeps_free(s, x, y, rep, c);
        lemma_collapse_keeps_free(replace_pair(s, x, y, rep), x, y, rep, c);
    }
}

/// Collapsing `__` neither creates `..` nor changes whether a text starts
/// with `.`.
proof fn lemma_replace_underscores_no_dots(s: Seq<char>)
    requires
        !has_pair(s, '.', '.'),
    ensures
        !has_pair(replace_pair(s, '_', '_', '_'), '.', '.'),
        replace_pair(s, '_', '_', '_').len() == 0 <==> s.len() == 0,
        s.len() > 0 ==> (replace_pair(s, '_', '_', '_')[0] == '.' <==> s[0] == '.'),
    decreases s.len(),
{
    let r = replace_pair(s, '_', '_', '_');
    if s.len() == 0 {
    } else if s.len() >= 2 && s[0] == '_' && s[1] == '_' {
        let t = s.skip(2);
        assert(!has_pair(t, '.', '.')) by {
            if has_pair(t, '.', '.') {
                let i = choose|i: int| 0 <= i < t.len() - 1 && t[i] == '.' && #[trigger] t[i + 1] == '.';
                assert(s[i + 2] == '.' && s[(i + 2) + 1] == '.');
                assert(has_pair(s, '.', '.'));
            }
        }
        lemma_replace_underscores_no_dots(t);
        let rt = replace_pair(t, '_', '_', '_');
        assert(r == seq!['_'] + rt);
        if has_pair(r, '.', '.') {
            let i = choose|i: int| 0 <= i < r.len() - 1 && r[i] == '.' && #[trigger] r[i + 1] == '.';
            if i == 0 {
                assert(r[0] == '_');
            } else {
                assert(rt[i - 1] == '.' && rt[(i - 1) + 1] == '.');
                assert(has_pair(rt, '.', '.'));
            }
        }
    } else {
        let t = s.drop_first();
        assert(!has_pair(t, '.', '.')) by {
            if has_pair(t, '.', '.') {
                let i = choose|i: int| 0 <= i < t.len() - 1 && t[i] == '.' && #[trigger] t[i + 1] == '.';
                assert(s[i + 1] == '.' && s[(i + 1) + 1] == '.');
                assert(has_pair(s, '.', '.'));
            }
        }
        lemma_replace_underscores_no_dots(t);
        let rt = replace_pair(t, '_', '_', '_');
        assert(r == seq![s[0]] + rt);
        if has_pair(r, '.', '.') {
            let i = choose|i: int| 0 <= i < r.len() - 1 && r[i] == '.' && #[trigger] r[i + 1] == '.';
            if i == 0 {
                assert(s[0] == '.' && rt[0] == '.');
                assert(t[0] == '.');
                assert(s[1] == '.');
                assert(has_pair(s, '.', '.'));
            } else {
                assert(rt[i - 1] == '.' && rt[(i - 1) + 1] == '.');
                assert(has_pair(rt, '.', '.'));
            }
        }
    }
}

proof fn lemma_collapse_underscores_no_dots(s: Seq<char>)
    requires
        !has_pair(s, '.', '.'),
    ensures
        !has_pair(collapse_pair(s, '_', '_', '_'), '.', '.'),
    decreases s.len(),
{
    if has_pair(s, '_', '_') {
        lemma_replace_pair_len(s, '_', '_', '_');
        lemma_replace_underscores_no_dots(s);
        lemma_collapse_underscores_no_dots(replace_pair(s, '_', '_', '_'));
    }
}

/// A piece of a text keeps what the whole text is free of.
proof fn lemma_subrange_keeps(s: Seq<char>, a: int, b: int)
    requires
        0 <= a <= b <= s.len(),
    ensures
        forall|c: char| free_of(s, c) ==> free_of(#[trigger] s.subrange(a, b), c),
        !has_pair(s, '.', '.') ==> !has_pair(s.subrange(a, b), '.', '.'),
{
    let t = s.subrange(a, b);
    assert forall|c: char| free_of(s, c) implies free_of(#[trigger] s.subrange(a, b), c) by {
        assert forall|i: int| 0 <= i < t.len() implies t[i] != c by {
            assert(t[i] == s[a + i]);
        }
    }
    if !has_pair(s, '.', '.') && has_pair(t, '.', '.') {
        let i = choose|i: int| 0 <= i < t.len() - 1 && t[i] == '.' && #[trigger] t[i + 1] == '.';
        assert(s[a + i] == '.' && s[a + i + 1] == '.');
        assert(has_pair(s, '.', '.'));
    }
}

proof fn lemma_trim_start_set_is_suffix(s: Seq<char>, a: char, b: char, d: char)
    ensures
        exists|k: int| 0 <= k <= s.len() && trim_start_set(s, a, b, d) == s.subrange(k, s.len() as int),
    decreases s.len(),
{
    if s.len() > 0 && one_of(s[0], a, b, d) {
        lemma_trim_start_set_is_suffix(s.drop_first(), a, b, d);
        let k = choose|k: int|
            0 <= k <= s.drop_first().len() && trim_start_set(s.drop_first(), a, b, d)
                == s.drop_first().subrange(k, s.drop_first().len() as int);
        assert(s.drop_first().subrange(k, s.drop_first().len() as int) =~= s.subrange(
            k + 1,
            s.len() as int,
        ));
    } else {
        assert(s.subrange(0, s.len() as int) =~= s);
    }
}

proof fn lemma_trim_end_set_is_prefix(s: Seq<char>, a: char, b: char, d: char)
    ensures
        exists|k: int| 0 <= k <= s.len() && trim_end_set(s, a, b, d) == s.subrange(0, k),
        trim_end_set(s, a, b, d).len() > 0 ==> !one_of(
            trim_end_set(s, a, b, d).last(),
            a,
            b,
            d,
        ),
    decreases s.len(),
{
    if s.len() > 0 && one_of(s.last(), a, b, d) {
        lemma_trim_end_set_is_prefix(s.drop_last(), a, b, d);
        let k = choose|k: int|
            0 <= k <= s.drop_last().len() && trim_end_set(s.drop_last(), a, b, d)
                == s.drop_last().subrange(0, k);
        assert(s.drop_last().subrange(0, k) =~= s.subrange(0, k));
    } else {
        assert(s.subrange(0, s.len() as int) =~= s);
    }
}

/// A character a saved file name may hold: no control character, and
/// only an alphanumeric character, a space, `-`, `_` or `.`.
pub open spec fn name_char(c: char) -> bool {
    !unicode_control(c) && (alphanumeric(c) || c == ' ' || c == '-' || c == '_' || c == '.')
}

/// Every character of `s` may stand in a saved file name.
pub open spec fn name_chars(s: Seq<char>) -> bool {
    forall|i: int| 0 <= i < s.len() ==> name_char(#[trigger] s[i])
}

proof fn lemma_drop_controls_clean(s: Seq<char>)
    ensures
        forall|i: int|
            0 <= i < drop_controls(s).len() ==> !unicode_control(#[trigger] drop_controls(s)[i]),
    decreases s.len(),
{
    if s.len() > 0 {
        lemma_drop_controls_clean(s.drop_last());
        let p = drop_controls(s.drop_last());
        if !unicode_control(s.last()) {
            assert forall|i: int| 0 <= i < p.push(s.last()).len() implies !unicode_control(
                #[trigger] p.push(s.last())[i],
            ) by {
                if i < p.len() {
                    assert(p.push(s.last())[i] == p[i]);
                }
            }
        }
    }
}

proof fn lemma_safe_chars_named(s: Seq<char>)
    ensures
        name_chars(drop_controls(s).map_values(|c: char| safe_char(c))),
{
    lemma_drop_controls_clean(s);
    let t = drop_controls(s);
    let a = t.map_values(|c: char| safe_char(c));
    assert forall|i: int| 0 <= i < a.len() implies name_char(#[trigger] a[i]) by {
        assert(a[i] == safe_char(t[i]));
        assert(!unicode_control(t[i]));
    }
}

proof fn lemma_names_subrange(s: Seq<char>, a: int, b: int)
    requires
        name_chars(s),
        0 <= a <= b <= s.len(),
    ensures
        name_chars(s.subrange(a, b)),
{
    let t = s.subrange(a, b);
    assert forall|i: int| 0 <= i < t.len() implies name_char(#[trigger] t[i]) by {
        assert(t[i] == s[a + i]);
    }
}

proof fn lemma_names_trim_start_ws(s: Seq<char>)
    requires
        name_chars(s),
    ensures
        name_chars(trim_start_ws(s)),
    decreases s.len(),
{
    if s.len() > 0 && unicode_white_space(s[0]) {
        lemma_names_subrange(s, 1, s.len() as int);
        assert(s.drop_first() =~= s.subrange(1, s.len() as int));
        lemma_names_trim_start_ws(s.drop_first());
    }
}

proof fn lemma_names_trim_end_ws(s: Seq<char>)
    requires
        name_chars(s),
    ensures
        name_chars(trim_end_ws(s)),
    decreases s.len(),
{
    if s.len() > 0 && unicode_white_space(s.last()) {
        lemma_names_subrange(s, 0, s.len() - 1);
        assert(s.drop_last() =~= s.subrange(0, s.len() - 1));
        lemma_names_trim_end_ws(s.drop_last());
    }
}

proof fn lemma_names_trim_set(s: Seq<char>, a: char, b: char, d: char)
    requires
        name_chars(s),
    ensures
        name_chars(trim_set(s, a, b, d)),
{
    lemma_trim_start_set_is_suffix(s, a, b, d);
    let s1 = trim_start_set(s, a, b, d);
    let k1 = choose|k: int| 0 <= k <= s.len() && s1 == s.subrange(k, s.len() as int);
    lemma_names_subrange(s, k1, s.len() as int);
    lemma_trim_end_set_is_prefix(s1, a, b, d);
    let k2 = choose|k: int| 0 <= k <= s1.len() && trim_end_set(s1, a, b, d) == s1.subrange(0, k);
    lemma_names_subrange(s1, 0, k2);
}

proof fn lemma_names_replace(s: Seq<char>, x: char, y: char, rep: char)
    requires
        name_chars(s),
        name_char(rep),
    ensures
        name_chars(replace_pair(s, x, y, rep)),
    decreases s.len(),
{
    if s.len() == 0 {
    } else if s.len() >= 2 && s[0] == x && s[1] == y {
        lemma_names_subrange(s, 2, s.len() as int);
        assert(s.skip(2) =~= s.subrange(2, s.len() as int));
        lemma_names_replace(s.skip(2), x, y, rep);
        let r = replace_pair(s, x, y, rep);
        assert forall|i: int| 0 <= i < r.len() implies name_char(#[trigger] r[i]) by {
            if i > 0 {
                assert(r[i] == replace_pair(s.skip(2), x, y, rep)[i - 1]);
            }
        }
    } else {
        lemma_names_subrange(s, 1, s.len() as int);
        assert(s.drop_first() =~= s.subrange(1, s.len() as int));
        lemma_names_replace(s.drop_first(), x, y, rep);
        let r = replace_pair(s, x, y, rep);
        assert forall|i: int| 0 <= i < r.len() implies name_char(#[trigger] r[i]) by {
            if i > 0 {
                assert(r[i] == replace_pair(s.drop_first(), x, y, rep)[i - 1]);
            }
        }
    }
}

proof fn lemma_names_collapse(s: Seq<char>, x: char, y: char, rep: char)
    requires
        name_chars(s),
        name_char(rep),
    ensures
        name_chars(collapse_pair(s, x, y, rep)),
    decreases s.len(),
{
    if has_pair(s, x, y) {
        lemma_replace_pair_len(s, x, y, rep);
        lemma_names_replace(s, x, y, rep);
        lemma_names_collapse(replace_pair(s, x, y, rep), x, y, rep);
    }
}

proof fn lemma_literal_names()
    ensures
        name_chars("audio_track"@),
        name_chars("_track"@),
{
    reveal_strlit("audio_track");
    reveal_strlit("_track");
    let a = "audio_track"@;
    assert forall|i: int| 0 <= i < a.len() implies name_char(#[trigger] a[i]) by {
        if i == 0 {} else if i == 1 {} else if i == 2 {} else if i == 3 {} else if i == 4 {
        } else if i == 5 {} else if i == 6 {} else if i == 7 {} else if i == 8 {} else if i == 9 {
        } else {}
    }
    let b = "_track"@;
    assert forall|i: int| 0 <= i < b.len() implies name_char(#[trigger] b[i]) by {
        if i == 0 {} else if i == 1 {} else if i == 2 {} else if i == 3 {} else if i == 4 {
        } else {}
    }
}

proof fn lemma_sanitized_name_chars(name: Seq<char>)
    ensures
        name_chars(sanitized_filename(name)),
{
    let a = drop_controls(name).map_values(|c: char| safe_char(c));
    let b = trim_set(trim_ws(a), '.', '.', '.');
    let c = collapse_pair(b, '.', '.', '_');
    let d = c.map_values(|ch: char| unslash(ch));
    let e = collapse_pair(d, '_', '_', '_');
    let core = trim_set(e, '.', '_', ' ');
    assert(core == filename_core(name));
    lemma_safe_chars_named(name);
    lemma_names_trim_start_ws(a);
    lemma_names_trim_end_ws(trim_start_ws(a));
    lemma_names_trim_set(trim_ws(a), '.', '.', '.');
    assert(name_char('_'));
    lemma_names_collapse(b, '.', '.', '_');
    assert forall|i: int| 0 <= i < d.len() implies name_char(#[trigger] d[i]) by {
        assert(d[i] == unslash(c[i]));
    }
    lemma_names_collapse(d, '_', '_', '_');
    lemma_names_trim_set(e, '.', '_', ' ');
    lemma_literal_names();
    if core.len() > 200 {
        lemma_names_subrange(core, 0, 200);
        assert(core.take(200) =~= core.subrange(0, 200));
        lemma_names_trim_set(core.take(200), '.', '_', ' ');
        lemma_trim_end_set_is_prefix(core.take(200), '.', '_', ' ');
        let p = core.take(200);
        let k = choose|k: int| 0 <= k <= p.len() && trim_end_set(p, '.', '_', ' ') == p.subrange(0, k);
        lemma_names_subrange(p, 0, k);
    }
    let t = if core.len() > 200 {
        trim_end_set(core.take(200), '.', '_', ' ')
    } else {
        core
    };
    let r = t + "_track"@;
    assert forall|i: int| 0 <= i < r.len() implies name_char(#[trigger] r[i]) by {
        if i >= t.len() {
            assert(r[i] == "_track"@[i - t.len()]);
        }
    }
}

/// The file-name rules keep every name a download is saved under usable
/// and inside its directory: the name is never empty, `.` or `..`; it holds
/// no path separator and no `..`; it takes at most 200 characters; it is
/// never a reserved device name; and it holds no control character, only
/// alphanumeric characters, spaces, `-`, `_` and `.`.
pub proof fn law_sanitized_name_is_safe(name: Seq<char>)
    ensures
        name_chars(sanitized_filename(name)),
        sanitized_filename(name).len() > 0,
        sanitized_filename(name) != "."@,
        sanitized_filename(name) != ".."@,
        free_of(sanitized_filename(name), '/'),
        free_of(sanitized_filename(name), '\\'),
        !has_pair(sanitized_filename(name), '.', '.'),
        sanitized_filename(name).len() <= 200,
        !reserved_name(ascii_lower(sanitized_filename(name))),
{
    lemma_sanitized_name_chars(name);
    reveal_strlit("audio_track");
    reveal_strlit("_track");
    reveal_strlit(".");
    reveal_strlit("..");
    reveal_strlit("con");
    reveal_strlit("prn");
    reveal_strlit("aux");
    reveal_strlit("nul");
    reveal_strlit("com1");
    reveal_strlit("com2");
    reveal_strlit("com3");
    reveal_strlit("com4");
    reveal_strlit("com5");
    reveal_strlit("com6");
    reveal_strlit("com7");
    reveal_strlit("com8");
    reveal_strlit("com9");
    reveal_strlit("lpt1");
    reveal_strlit("lpt2");
    reveal_strlit("lpt3");
    reveal_strlit("lpt4");
    reveal_strlit("lpt5");
    reveal_strlit("lpt6");
    reveal_strlit("lpt7");
    reveal_strlit("lpt8");
    reveal_strlit("lpt9");
    let a = drop_controls(name).map_values(|c: char| safe_char(c));
    let b = trim_set(trim_ws(a), '.', '.', '.');
    let c = collapse_pair(b, '.', '.', '_');
    let d = c.map_values(|ch: char| unslash(ch));
    let e = collapse_pair(d, '_', '_', '_');
    let core = trim_set(e, '.', '_', ' ');
    assert(core == filename_core(name));
    lemma_collapse_no_pair(b, '.', '.', '_');
    assert(free_of(d, '/') && free_of(d, '\\'));
    assert(!has_pair(d, '.', '.')) by {
        if has_pair(d, '.', '.') {
            let i = choose|i: int| 0 <= i < d.len() - 1 && d[i] == '.' && #[trigger] d[i + 1] == '.';
            assert(c[i] == '.' && c[i + 1] == '.');
            assert(has_pair(c, '.', '.'));
        }
    }
    lemma_collapse_keeps_free(d, '_', '_', '_', '/');
    lemma_collapse_keeps_free(d, '_', '_', '_', '\\');
    lemma_collapse_underscores_no_dots(d);
    let s1 = trim_start_set(e, '.', '_', ' ');
    lemma_trim_start_set_is_suffix(e, '.', '_', ' ');
    let k1 = choose|k: int| 0 <= k <= e.len() && s1 == e.subrange(k, e.len() as int);
    lemma_subrange_keeps(e, k1, e.len() as int);
    lemma_trim_end_set_is_prefix(s1, '.', '_', ' ');
    let k2 = choose|k: int| 0 <= k <= s1.len() && core == s1.subrange(0, k);
    lemma_subrange_keeps(s1, 0, k2);
    assert(free_of(core, '/') && free_of(core, '\\') && !has_pair(core, '.', '.'));
    let audio = "audio_track"@;
    assert(free_of(audio, '/') && free_of(audio, '\\'));
    assert(!has_pair(audio, '.', '.'));
    assert(ascii_lower(audio).len() == 11);
    if core.len() == 0 || core == "."@ || core == ".."@ {
    } else {
        let t = if core.len() > 200 {
            trim_end_set(core.take(200), '.', '_', ' ')
        } else {
            core
        };
        if core.len() > 200 {
            let p = core.take(200);
            assert(p == core.subrange(0, 200));
            lemma_subrange_keeps(core, 0, 200);
            lemma_trim_end_set_is_prefix(p, '.', '_', ' ');
            let k4 = choose|k: int| 0 <= k <= p.len() && t == p.subrange(0, k);
            lemma_subrange_keeps(p, 0, k4);
        }
        assert(free_of(t, '/') && free_of(t, '\\') && !has_pair(t, '.', '.') && t.len() <= 200);
        if t.len() > 0 && reserved_name(ascii_lower(t)) {
            let r = t + "_track"@;
            assert(t.len() <= 4) by {
                assert(ascii_lower(t).len() == t.len());
            }
            assert(free_of(r, '/') && free_of(r, '\\')) by {
                assert forall|i: int| 0 <= i < r.len() implies r[i] != '/' && r[i] != '\\' by {
                    if i >= t.len() {
                        assert(r[i] == "_track"@[i - t.len()]);
                    }
                }
            }
            assert(!has_pair(r, '.', '.')) by {
                if has_pair(r, '.', '.') {
                    let i = choose|i: int| 0 <= i < r.len() - 1 && r[i] == '.' && #[trigger] r[i + 1] == '.';
                    if i + 1 < t.len() {
                        assert(t[i] == '.' && t[i + 1] == '.');
                        assert(has_pair(t, '.', '.'));
                    } else {
                        assert(r[i + 1] == "_track"@[i + 1 - t.len()]);
                    }
                }
            }
            assert(r.len() >= 7);
            assert(ascii_lower(r).len() == r.len());
        } else if t.len() > 0 {
            if core.len() > 200 {
                assert(t.last() != '.');
                assert(t != "."@ && t != ".."@) by {
                    if t == "."@ || t == ".."@ {
                        assert(t.last() == '.');
                    }
                }
            }
        }
    }
}

/// Whatever extension was asked for, a download is saved with one of the
/// whitelisted extensions, so no extension can carry a separator or a dot.
pub proof fn law_sanitized_ext_is_whitelisted(raw: Seq<char>, fallback: Seq<char>)
    ensures
        allowed_ext(sanitized_ext(raw, fallback)),
{
    reveal_strlit("mp3");
}

/// Whether `url` is an `http://` or `https://` URL.
pub open spec fn http_url(url: Seq<char>) -> bool {
    "https://"@.is_prefix_of(url) || "http://"@.is_prefix_of(url)
}

fn has_prefix(v: &[char], lit: &str) -> (r: bool)
    ensures
        r == lit@.is_prefix_of(v@),
{
    let n = lit.unicode_len();
    if v.len() < n {
        return false;
    }
    let head = slice_chars(v, 0, n);
    let r = eq_str(&head, lit);
    assert(head@ =~= v@.take(n as int));
    r
}

/// Whether a download URL may be streamed: only `http` and `https` are.
pub fn is_streamable_url(url: &str) -> (r: bool)
    ensures
        r == http_url(url@),
{
    let v = chars_of(url);
    has_prefix(&v, "https://") || has_prefix(&v, "http://")
}

/// The host part of a URL as the download log names it: the third
/// `/`-separated piece, or `unknown`.
pub open spec fn url_host_spec(url: Seq<char>) -> Seq<char> {
    let parts = split_on(url, '/');
    if parts.len() > 2 {
        parts[2]
    } else {
        "unknown"@
    }
}

/// The host part of a URL (`url.split('/').nth(2)`), or `unknown`.
pub fn url_host(url: &str) -> (r: String)
    ensures
        r@ == url_host_spec(url@),
{
    let v = chars_of(url);
    let parts = split_at(&v, '/');
    if parts.len() > 2 {
        assert(views(parts@)[2] == parts@[2]@);
        string_of(&parts[2])
    } else {
        string_of(&chars_of("unknown"))
    }
}

/// The extension a download is saved with: the requested one, or the
/// format's own when none was requested, whitelisted by `sanitized_ext`.
pub open spec fn download_ext(requested: Seq<char>, format: AudioFormat) -> Seq<char> {
    let fallback = format_extension(format);
    if requested.len() == 0 {
        sanitized_ext(fallback, fallback)
    } else {
        sanitized_ext(requested, fallback)
    }
}

/// The file name a download is saved under: the sanitized title, then,
/// when a file of that name already exists, `_` and the first eight
/// characters of the download id, then `.` and the extension.
pub open spec fn download_file_name(
    title: Seq<char>,
    requested_ext: Seq<char>,
    format: AudioFormat,
    taken: bool,
    id: Seq<char>,
) -> Seq<char> {
    let stem = sanitized_filename(title);
    let tag: Seq<char> = if taken {
        seq!['_'] + id.take(if id.len() < 8 {
            id.len() as int
        } else {
            8
        })
    } else {
        Seq::empty()
    };
    stem + tag + seq!['.'] + download_ext(requested_ext, format)
}

/// Name the file a download is saved under; `taken` says whether a file of
/// the plain name already exists, `id` is the download's id.
pub fn output_file_name(
    title: &str,
    requested_ext: &str,
    format: AudioFormat,
    taken: bool,
    id: &str,
) -> (r: String)
    ensures
        r@ == download_file_name(title@, requested_ext@, format, taken, id@),
{
    let fallback = format.extension();
    let ext = if requested_ext.unicode_len() == 0 {
        sanitize_ext(fallback, fallback)
    } else {
        sanitize_ext(requested_ext, fallback)
    };
    let stem = sanitize_filename(title);
    let mut out = chars_of(stem.as_str());
    if taken {
        out.push('_');
        let idc = chars_of(id);
        let n: usize = if idc.len() < 8 {
            idc.len()
        } else {
            8
        };
        let mut head = slice_chars(&idc, 0, n);
        out.append(&mut head);
    }
    out.push('.');
    let mut e = chars_of(ext.as_str());
    out.append(&mut e);
    let r = string_of(&out);
    assert(r@ =~= download_file_name(title@, requested_ext@, format, taken, id@));
    r
}

/// The staging file of a download: its id and `.part`.
pub fn staging_file_name(id: &str) -> (r: String)
    ensures
        r@ == id@ + ".part"@,
{
    let mut out = chars_of(id);
    let mut tail = chars_of(".part");
    out.append(&mut tail);
    string_of(&out)
}

} // verus!
