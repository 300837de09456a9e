//! Completing a windowed media response with explicit range requests.
//!
//! A response is appended to the staging file only when its headers prove it
//! is the slice that was asked for: a `206` whose `Content-Range` starts at
//! the byte the file already ends at, or a `200` while the file is still
//! empty. Every rejection says why, and a rejection that proves the object
//! ends where the file ends is told apart from one that only proves this
//! request shape did not oblige.
use vstd::prelude::*;
use crate::text::{
    ascii_lower, chars_of, decimal, eq_ignore_ascii_case, first_index_from, parse_u64,
    parse_u64_spec, push_decimal, slice_chars, split_once, split_once3, split_once_any,
    string_of, trim, trim_ws,
};

verus! {

/// Bytes requested per top-up call.
pub const TOPUP_CHUNK_BYTES: u64 = 2097152;

/// How many top-up rounds to try before declaring the stream unrecoverable.
pub const MAX_TOPUP_ROUNDS: usize = 4;

/// The value of the first of `parts` that starts with `key`.
pub open spec fn first_value(parts: Seq<Seq<char>>, key: Seq<char>) -> Option<Seq<char>>
    decreases parts.len(),
{
    if parts.len() == 0 {
        None
    } else if key.is_prefix_of(parts[0]) {
        Some(parts[0].subrange(key.len() as int, parts[0].len() as int))
    } else {
        first_value(parts.drop_first(), key)
    }
}

/// The raw value of query parameter `param` in `url`: of the first
/// parameter of the query (after `?`, cut at each `&`) named `param`, the
/// text after `param=`.
pub open spec fn url_param(url: Seq<char>, param: Seq<char>) -> Option<Seq<char>> {
    match split_once(url, '?') {
        None => None,
        Some((_, query)) => first_value(split_on(query, '&'), param.push('=')),
    }
}

fn matches_at(v: &[char], k: &[char], i: usize) -> (r: bool)
    ensures
        r == (i + k@.len() <= v@.len() && v@.subrange(i as int, i + k@.len()) == k@),
{
    if i > v.len() || v.len() - i < k.len() {
        return false;
    }
    let n = v.len();
    let mut j: usize = 0;
    while j < k.len()
        invariant
            n == v@.len(),
            i + k@.len() <= v@.len(),
            j <= k@.len(),
            forall|t: int| 0 <= t < j ==> v@[i + t] == k@[t],
        decreases k@.len() - j,
    {
        assert(i + j < v@.len());
        if v[i + j] != k[j] {
            assert(v@.subrange(i as int, i + k@.len())[j as int] != k@[j as int]);
            return false;
        }
        j = j + 1;
    }
    assert(v@.subrange(i as int, i + k@.len()) =~= k@);
    true
}

/// Extract a raw (non-numeric) query parameter, e.g. `itag=140`.
pub fn url_param_str(url: &str, param: &str) -> (r: Option<String>)
    ensures
        match url_param(url@, param@) {
            None => r is None,
            Some(v) => r matches Some(s) && s@ == v,
        },
{
    let u = chars_of(url);
    let mut key = chars_of(param);
    key.push('=');
    let query = match split_once_any(&u, '?', '?', '?') {
        Some((_, q)) => q,
        None => return None,
    };
    let parts = split_at(&query, '&');
    let ghost ps = views(parts@);
    let mut i: usize = 0;
    assert(ps.skip(0) =~= ps);
    assert(first_value(ps, key@) == url_param(url@, param@));
    while i < parts.len()
        invariant
            first_value(ps, key@) == url_param(url@, param@),
            ps == views(parts@),
            ps.len() == parts@.len(),
            key@ == param@.push('='),
            i <= ps.len(),
            first_value(ps, key@) == first_value(ps.skip(i as int), key@),
        decreases ps.len() - i,
    {
        let part = &parts[i];
        assert(ps.skip(i as int)[0] == part@);
        assert(ps.skip(i as int).drop_first() =~= ps.skip(i + 1));
        if matches_at(part, &key, 0) {
            assert(part@.subrange(0, key@.len() as int) == key@);
            assert(key@.is_prefix_of(part@));
            let value = slice_chars(part, key.len(), part.len());
            assert(ps.skip(i as int).len() > 0);
            assert(first_value(ps.skip(i as int), key@) == Some(
                part@.subrange(key@.len() as int, part@.len() as int),
            ));
            return Some(string_of(&value));
        }
        assert(!key@.is_prefix_of(part@)) by {
            if key@.is_prefix_of(part@) {
                assert(part@.subrange(0, key@.len() as int) =~= key@);
            }
        }
        i = i + 1;
    }
    None
}

/// `s` cut at every `c` (`str::split`): always at least one piece.
pub open spec fn split_on(s: Seq<char>, c: char) -> Seq<Seq<char>>
    decreases s.len(),
{
    if s.len() == 0 {
        seq![Seq::empty()]
    } else {
        let p = split_on(s.drop_last(), c);
        if s.last() == c {
            p.push(Seq::empty())
        } else {
            p.update(p.len() - 1, p.last().push(s.last()))
        }
    }
}

proof fn lemma_split_on_nonempty(s: Seq<char>, c: char)
    ensures
        split_on(s, c).len() >= 1,
    decreases s.len(),
{
    if s.len() > 0 {
        lemma_split_on_nonempty(s.drop_last(), c);
    }
}

/// The key of a query part: the text before its first `=`.
pub open spec fn query_key(part: Seq<char>) -> Seq<char> {
    match split_once(part, '=') {
        Some((k, _)) => k,
        None => part,
    }
}

/// Whether a query part survives: its key is neither `range` nor `range2`,
/// in any ASCII letter case.
pub open spec fn keeps_part(part: Seq<char>) -> bool {
    ascii_lower(query_key(part)) != ascii_lower("range"@) && ascii_lower(query_key(part))
        != ascii_lower("range2"@)
}

/// The parts that survive, in order.
pub open spec fn kept_parts(parts: Seq<Seq<char>>) -> Seq<Seq<char>>
    decreases parts.len(),
{
    if parts.len() == 0 {
        Seq::empty()
    } else if keeps_part(parts.last()) {
        kept_parts(parts.drop_last()).push(parts.last())
    } else {
        kept_parts(parts.drop_last())
    }
}

/// Parts joined with `&` between them (`join("&")`).
pub open spec fn join_amp(parts: Seq<Seq<char>>) -> Seq<char>
    decreases parts.len(),
{
    if parts.len() == 0 {
        Seq::empty()
    } else if parts.len() == 1 {
        parts[0]
    } else {
        join_amp(parts.drop_last()) + seq!['&'] + parts.last()
    }
}

/// The `range=start-end` parameter.
pub open spec fn range_window(start: u64, end: u64) -> Seq<char> {
    "range="@ + decimal(start as nat) + seq!['-'] + decimal(end as nat)
}

/// `url` with every `range`/`range2` parameter of its query dropped and
/// `range=start-end` added as the last parameter (as the whole query when
/// the URL has none).
pub open spec fn with_range(url: Seq<char>, start: u64, end: u64) -> Seq<char> {
    match split_once(url, '?') {
        None => url + seq!['?'] + range_window(start, end),
        Some((base, query)) => {
            let kept = kept_parts(split_on(query, '&'));
            if kept.len() == 0 {
                base + seq!['?'] + range_window(start, end)
            } else {
                base + seq!['?'] + join_amp(kept) + seq!['&'] + range_window(start, end)
            }
        },
    }
}

/// The views of a list of character vectors.
pub open spec fn views(v: Seq<Vec<char>>) -> Seq<Seq<char>> {
    v.map_values(|x: Vec<char>| x@)
}

/// `u` cut at every `sep` (`str::split`).
pub fn split_at(u: &[char], sep: char) -> (parts: Vec<Vec<char>>)
    ensures
        views(parts@) == split_on(u@, sep),
{
    let mut done: Vec<Vec<char>> = Vec::new();
    let mut cur: Vec<char> = Vec::new();
    let mut i: usize = 0;
    while i < u.len()
        invariant
            i <= u@.len(),
            views(done@).push(cur@) == split_on(u@.take(i as int), sep),
        decreases u@.len() - i,
    {
        let c = u[i];
        let ghost prev = u@.take(i as int);
        assert(u@.take(i + 1).drop_last() =~= prev);
        if c == sep {
            let finished = cur;
            done.push(finished);
            cur = Vec::new();
            assert(views(done@).push(cur@) =~= split_on(u@.take(i + 1), sep));
        } else {
            cur.push(c);
            assert(views(done@).push(cur@) =~= split_on(u@.take(i + 1), sep));
        }
        i = i + 1;
    }
    assert(u@.take(u@.len() as int) =~= u@);
    done.push(cur);
    assert(views(done@) =~= split_on(u@, sep));
    done
}

fn keep_query_part(part: &[char]) -> (r: bool)
    ensures
        r == keeps_part(part@),
{
    let key = match split_once_any(part, '=', '=', '=') {
        Some((k, _)) => k,
        None => slice_chars(part, 0, part.len()),
    };
    assert(part@.subrange(0, part@.len() as int) =~= part@);
    !eq_ignore_ascii_case(&key, "range") && !eq_ignore_ascii_case(&key, "range2")
}

proof fn lemma_join_push(parts: Seq<Seq<char>>, p: Seq<char>)
    ensures
        join_amp(parts.push(p)) == if parts.len() == 0 {
            p
        } else {
            join_amp(parts) + seq!['&'] + p
        },
{
    assert(parts.push(p).drop_last() =~= parts);
}

/// Add an explicit `range=start-end` window to a URL, dropping any `range`
/// or `range2` parameter it already carried.
pub fn with_range_param(url: &str, start: u64, end: u64) -> (r: String)
    ensures
        r@ == with_range(url@, start, end),
{
    let u = chars_of(url);
    let mut window = chars_of("range=");
    push_decimal(&mut window, start);
    window.push('-');
    push_decimal(&mut window, end);
    assert(window@ =~= range_window(start, end));
    let (base, query) = match split_once_any(&u, '?', '?', '?') {
        Some(p) => p,
        None => {
            let mut out = u;
            out.push('?');
            out.append(&mut window);
            let r = string_of(&out);
            assert(r@ =~= with_range(url@, start, end));
            return r;
        },
    };
    let parts = split_at(&query, '&');
    let ghost ps = views(parts@);
    let mut out: Vec<char> = Vec::new();
    let mut kept: usize = 0;
    let mut i: usize = 0;
    while i < parts.len()
        invariant
            ps == views(parts@),
            ps.len() == parts@.len(),
            i <= ps.len(),
            kept == kept_parts(ps.take(i as int)).len(),
            kept <= i,
            out@ == join_amp(kept_parts(ps.take(i as int))),
        decreases ps.len() - i,
    {
        assert(ps.take(i + 1).drop_last() =~= ps.take(i as int));
        assert(ps.take(i + 1).last() == parts@[i as int]@);
        let part = &parts[i];
        if keep_query_part(part) {
            proof {
                lemma_join_push(kept_parts(ps.take(i as int)), part@);
            }
            if kept > 0 {
                out.push('&');
            }
            let mut piece = slice_chars(part, 0, part.len());
            assert(piece@ =~= part@);
            let ghost before = out@;
            out.append(&mut piece);
            if kept > 0 {
                assert(out@ =~= before + part@);
            }
            kept = kept + 1;
        }
        i = i + 1;
    }
    assert(ps.take(ps.len() as int) =~= ps);
    let mut r = base;
    r.push('?');
    if kept > 0 {
        r.append(&mut out);
        r.push('&');
    }
    r.append(&mut window);
    let s = string_of(&r);
    assert(s@ =~= with_range(url@, start, end));
    s
}

/// The span a `206` claims to be delivering, plus the object length it
/// advertises (`None` for the `*` form).
#[derive(Debug, Clone, Copy, PartialEq, Eq, Structural)]
pub struct ContentRange {
    pub start: u64,
    pub end: u64,
    pub total: Option<u64>,
}

/// A `Content-Range` value split into its unit and remainder: the
/// separator is the first space, tab or `=`, and the unit must be `bytes` in
/// any ASCII letter case.
pub open spec fn split_content_range_spec(value: Seq<char>) -> Option<(Seq<char>, Seq<char>)> {
    match split_once3(trim_ws(value), ' ', '\t', '=') {
        None => None,
        Some((unit, rest)) => if ascii_lower(unit) == ascii_lower("bytes"@) {
            Some((unit, trim_ws(rest)))
        } else {
            None
        },
    }
}

/// `bytes {start}-{end}/{total}` with `total` a number or `*`, and
/// `start <= end`.
pub open spec fn content_range_spec(value: Seq<char>) -> Option<ContentRange> {
    match split_content_range_spec(value) {
        None => None,
        Some((_, rest)) => match split_once(rest, '/') {
            None => None,
            Some((span, total)) => match split_once(trim_ws(span), '-') {
                None => None,
                Some((a, b)) => match (parse_u64_spec(trim_ws(a)), parse_u64_spec(trim_ws(b))) {
                    (Some(start), Some(end)) => {
                        if end < start {
                            None
                        } else if trim_ws(total) == seq!['*'] {
                            Some(ContentRange { start, end, total: None })
                        } else {
                            match parse_u64_spec(trim_ws(total)) {
                                Some(n) => Some(ContentRange { start, end, total: Some(n) }),
                                None => None,
                            }
                        }
                    },
                    _ => None,
                },
            },
        },
    }
}

/// The object length of a `bytes */{length}` value, as a `416` carries it.
pub open spec fn unsatisfied_length_spec(value: Seq<char>) -> Option<u64> {
    match split_content_range_spec(value) {
        None => None,
        Some((_, rest)) => if rest.len() >= 2 && rest[0] == '*' && rest[1] == '/' {
            parse_u64_spec(trim_ws(rest.subrange(2, rest.len() as int)))
        } else {
            None
        },
    }
}

/// Split a `Content-Range` value into its unit and remainder.
pub fn split_content_range(value: &str) -> (r: Option<(String, String)>)
    ensures
        match split_content_range_spec(value@) {
            None => r is None,
            Some((u, rest)) => r matches Some((a, b)) && a@ == u && b@ == rest,
        },
{
    let v = chars_of(value);
    let t = trim(&v);
    let (unit, rest) = match split_once_any(&t, ' ', '\t', '=') {
        Some(p) => p,
        None => return None,
    };
    if !eq_ignore_ascii_case(&unit, "bytes") {
        return None;
    }
    let rest = trim(&rest);
    Some((string_of(&unit), string_of(&rest)))
}

fn parse_trimmed(v: &[char]) -> (r: Option<u64>)
    ensures
        r == parse_u64_spec(trim_ws(v@)),
{
    let t = trim(v);
    parse_u64(&t)
}

/// Parse `Content-Range: bytes {start}-{end}/{total}`; anything else,
/// including a reversed span, is refused.
pub fn parse_content_range(value: &str) -> (r: Option<ContentRange>)
    ensures
        r == content_range_spec(value@),
{
    let (_unit, rest) = match split_content_range(value) {
        Some(p) => p,
        None => return None,
    };
    let rest = chars_of(rest.as_str());
    let (span, total) = match split_once_any(&rest, '/', '/', '/') {
        Some(p) => p,
        None => return None,
    };
    let span = trim(&span);
    let (a, b) = match split_once_any(&span, '-', '-', '-') {
        Some(p) => p,
        None => return None,
    };
    let start = match parse_trimmed(&a) {
        Some(n) => n,
        None => return None,
    };
    let end = match parse_trimmed(&b) {
        Some(n) => n,
        None => return None,
    };
    if end < start {
        return None;
    }
    let t = trim(&total);
    if t.len() == 1 && t[0] == '*' {
        assert(t@ =~= seq!['*']);
        return Some(ContentRange { start, end, total: None });
    }
    assert(t@ != seq!['*']) by {
        if t@ == seq!['*'] {
            assert(t@.len() == 1 && t@[0] == '*');
        }
    }
    match parse_u64(&t) {
        Some(n) => Some(ContentRange { start, end, total: Some(n) }),
        None => None,
    }
}

/// Extract the object length from the `Content-Range: bytes */{length}` that
/// a `416` carries.
pub fn parse_unsatisfied_length(value: &str) -> (r: Option<u64>)
    ensures
        r == unsatisfied_length_spec(value@),
{
    let (_unit, rest) = match split_content_range(value) {
        Some(p) => p,
        None => return None,
    };
    let rest = chars_of(rest.as_str());
    if rest.len() >= 2 && rest[0] == '*' && rest[1] == '/' {
        let tail = slice_chars(&rest, 2, rest.len());
        parse_trimmed(&tail)
    } else {
        None
    }
}

/// An advertised total for a diagnostic: the number, or `*` when unknown.
pub open spec fn total_text(total: Option<u64>) -> Seq<char> {
    match total {
        Some(n) => decimal(n as nat),
        None => seq!['*'],
    }
}

/// Render an advertised total for a diagnostic (`*` when unknown).
pub fn describe_total(total: Option<u64>) -> (r: String)
    ensures
        r@ == total_text(total),
{
    let mut out: Vec<char> = Vec::new();
    match total {
        Some(n) => push_decimal(&mut out, n),
        None => out.push('*'),
    }
    assert(out@ =~= total_text(total));
    string_of(&out)
}

/// Why one request shape's response cannot be appended; another shape may
/// still deliver the window.
#[derive(Debug, Clone)]
pub enum ShapeProblem {
    /// The top-up was asked for with a zero-byte allowance.
    ZeroAllowance { start: u64 },
    /// A `206` without a `Content-Range` header.
    NoContentRange { start: u64 },
    /// A `206` whose `Content-Range` header does not parse.
    UnusableContentRange { raw: String, start: u64 },
    /// A `200` although the file already holds bytes: the edge ignored the
    /// range and sent the whole object from byte 0.
    RangeIgnored { start: u64 },
    /// Neither `206` nor a usable `200`.
    NotPartial { code: u16 },
    /// A `206` for a window that does not start where the file ends.
    WrongWindow { served: ContentRange, start: u64 },
}

/// Why a response must not be appended to the staging file.
#[derive(Debug, Clone)]
pub enum Reject {
    /// This request shape answered with something unusable.
    Shape(ShapeProblem),
    /// The advertised object ends at or before `start`: no request shape can
    /// produce more bytes.
    ObjectEnds { total: u64, start: u64 },
}

/// The decision about one response, without the diagnostic text.
#[derive(Debug, Clone, Copy, PartialEq, Eq, Structural)]
pub enum AppendPlan {
    Append(u64),
    ZeroAllowance,
    NoContentRange,
    UnusableContentRange,
    RangeIgnored,
    NotPartial,
    WrongWindow(ContentRange),
    ObjectEnds(u64),
}

/// How many bytes one response may append, or why it may not.
///
/// A `206` must carry a parseable `Content-Range` starting at `start`; a
/// `200` is only the requested range while the file is still empty (its
/// total is then the `Content-Length`). Nothing is ever appended past the
/// advertised end of the object, and never more than the allowance.
pub open spec fn plan_for(
    code: u16,
    content_range: Option<Seq<char>>,
    content_length: Option<u64>,
    start: u64,
    max_bytes: u64,
) -> AppendPlan {
    if max_bytes == 0 {
        AppendPlan::ZeroAllowance
    } else if code == 206 {
        match content_range {
            None => AppendPlan::NoContentRange,
            Some(raw) => match content_range_spec(raw) {
                None => AppendPlan::UnusableContentRange,
                Some(span) => if span.start != start {
                    AppendPlan::WrongWindow(span)
                } else {
                    clamp_to_total(span.total, start, max_bytes)
                },
            },
        }
    } else if code == 200 && start == 0 {
        clamp_to_total(content_length, start, max_bytes)
    } else if code == 200 {
        AppendPlan::RangeIgnored
    } else {
        AppendPlan::NotPartial
    }
}

/// The allowance clamped to the advertised object end.
pub open spec fn clamp_to_total(total: Option<u64>, start: u64, max_bytes: u64) -> AppendPlan {
    match total {
        Some(t) => if t <= start {
            AppendPlan::ObjectEnds(t)
        } else if max_bytes < t - start {
            AppendPlan::Append(max_bytes)
        } else {
            AppendPlan::Append((t - start) as u64)
        },
        None => AppendPlan::Append(max_bytes),
    }
}

/// The decision a result of [`plan_append`] stands for.
pub open spec fn plan_of(r: Result<u64, Reject>) -> AppendPlan {
    match r {
        Ok(n) => AppendPlan::Append(n),
        Err(Reject::ObjectEnds { total, .. }) => AppendPlan::ObjectEnds(total),
        Err(Reject::Shape(p)) => match p {
            ShapeProblem::ZeroAllowance { .. } => AppendPlan::ZeroAllowance,
            ShapeProblem::NoContentRange { .. } => AppendPlan::NoContentRange,
            ShapeProblem::UnusableContentRange { .. } => AppendPlan::UnusableContentRange,
            ShapeProblem::RangeIgnored { .. } => AppendPlan::RangeIgnored,
            ShapeProblem::NotPartial { .. } => AppendPlan::NotPartial,
            ShapeProblem::WrongWindow { served, .. } => AppendPlan::WrongWindow(served),
        },
    }
}

/// The details a rejection carries: the requested offset, the raw header
/// it could not use and the status code it refused.
pub open spec fn reject_details(
    r: Result<u64, Reject>,
    code: u16,
    content_range: Option<Seq<char>>,
    start: u64,
) -> bool {
    match r {
        Ok(_) => true,
        Err(Reject::ObjectEnds { start: s, .. }) => s == start,
        Err(Reject::Shape(p)) => match p {
            ShapeProblem::ZeroAllowance { start: s } => s == start,
            ShapeProblem::NoContentRange { start: s } => s == start,
            ShapeProblem::UnusableContentRange { raw, start: s } => s == start && content_range
                == Some(raw@),
            ShapeProblem::RangeIgnored { start: s } => s == start,
            ShapeProblem::NotPartial { code: c } => c == code,
            ShapeProblem::WrongWindow { start: s, .. } => s == start,
        },
    }
}

fn clamp_allowance(total: Option<u64>, start: u64, max_bytes: u64) -> (r: Result<u64, Reject>)
    ensures
        plan_of(r) == clamp_to_total(total, start, max_bytes),
        r matches Err(Reject::ObjectEnds { start: s, .. }) ==> s == start,
        r is Ok || r matches Err(Reject::ObjectEnds { .. }),
{
    match total {
        Some(t) => {
            if t <= start {
                Err(Reject::ObjectEnds { total: t, start })
            } else if max_bytes < t - start {
                Ok(max_bytes)
            } else {
                Ok(t - start)
            }
        },
        None => Ok(max_bytes),
    }
}

/// Decide how many bytes one top-up response may append, or why it must
/// not be appended at all. `start` is how many bytes the staging file holds;
/// `max_bytes` is the per-call allowance.
pub fn plan_append(
    code: u16,
    content_range: Option<&str>,
    content_length: Option<u64>,
    start: u64,
    max_bytes: u64,
) -> (r: Result<u64, Reject>)
    ensures
        plan_of(r) == plan_for(
            code,
            match content_range {
                Some(s) => Some(s@),
                None => None,
            },
            content_length,
            start,
            max_bytes,
        ),
        reject_details(
            r,
            code,
            match content_range {
                Some(s) => Some(s@),
                None => None,
            },
            start,
        ),
{
    if max_bytes == 0 {
        return Err(Reject::Shape(ShapeProblem::ZeroAllowance { start }));
    }
    if code == 206 {
        let raw = match content_range {
            Some(raw) => raw,
            None => return Err(Reject::Shape(ShapeProblem::NoContentRange { start })),
        };
        let span = match parse_content_range(raw) {
            Some(span) => span,
            None => {
                let text = raw.to_owned();
                return Err(Reject::Shape(ShapeProblem::UnusableContentRange { raw: text, start }));
            },
        };
        if span.start != start {
            return Err(Reject::Shape(ShapeProblem::WrongWindow { served: span, start }));
        }
        clamp_allowance(span.total, start, max_bytes)
    } else if code == 200 && start == 0 {
        clamp_allowance(content_length, start, max_bytes)
    } else if code == 200 {
        Err(Reject::Shape(ShapeProblem::RangeIgnored { start }))
    } else {
        Err(Reject::Shape(ShapeProblem::NotPartial { code }))
    }
}

/// What went wrong with one request shape.
#[derive(Debug, Clone)]
pub enum Failure {
    /// `416 Range Not Satisfiable`, with the object length when the
    /// response stated it: the object really ends there.
    HardWall { code: u16, object_len: Option<u64> },
    /// Any other non-success status, with the advertised body length.
    Status { code: u16, advertised: u64 },
    /// A success status whose response is not the requested slice.
    Rejected(Reject),
}

/// What to do after one request shape answered.
#[derive(Debug, Clone)]
pub enum RoundOutcome {
    /// Append at most this many bytes of the body.
    Append(u64),
    /// Record the failure and try the next request shape.
    Retry(Failure),
    /// Record the failure and stop: no shape can produce more bytes.
    Stop(Failure),
}

/// Whether a status code is a success (`2xx`).
pub open spec fn is_success(code: u16) -> bool {
    200 <= code <= 299
}

/// Classify the response one request shape produced, before a single byte
/// of it is written.
pub fn classify_response(
    code: u16,
    content_range: Option<&str>,
    content_length: Option<u64>,
    start: u64,
    max_bytes: u64,
) -> (r: RoundOutcome)
    ensures
        !is_success(code) && code == 416 ==> (r matches RoundOutcome::Retry(
            Failure::HardWall { code: c, object_len },
        ) && c == code && object_len == match content_range {
            Some(s) => unsatisfied_length_spec(s@),
            None => None,
        }),
        !is_success(code) && code != 416 ==> (r matches RoundOutcome::Retry(
            Failure::Status { code: c, advertised },
        ) && c == code && advertised == match content_length {
            Some(n) => n,
            None => 0,
        }),
        is_success(code) ==> match plan_for(
            code,
            match content_range {
                Some(s) => Some(s@),
                None => None,
            },
            content_length,
            start,
            max_bytes,
        ) {
            AppendPlan::Append(n) => r matches RoundOutcome::Append(m) && m == n,
            AppendPlan::ObjectEnds(t) => r matches RoundOutcome::Stop(
                Failure::Rejected(Reject::ObjectEnds { total, start: s }),
            ) && total == t && s == start,
            _ => r matches RoundOutcome::Retry(Failure::Rejected(Reject::Shape(_))),
        },
{
    if code < 200 || code > 299 {
        if code == 416 {
            let object_len = match content_range {
                Some(raw) => parse_unsatisfied_length(raw),
                None => None,
            };
            return RoundOutcome::Retry(Failure::HardWall { code, object_len });
        }
        let advertised = match content_length {
            Some(n) => n,
            None => 0,
        };
        return RoundOutcome::Retry(Failure::Status { code, advertised });
    }
    match plan_append(code, content_range, content_length, start, max_bytes) {
        Ok(limit) => RoundOutcome::Append(limit),
        Err(Reject::ObjectEnds { total, start }) => RoundOutcome::Stop(
            Failure::Rejected(Reject::ObjectEnds { total, start }),
        ),
        Err(Reject::Shape(p)) => RoundOutcome::Retry(Failure::Rejected(Reject::Shape(p))),
    }
}

/// Last byte of the window a top-up asks for: `start + max_bytes - 1`,
/// saturating at both ends.
pub fn request_end(start: u64, max_bytes: u64) -> (r: u64)
    ensures
        r == (if start + max_bytes > u64::MAX {
            u64::MAX - 1
        } else if start + max_bytes == 0 {
            0
        } else {
            start + max_bytes - 1
        }),
{
    start.saturating_add(max_bytes).saturating_sub(1)
}

/// How much of a `chunk_len`-byte chunk to append when `appended` of the
/// `limit` bytes allowed are already written: all of it, or what still fits.
pub fn chunk_take(limit: u64, appended: u64, chunk_len: usize) -> (r: usize)
    requires
        appended <= limit,
    ensures
        r == (if chunk_len as int <= limit - appended {
            chunk_len as int
        } else {
            limit - appended
        }),
        appended + r <= limit,
{
    let rest = limit - appended;
    let room: usize = if rest > (usize::MAX as u64) {
        usize::MAX
    } else {
        rest as usize
    };
    if chunk_len < room {
        chunk_len
    } else {
        room
    }
}

/// An append is only ever planned for the slice that was asked for: a
/// `206` whose `Content-Range` starts exactly at the held bytes, or a `200`
/// to a file that holds none; it is never empty, never exceeds the
/// allowance, and never reaches past the advertised end of the object. A
/// response that says the object already ends is only believed when that
/// end is at or before the held bytes.
pub proof fn law_appends_are_the_requested_slice(
    code: u16,
    content_range: Option<Seq<char>>,
    content_length: Option<u64>,
    start: u64,
    max_bytes: u64,
)
    ensures
        ({
            let plan = plan_for(code, content_range, content_length, start, max_bytes);
            &&& (plan matches AppendPlan::Append(n) ==> {
                &&& 0 < n <= max_bytes
                &&& (code == 206 || (code == 200 && start == 0))
                &&& (code == 206 ==> (content_range is Some && (content_range_spec(
                    content_range->0,
                ) matches Some(span) && span.start == start && (span.total matches Some(t)
                    ==> start + n <= t))))
                &&& (code == 200 ==> (content_length matches Some(t) ==> n <= t))
            })
            &&& (plan matches AppendPlan::ObjectEnds(t) ==> t <= start)
        }),
{
}

} // verus!
