//! The HTTP headers a stream request carries: a fixed set that the media
//! edge checks, overridden entry by entry by the headers the resolver
//! supplied with the job, and the user agent the client is built with.
use vstd::prelude::*;
use crate::network::find;
use crate::text::{ascii_lower, chars_of, eq_ignore_ascii_case, string_of};

verus! {

/// A list of header names and values, by text.
pub open spec fn header_view(h: Seq<(String, String)>) -> Seq<(Seq<char>, Seq<char>)> {
    h.map_values(|e: (String, String)| (e.0@, e.1@))
}

/// The headers every stream request starts from.
pub open spec fn default_stream_headers() -> Seq<(Seq<char>, Seq<char>)> {
    seq![
        ("Referer"@, "https://www.youtube.com/"@),
        ("Origin"@, "https://www.youtube.com"@),
        ("Accept"@, "*/*"@),
        ("Accept-Language"@, "en-US,en;q=0.9"@),
        ("Sec-Fetch-Mode"@, "no-cors"@),
        ("Connection"@, "keep-alive"@),
    ]
}

/// `entries` with `value` under `key`: in place of the first entry with
/// that exact name, else at the end.
pub open spec fn put(entries: Seq<(Seq<char>, Seq<char>)>, key: Seq<char>, value: Seq<char>) -> Seq<
    (Seq<char>, Seq<char>),
>
    decreases entries.len(),
{
    if entries.len() == 0 {
        seq![(key, value)]
    } else if entries[0].0 == key {
        entries.update(0, (key, value))
    } else {
        seq![entries[0]] + put(entries.drop_first(), key, value)
    }
}

/// Whether a header name is `User-Agent` in any ASCII letter case.
pub open spec fn is_user_agent(name: Seq<char>) -> bool {
    ascii_lower(name) == ascii_lower("user-agent"@)
}

/// The job's headers laid over `base` in order; a user agent is left to
/// the client.
pub open spec fn overlay(base: Seq<(Seq<char>, Seq<char>)>, job: Seq<(Seq<char>, Seq<char>)>) -> Seq<
    (Seq<char>, Seq<char>),
>
    decreases job.len(),
{
    if job.len() == 0 {
        base
    } else {
        let rest = overlay(base, job.drop_last());
        let (k, v) = job.last();
        if is_user_agent(k) {
            rest
        } else {
            put(rest, k, v)
        }
    }
}

/// The user agent a stream client is built with: the job's `User-Agent`
/// (or `user-agent`) header, else a mobile browser's.
pub open spec fn user_agent_for(job: Seq<(Seq<char>, Seq<char>)>) -> Seq<char> {
    match find(job, "User-Agent"@) {
        Some(ua) => ua,
        None => match find(job, "user-agent"@) {
            Some(ua) => ua,
            None => default_user_agent(),
        },
    }
}

/// The user agent used when the job names none.
pub open spec fn default_user_agent() -> Seq<char> {
    "Mozilla/5.0 (Linux; Android 14; Pixel 8 Build/UD1A.230803.041) AppleWebKit/537.36 (KHTML, like Gecko) Chrome/124.0.0.0 Mobile Safari/537.36"@
}

fn text(s: &str) -> (r: String)
    ensures
        r@ == s@,
{
    string_of(&chars_of(s))
}

fn copy(s: &String) -> (r: String)
    ensures
        r@ == s@,
{
    string_of(&chars_of(s.as_str()))
}

fn same(a: &String, b: &String) -> (r: bool)
    ensures
        r == (a@ == b@),
{
    let x = chars_of(a.as_str());
    let y = chars_of(b.as_str());
    if x.len() != y.len() {
        return false;
    }
    let mut i: usize = 0;
    while i < x.len()
        invariant
            x@ == a@,
            y@ == b@,
            x@.len() == y@.len(),
            i <= x@.len(),
            forall|j: int| 0 <= j < i ==> x@[j] == y@[j],
        decreases x@.len() - i,
    {
        if x[i] != y[i] {
            return false;
        }
        i = i + 1;
    }
    assert(x@ =~= y@);
    true
}

fn push_header(out: &mut Vec<(String, String)>, name: &str, value: &str)
    ensures
        header_view(final(out)@) == header_view(old(out)@).push((name@, value@)),
{
    let ghost before = out@;
    out.push((text(name), text(value)));
    assert(header_view(out@) =~= header_view(before).push((name@, value@)));
}

proof fn lemma_put_at(e: Seq<(Seq<char>, Seq<char>)>, i: int, key: Seq<char>, value: Seq<char>)
    requires
        0 <= i <= e.len(),
        forall|j: int| 0 <= j < i ==> #[trigger] e[j].0 != key,
        i < e.len() ==> e[i].0 == key,
    ensures
        put(e, key, value) == if i < e.len() {
            e.update(i, (key, value))
        } else {
            e.push((key, value))
        },
    decreases e.len(),
{
    if e.len() > 0 && i > 0 {
        let t = e.drop_first();
        assert forall|j: int| 0 <= j < i - 1 implies #[trigger] t[j].0 != key by {
            assert(t[j] == e[j + 1]);
        }
        lemma_put_at(t, i - 1, key, value);
        if i < e.len() {
            assert(seq![e[0]] + t.update(i - 1, (key, value)) =~= e.update(i, (key, value)));
        } else {
            assert(seq![e[0]] + t.push((key, value)) =~= e.push((key, value)));
        }
    } else if e.len() == 0 {
        assert(seq![(key, value)] =~= e.push((key, value)));
    }
}

fn put_header(out: &mut Vec<(String, String)>, key: &String, value: &String)
    ensures
        header_view(final(out)@) == put(header_view(old(out)@), key@, value@),
{
    let ghost before = header_view(out@);
    let ghost orig = out@;
    assert(orig == old(out)@);
    let mut i: usize = 0;
    while i < out.len()
        invariant
            i <= out@.len(),
            out@ == orig,
            orig == old(out)@,
            before == header_view(orig),
            forall|j: int| 0 <= j < i ==> #[trigger] before[j].0 != key@,
        decreases out@.len() - i,
    {
        assert(before[i as int] == (out@[i as int].0@, out@[i as int].1@));
        if same(&out[i].0, key) {
            proof {
                lemma_put_at(before, i as int, key@, value@);
            }
            out.set(i, (copy(key), copy(value)));
            assert(header_view(out@) =~= before.update(i as int, (key@, value@)));
            return;
        }
        i = i + 1;
    }
    proof {
        lemma_put_at(before, i as int, key@, value@);
    }
    out.push((copy(key), copy(value)));
    assert(header_view(out@) =~= before.push((key@, value@)));
}

/// The headers a stream request is sent with.
pub fn stream_headers(job: &Vec<(String, String)>) -> (r: Vec<(String, String)>)
    ensures
        header_view(r@) == overlay(default_stream_headers(), header_view(job@)),
{
    let mut out: Vec<(String, String)> = Vec::new();
    push_header(&mut out, "Referer", "https://www.youtube.com/");
    push_header(&mut out, "Origin", "https://www.youtube.com");
    push_header(&mut out, "Accept", "*/*");
    push_header(&mut out, "Accept-Language", "en-US,en;q=0.9");
    push_header(&mut out, "Sec-Fetch-Mode", "no-cors");
    push_header(&mut out, "Connection", "keep-alive");
    assert(header_view(out@) =~= default_stream_headers());
    let ghost jv = header_view(job@);
    let mut i: usize = 0;
    while i < job.len()
        invariant
            i <= job@.len(),
            jv == header_view(job@),
            header_view(out@) == overlay(default_stream_headers(), jv.take(i as int)),
        decreases job@.len() - i,
    {
        let ghost t = jv.take(i + 1);
        assert(t.drop_last() =~= jv.take(i as int));
        assert(t.last() == (job@[i as int].0@, job@[i as int].1@));
        let name = &job[i].0;
        if !eq_ignore_ascii_case(&chars_of(name.as_str()), "user-agent") {
            put_header(&mut out, name, &job[i].1);
        }
        i = i + 1;
    }
    assert(jv.take(i as int) =~= jv);
    out
}

fn lookup(job: &Vec<(String, String)>, key: &str) -> (r: Option<String>)
    ensures
        match r {
            Some(v) => find(header_view(job@), key@) == Some(v@),
            None => find(header_view(job@), key@) is None,
        },
{
    let k = text(key);
    let ghost jv = header_view(job@);
    assert(jv.skip(0) =~= jv);
    let mut i: usize = 0;
    while i < job.len()
        invariant
            i <= job@.len(),
            jv == header_view(job@),
            k@ == key@,
            find(jv, key@) == find(jv.skip(i as int), key@),
        decreases job@.len() - i,
    {
        let ghost s = jv.skip(i as int);
        assert(s[0] == (job@[i as int].0@, job@[i as int].1@));
        if same(&job[i].0, &k) {
            return Some(copy(&job[i].1));
        }
        assert(s.drop_first() =~= jv.skip(i + 1));
        i = i + 1;
    }
    assert(jv.skip(i as int).len() == 0);
    None
}

/// The user agent a stream client is built with.
pub fn user_agent(job: &Vec<(String, String)>) -> (r: String)
    ensures
        r@ == user_agent_for(header_view(job@)),
{
    match lookup(job, "User-Agent") {
        Some(ua) => ua,
        None => match lookup(job, "user-agent") {
            Some(ua) => ua,
            None => text(
                "Mozilla/5.0 (Linux; Android 14; Pixel 8 Build/UD1A.230803.041) AppleWebKit/537.36 (KHTML, like Gecko) Chrome/124.0.0.0 Mobile Safari/537.36",
            ),
        },
    }
}

proof fn lemma_put_entries(e: Seq<(Seq<char>, Seq<char>)>, key: Seq<char>, value: Seq<char>)
    ensures
        forall|i: int|
            0 <= i < put(e, key, value).len() ==> #[trigger] put(e, key, value)[i] == (key, value)
                || e.contains(put(e, key, value)[i]),
    decreases e.len(),
{
    if e.len() > 0 && e[0].0 != key {
        let t = e.drop_first();
        lemma_put_entries(t, key, value);
        let p = put(e, key, value);
        assert forall|i: int| 0 <= i < p.len() implies #[trigger] p[i] == (key, value) || e.contains(
            p[i],
        ) by {
            if i == 0 {
                assert(e[0] == p[0]);
            } else {
                assert(p[i] == put(t, key, value)[i - 1]);
                if t.contains(p[i]) {
                    let j = choose|j: int| 0 <= j < t.len() && t[j] == p[i];
                    assert(e[j + 1] == p[i]);
                }
            }
        }
    } else if e.len() > 0 {
        let p = put(e, key, value);
        assert forall|i: int| 0 <= i < p.len() implies #[trigger] p[i] == (key, value) || e.contains(
            p[i],
        ) by {
            if i != 0 {
                assert(e[i] == p[i]);
            }
        }
    }
}

proof fn lemma_overlay_keeps_user_agent_out(job: Seq<(Seq<char>, Seq<char>)>)
    ensures
        forall|i: int|
            0 <= i < overlay(default_stream_headers(), job).len() ==> !is_user_agent(
                #[trigger] overlay(default_stream_headers(), job)[i].0,
            ),
    decreases job.len(),
{
    if job.len() == 0 {
        reveal_strlit("user-agent");
        reveal_strlit("Referer");
        reveal_strlit("Origin");
        reveal_strlit("Accept");
        reveal_strlit("Accept-Language");
        reveal_strlit("Sec-Fetch-Mode");
        reveal_strlit("Connection");
        let d = default_stream_headers();
        assert(overlay(d, job) == d);
        assert forall|i: int| 0 <= i < d.len() implies !is_user_agent(#[trigger] d[i].0) by {
            let n = d[i].0;
            if ascii_lower(n) == ascii_lower("user-agent"@) {
                assert(ascii_lower(n).len() == n.len());
                assert(ascii_lower(n)[0] == ascii_lower("user-agent"@)[0]);
            }
        }
    } else {
        let rest = job.drop_last();
        lemma_overlay_keeps_user_agent_out(rest);
        let (k, v) = job.last();
        let base = overlay(default_stream_headers(), rest);
        if is_user_agent(k) {
            assert(overlay(default_stream_headers(), job) == base);
        } else {
            assert(overlay(default_stream_headers(), job) == put(base, k, v));
            lemma_put_entries(base, k, v);
            let p = put(base, k, v);
            assert forall|i: int| 0 <= i < p.len() implies !is_user_agent(#[trigger] p[i].0) by {
                if p[i] != (k, v) {
                    let j = choose|j: int| 0 <= j < base.len() && base[j] == p[i];
                    assert(!is_user_agent(base[j].0));
                }
            }
        }
    }
}

/// A stream request never carries a `User-Agent` header, in any letter
/// case: the user agent is the client's alone, whatever the job supplied.
pub proof fn law_user_agent_only_on_the_client(job: Seq<(Seq<char>, Seq<char>)>)
    ensures
        forall|i: int|
            0 <= i < overlay(default_stream_headers(), job).len() ==> !is_user_agent(
                #[trigger] overlay(default_stream_headers(), job)[i].0,
            ),
{
    lemma_overlay_keeps_user_agent_out(job);
}

} // verus!
