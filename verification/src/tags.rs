//! What writing tags into a finished download sets: the title, artist and
//! album it was given, each trimmed, and only those that are not empty. A
//! request with nothing left to write touches no file at all.
use vstd::prelude::*;
use crate::text::{chars_of, string_of, trim, trim_ws};

verus! {

/// A field as a tag write takes it: trimmed, and only when not empty.
pub open spec fn kept_field(v: Seq<char>) -> Option<Seq<char>> {
    if trim_ws(v).len() > 0 {
        Some(trim_ws(v))
    } else {
        None
    }
}

/// An optional field as a tag write takes it.
pub open spec fn kept_optional(v: Option<Seq<char>>) -> Option<Seq<char>> {
    match v {
        Some(s) => kept_field(s),
        None => None,
    }
}

/// The view of an optional text.
pub open spec fn opt_text(v: Option<String>) -> Option<Seq<char>> {
    match v {
        Some(s) => Some(s@),
        None => None,
    }
}

/// The fields a tag write sets; the others are left as they are.
#[derive(Debug, Clone)]
pub struct TagRequest {
    pub title: Option<String>,
    pub artist: Option<String>,
    pub album: Option<String>,
}

fn keep(v: &str) -> (r: Option<String>)
    ensures
        opt_text(r) == kept_field(v@),
{
    let t = trim(&chars_of(v));
    if t.len() > 0 {
        Some(string_of(&t))
    } else {
        None
    }
}

/// The request for `title`, `artist` and `album`, or `None` when none of
/// them has anything to write.
pub fn tag_request(title: &str, artist: Option<&str>, album: Option<&str>) -> (r: Option<TagRequest>)
    ensures
        ({
            let t = kept_field(title@);
            let a = kept_optional(
                match artist {
                    Some(s) => Some(s@),
                    None => None,
                },
            );
            let b = kept_optional(
                match album {
                    Some(s) => Some(s@),
                    None => None,
                },
            );
            &&& r is None <==> (t is None && a is None && b is None)
            &&& r matches Some(req) ==> opt_text(req.title) == t && opt_text(req.artist) == a
                && opt_text(req.album) == b
        }),
{
    let t = keep(title);
    let a = match artist {
        Some(s) => keep(s),
        None => None,
    };
    let b = match album {
        Some(s) => keep(s),
        None => None,
    };
    if t.is_none() && a.is_none() && b.is_none() {
        None
    } else {
        Some(TagRequest { title: t, artist: a, album: b })
    }
}

} // verus!
