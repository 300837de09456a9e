//! Embedded cover art: which picture of a file is its cover, the content
//! hash its cached copy is named by, and the image type its bytes show.
use vstd::prelude::*;
use crate::formats::unicode_lowercase;
use crate::text::{chars_of, contains_text, occurs, string_of};

verus! {

/// The role a tag gives a picture, as far as choosing a cover goes.
#[derive(Debug, Clone, Copy, PartialEq, Eq, Structural)]
pub enum PictureRole {
    /// The front cover.
    CoverFront,
    /// A picture of unspecified role.
    Other,
    /// Any other role (back cover, artist, ...).
    Elsewhere,
}

/// Index of the first picture with `role`.
pub open spec fn first_with(roles: Seq<PictureRole>, role: PictureRole) -> Option<int>
    decreases roles.len(),
{
    if roles.len() == 0 {
        None
    } else if roles[0] == role {
        Some(0)
    } else {
        match first_with(roles.drop_first(), role) {
            Some(i) => Some(i + 1),
            None => None,
        }
    }
}

/// The picture used as cover, from all pictures of all tags in order: the
/// first front cover, else the first picture of unspecified role, else the
/// first picture.
pub open spec fn best_picture_spec(roles: Seq<PictureRole>) -> Option<int> {
    match first_with(roles, PictureRole::CoverFront) {
        Some(i) => Some(i),
        None => match first_with(roles, PictureRole::Other) {
            Some(i) => Some(i),
            None => if roles.len() > 0 {
                Some(0)
            } else {
                None
            },
        },
    }
}

proof fn lemma_first_with(roles: Seq<PictureRole>, role: PictureRole)
    ensures
        match first_with(roles, role) {
            Some(i) => 0 <= i < roles.len() && roles[i] == role && forall|j: int|
                0 <= j < i ==> #[trigger] roles[j] != role,
            None => forall|j: int| 0 <= j < roles.len() ==> #[trigger] roles[j] != role,
        },
    decreases roles.len(),
{
    if roles.len() > 0 {
        lemma_first_with(roles.drop_first(), role);
        assert forall|j: int| 1 <= j < roles.len() implies roles[j] == roles.drop_first()[j - 1] by {}
    }
}

/// Choose the cover among the pictures of a file, given their roles in
/// tag order; `None` when the file has no picture.
pub fn best_picture(roles: &[PictureRole]) -> (r: Option<usize>)
    ensures
        match r {
            Some(i) => best_picture_spec(roles@) == Some(i as int),
            None => best_picture_spec(roles@) is None,
        },
{
    proof {
        lemma_first_with(roles@, PictureRole::CoverFront);
        lemma_first_with(roles@, PictureRole::Other);
    }
    let mut best: Option<usize> = None;
    let mut i: usize = 0;
    while i < roles.len()
        invariant
            i <= roles@.len(),
            forall|j: int| 0 <= j < i ==> #[trigger] roles@[j] != PictureRole::CoverFront,
            match best {
                None => i == 0,
                Some(b) => b < i && (if exists|j: int|
                    0 <= j < i && #[trigger] roles@[j] == PictureRole::Other {
                    roles@[b as int] == PictureRole::Other && forall|j: int|
                        0 <= j < b ==> #[trigger] roles@[j] != PictureRole::Other
                } else {
                    b == 0
                }),
            },
        decreases roles@.len() - i,
    {
        match roles[i] {
            PictureRole::CoverFront => {
                proof {
                    lemma_first_with(roles@, PictureRole::CoverFront);
                    if first_with(roles@, PictureRole::CoverFront) != Some(i as int) {
                        let f = first_with(roles@, PictureRole::CoverFront)->0;
                        assert(f < i);
                    }
                }
                return Some(i);
            },
            PictureRole::Other => {
                let replace = match best {
                    None => true,
                    Some(b) => roles[b] != PictureRole::Other,
                };
                if replace {
                    best = Some(i);
                }
            },
            PictureRole::Elsewhere => {
                if best.is_none() {
                    best = Some(i);
                }
            },
        }
        i = i + 1;
    }
    proof {
        lemma_first_with(roles@, PictureRole::CoverFront);
        lemma_first_with(roles@, PictureRole::Other);
        if let Some(b) = best {
            if exists|j: int| 0 <= j < roles@.len() && #[trigger] roles@[j] == PictureRole::Other {
                assert(first_with(roles@, PictureRole::Other) == Some(b as int));
            } else {
                assert(first_with(roles@, PictureRole::Other) is None);
            }
        }
    }
    best
}

/// `x * 0x100000001b3`, wrapped to 64 bits.
pub open spec fn mul_prime(x: u64) -> u64 {
    vstd::wrapping::u64_specs::wrapping_mul(x, 0x100000001b3u64)
}

/// `x * 0xcbf29ce484222325`, wrapped to 64 bits.
pub open spec fn mul_basis(x: u64) -> u64 {
    vstd::wrapping::u64_specs::wrapping_mul(x, 0xcbf29ce484222325u64)
}

/// The first running hash of `data` (FNV-1a).
pub open spec fn hash_a(data: Seq<u8>) -> u64
    decreases data.len(),
{
    if data.len() == 0 {
        0xcbf29ce484222325u64
    } else {
        mul_prime(hash_a(data.drop_last()) ^ (data.last() as u64))
    }
}

/// The second running hash of `data`: add the byte, then multiply.
pub open spec fn hash_b(data: Seq<u8>) -> u64
    decreases data.len(),
{
    if data.len() == 0 {
        0x100000001b3u64
    } else {
        mul_basis(vstd::wrapping::u64_specs::wrapping_add(hash_b(data.drop_last()), data.last() as u64))
    }
}

/// Lower-case hexadecimal digit for `d < 16`.
pub open spec fn hex_char(d: int) -> char {
    if d < 10 {
        (('0' as u32) + d) as char
    } else {
        (('a' as u32) + d - 10) as char
    }
}

/// The last `n` hexadecimal digits of `x`, most significant first.
pub open spec fn hex_digits(x: nat, n: nat) -> Seq<char>
    decreases n,
{
    if n == 0 {
        Seq::empty()
    } else {
        hex_digits(x / 16, (n - 1) as nat).push(hex_char((x % 16) as int))
    }
}

/// The name a picture's content is cached under: both hashes as sixteen
/// lower-case hexadecimal digits each.
pub open spec fn artwork_hash_spec(data: Seq<u8>) -> Seq<char> {
    hex_digits(hash_a(data) as nat, 16) + hex_digits(hash_b(data) as nat, 16)
}

fn push_hex(out: &mut Vec<char>, x: u64, n: u32)
    ensures
        final(out)@ == old(out)@ + hex_digits(x as nat, n as nat),
    decreases n,
{
    if n == 0 {
        assert(old(out)@ + hex_digits(x as nat, 0) =~= old(out)@);
        return;
    }
    push_hex(out, x / 16, n - 1);
    let d: u8 = (x % 16) as u8;
    let c: char = if d < 10 {
        (48u8 + d) as char
    } else {
        (87u8 + d) as char
    };
    assert(c == hex_char((x % 16) as int));
    out.push(c);
    assert(old(out)@ + hex_digits(x as nat, n as nat) =~= (old(out)@ + hex_digits(
        (x / 16) as nat,
        (n - 1) as nat,
    )).push(c));
}

/// Content hash a cached picture is named by (32 hexadecimal digits).
pub fn compute_artwork_hash(data: &[u8]) -> (r: String)
    ensures
        r@ == artwork_hash_spec(data@),
{
    let mut h1: u64 = 0xcbf29ce484222325;
    let mut h2: u64 = 0x100000001b3;
    let mut i: usize = 0;
    while i < data.len()
        invariant
            i <= data@.len(),
            h1 == hash_a(data@.take(i as int)),
            h2 == hash_b(data@.take(i as int)),
        decreases data@.len() - i,
    {
        let b = data[i];
        assert(data@.take(i + 1).drop_last() =~= data@.take(i as int));
        h1 = (h1 ^ (b as u64)).wrapping_mul(0x100000001b3);
        h2 = (h2.wrapping_add(b as u64)).wrapping_mul(0xcbf29ce484222325);
        i = i + 1;
    }
    assert(data@.take(data@.len() as int) =~= data@);
    let mut out: Vec<char> = Vec::new();
    push_hex(&mut out, h1, 16);
    push_hex(&mut out, h2, 16);
    string_of(&out)
}

/// A picture's MIME type as the tag reports it.
#[derive(Debug, Clone)]
pub enum ImageMime {
    Png,
    Jpeg,
    Tiff,
    Bmp,
    Gif,
    Unknown(String),
}

/// Whether `data` starts with `prefix`.
pub open spec fn starts(data: Seq<u8>, prefix: Seq<u8>) -> bool {
    prefix.len() <= data.len() && data.take(prefix.len() as int) == prefix
}

/// The extension a MIME type of unknown kind suggests.
pub open spec fn unknown_mime_ext(mime: Seq<char>) -> Seq<char> {
    let m = unicode_lowercase(mime);
    if occurs(m, "png"@) {
        "png"@
    } else if occurs(m, "webp"@) {
        "webp"@
    } else if occurs(m, "gif"@) {
        "gif"@
    } else if occurs(m, "bmp"@) {
        "bmp"@
    } else {
        "jpg"@
    }
}

/// The extension a cached picture is saved with: from its magic bytes when
/// they are recognised, else from its MIME type, else `jpg`.
pub open spec fn image_ext_spec(data: Seq<u8>, mime: Option<ImageMime>) -> Seq<char> {
    if starts(data, seq![0xffu8, 0xd8, 0xff]) {
        "jpg"@
    } else if starts(data, seq![0x89u8, 0x50, 0x4e, 0x47, 0x0d, 0x0a, 0x1a, 0x0a]) {
        "png"@
    } else if data.len() >= 12 && data.subrange(0, 4) == seq![0x52u8, 0x49, 0x46, 0x46]
        && data.subrange(8, 12) == seq![0x57u8, 0x45, 0x42, 0x50] {
        "webp"@
    } else if starts(data, seq![0x47u8, 0x49, 0x46, 0x38, 0x37, 0x61]) || starts(
        data,
        seq![0x47u8, 0x49, 0x46, 0x38, 0x39, 0x61],
    ) {
        "gif"@
    } else if starts(data, seq![0x42u8, 0x4d]) {
        "bmp"@
    } else {
        match mime {
            Some(ImageMime::Jpeg) => "jpg"@,
            Some(ImageMime::Png) => "png"@,
            Some(ImageMime::Bmp) => "bmp"@,
            Some(ImageMime::Gif) => "gif"@,
            Some(ImageMime::Tiff) => "tiff"@,
            Some(ImageMime::Unknown(s)) => unknown_mime_ext(s@),
            None => "jpg"@,
        }
    }
}

fn bytes_at(data: &[u8], from: usize, expect: &[u8]) -> (r: bool)
    ensures
        r == (from + expect@.len() <= data@.len() && data@.subrange(
            from as int,
            from + expect@.len(),
        ) == expect@),
{
    let dl = data.len();
    if from > dl || dl - from < expect.len() {
        return false;
    }
    let mut i: usize = 0;
    while i < expect.len()
        invariant
            i <= expect@.len(),
            dl == data@.len(),
            from + expect@.len() <= dl,
            forall|j: int| 0 <= j < i ==> data@[from + j] == expect@[j],
        decreases expect@.len() - i,
    {
        let k: usize = from + i;
        if data[k] != expect[i] {
            assert(data@.subrange(from as int, from + expect@.len())[i as int] != expect@[i as int]);
            return false;
        }
        i = i + 1;
    }
    assert(data@.subrange(from as int, from + expect@.len()) =~= expect@);
    true
}

/// The extension a cached picture is saved with, from its bytes and the
/// MIME type its tag states.
pub fn detect_image_extension(data: &[u8], mime: Option<&ImageMime>) -> (r: &'static str)
    ensures
        r@ == image_ext_spec(
            data@,
            match mime {
                Some(m) => Some(*m),
                None => None,
            },
        ),
{
    proof {
        reveal_strlit("jpg");
        reveal_strlit("png");
        reveal_strlit("webp");
        reveal_strlit("gif");
        reveal_strlit("bmp");
        reveal_strlit("tiff");
    }
    if bytes_at(data, 0, &[0xff, 0xd8, 0xff]) {
        return "jpg";
    }
    if bytes_at(data, 0, &[0x89, 0x50, 0x4e, 0x47, 0x0d, 0x0a, 0x1a, 0x0a]) {
        return "png";
    }
    if data.len() >= 12 && bytes_at(data, 0, &[0x52, 0x49, 0x46, 0x46]) && bytes_at(
        data,
        8,
        &[0x57, 0x45, 0x42, 0x50],
    ) {
        return "webp";
    }
    if bytes_at(data, 0, &[0x47, 0x49, 0x46, 0x38, 0x37, 0x61]) || bytes_at(
        data,
        0,
        &[0x47, 0x49, 0x46, 0x38, 0x39, 0x61],
    ) {
        return "gif";
    }
    if bytes_at(data, 0, &[0x42, 0x4d]) {
        return "bmp";
    }
    match mime {
        Some(ImageMime::Jpeg) => "jpg",
        Some(ImageMime::Png) => "png",
        Some(ImageMime::Bmp) => "bmp",
        Some(ImageMime::Gif) => "gif",
        Some(ImageMime::Tiff) => "tiff",
        Some(ImageMime::Unknown(s)) => {
            let lower = crate::formats::lowercase_text(s.as_str());
            if contains_text(&lower, &chars_of("png")) {
                "png"
            } else if contains_text(&lower, &chars_of("webp")) {
                "webp"
            } else if contains_text(&lower, &chars_of("gif")) {
                "gif"
            } else if contains_text(&lower, &chars_of("bmp")) {
                "bmp"
            } else {
                "jpg"
            }
        },
        None => "jpg",
    }
}

/// The file name a picture is cached under: its hash and extension; `None`
/// for a picture without bytes.
pub open spec fn cached_art_name(data: Seq<u8>, mime: Option<ImageMime>) -> Option<Seq<char>> {
    if data.len() == 0 {
        None
    } else {
        Some(artwork_hash_spec(data) + seq!['.'] + image_ext_spec(data, mime))
    }
}

/// Name the cache file of a picture.
pub fn cached_art_file_name(data: &[u8], mime: Option<&ImageMime>) -> (r: Option<String>)
    ensures
        match r {
            Some(s) => cached_art_name(
                data@,
                match mime {
                    Some(m) => Some(*m),
                    None => None,
                },
            ) == Some(s@),
            None => cached_art_name(
                data@,
                match mime {
                    Some(m) => Some(*m),
                    None => None,
                },
            ) is None,
        },
{
    if data.len() == 0 {
        return None;
    }
    let hash = compute_artwork_hash(data);
    let ext = detect_image_extension(data, mime);
    let mut out = chars_of(hash.as_str());
    out.push('.');
    let mut e = chars_of(ext);
    out.append(&mut e);
    let r = string_of(&out);
    assert(r@ =~= artwork_hash_spec(data@) + seq!['.'] + image_ext_spec(
        data@,
        match mime {
            Some(m) => Some(*m),
            None => None,
        },
    ));
    Some(r)
}

/// Whether `c` is a lower-case hexadecimal digit.
pub open spec fn is_lower_hex(c: char) -> bool {
    ('0' <= c && c <= '9') || ('a' <= c && c <= 'f')
}

/// Equal picture bytes are cached under one name, and every name is 32
/// lower-case hexadecimal digits.
pub proof fn law_hash_is_content_addressed(a: Seq<u8>, b: Seq<u8>)
    ensures
        a == b ==> artwork_hash_spec(a) == artwork_hash_spec(b),
        artwork_hash_spec(a).len() == 32,
        forall|i: int| 0 <= i < 32 ==> is_lower_hex(#[trigger] artwork_hash_spec(a)[i]),
{
    lemma_hex_len(hash_a(a) as nat, 16);
    lemma_hex_len(hash_b(a) as nat, 16);
    let h = artwork_hash_spec(a);
    let x = hex_digits(hash_a(a) as nat, 16);
    let y = hex_digits(hash_b(a) as nat, 16);
    assert forall|i: int| 0 <= i < 32 implies is_lower_hex(#[trigger] h[i]) by {
        if i < 16 {
            lemma_hex_lower(hash_a(a) as nat, 16, i);
            assert(h[i] == x[i]);
        } else {
            lemma_hex_lower(hash_b(a) as nat, 16, i - 16);
            assert(h[i] == y[i - 16]);
        }
    }
}

proof fn lemma_hex_len(x: nat, n: nat)
    ensures
        hex_digits(x, n).len() == n,
    decreases n,
{
    if n > 0 {
        lemma_hex_len(x / 16, (n - 1) as nat);
    }
}

proof fn lemma_hex_lower(x: nat, n: nat, i: int)
    requires
        0 <= i < n,
    ensures
        hex_digits(x, n).len() == n,
        is_lower_hex(hex_digits(x, n)[i]),
    decreases n,
{
    lemma_hex_len(x, n);
    lemma_hex_len(x / 16, (n - 1) as nat);
    if i < n - 1 {
        lemma_hex_lower(x / 16, (n - 1) as nat, i);
    } else {
        let d = (x % 16) as int;
        assert(0 <= d < 16);
        assert(hex_digits(x, n)[i] == hex_char(d));
    }
}

} // verus!
