//! Audio formats the library recognises, and the extension rules that decide
//! which files are music, what a stored format name means, and which MIME
//! type a published download gets.
use vstd::prelude::*;
use crate::paths::{extension_of_path, path_extension};
use crate::text::{
    ascii_lower, chars_of, eq_str, lemma_trim_start_char, lower_ascii, string_of, trim_start_char, trim_start_matching,
};

verus! {

/// Audio container formats of the library.
#[derive(Debug, Clone, Copy, PartialEq, Eq, Structural)]
pub enum AudioFormat {
    Mp3,
    Flac,
    Wav,
    M4a,
    Aac,
    Ogg,
}

/// Unicode lower case of a string (`str::to_lowercase`).
pub uninterp spec fn unicode_lowercase(s: Seq<char>) -> Seq<char>;

/// Whether every character of `s` is ASCII.
pub open spec fn all_ascii(s: Seq<char>) -> bool {
    forall|i: int| 0 <= i < s.len() ==> (#[trigger] s[i] as u32) < 128
}

/// `str::to_lowercase`: the Unicode lower case of `s`, which for ASCII text
/// is its ASCII lower case.
#[verifier::external_body]
pub(crate) fn str_to_lowercase(s: &str) -> (r: String)
    ensures
        r@ == unicode_lowercase(s@),
        all_ascii(s@) ==> r@ == ascii_lower(s@),
{
    s.to_lowercase()
}

/// The Unicode lower case of a text, as characters.
pub fn lowercase_text(s: &str) -> (r: Vec<char>)
    ensures
        r@ == unicode_lowercase(s@),
        all_ascii(s@) ==> r@ == ascii_lower(s@),
{
    let lower = str_to_lowercase(s);
    chars_of(lower.as_str())
}

/// The format a lower-case extension names.
pub open spec fn format_named(e: Seq<char>) -> Option<AudioFormat> {
    if e == "mp3"@ {
        Some(AudioFormat::Mp3)
    } else if e == "flac"@ {
        Some(AudioFormat::Flac)
    } else if e == "wav"@ {
        Some(AudioFormat::Wav)
    } else if e == "m4a"@ {
        Some(AudioFormat::M4a)
    } else if e == "aac"@ {
        Some(AudioFormat::Aac)
    } else if e == "ogg"@ {
        Some(AudioFormat::Ogg)
    } else {
        None
    }
}

/// Whether a lower-case extension is one the scanner treats as audio.
pub open spec fn supported_name(e: Seq<char>) -> bool {
    e == "mp3"@ || e == "flac"@ || e == "wav"@ || e == "m4a"@ || e == "aac"@ || e == "ogg"@ || e
        == "oga"@ || e == "mp4"@ || e == "webm"@
}

/// The file extension a format is saved with.
pub open spec fn format_extension(f: AudioFormat) -> Seq<char> {
    match f {
        AudioFormat::Mp3 => "mp3"@,
        AudioFormat::Flac => "flac"@,
        AudioFormat::Wav => "wav"@,
        AudioFormat::M4a => "m4a"@,
        AudioFormat::Aac => "aac"@,
        AudioFormat::Ogg => "ogg"@,
    }
}

fn format_of_lower(e: &[char]) -> (r: Option<AudioFormat>)
    ensures
        r == format_named(e@),
{
    if eq_str(e, "mp3") {
        Some(AudioFormat::Mp3)
    } else if eq_str(e, "flac") {
        Some(AudioFormat::Flac)
    } else if eq_str(e, "wav") {
        Some(AudioFormat::Wav)
    } else if eq_str(e, "m4a") {
        Some(AudioFormat::M4a)
    } else if eq_str(e, "aac") {
        Some(AudioFormat::Aac)
    } else if eq_str(e, "ogg") {
        Some(AudioFormat::Ogg)
    } else {
        None
    }
}

fn supported_lower(e: &[char]) -> (r: bool)
    ensures
        r == supported_name(e@),
{
    eq_str(e, "mp3") || eq_str(e, "flac") || eq_str(e, "wav") || eq_str(e, "m4a") || eq_str(
        e,
        "aac",
    ) || eq_str(e, "ogg") || eq_str(e, "oga") || eq_str(e, "mp4") || eq_str(e, "webm")
}

/// Unicode lower case of a run of characters.
fn lowercase_chars(v: &[char]) -> (r: Vec<char>)
    ensures
        r@ == unicode_lowercase(v@),
        all_ascii(v@) ==> r@ == ascii_lower(v@),
{
    let s = string_of(v);
    let lower = str_to_lowercase(s.as_str());
    chars_of(lower.as_str())
}

impl AudioFormat {
    /// The file extension this format is saved with.
    pub fn extension(&self) -> (r: &'static str)
        ensures
            r@ == format_extension(*self),
    {
        match self {
            AudioFormat::Mp3 => "mp3",
            AudioFormat::Flac => "flac",
            AudioFormat::Wav => "wav",
            AudioFormat::M4a => "m4a",
            AudioFormat::Aac => "aac",
            AudioFormat::Ogg => "ogg",
        }
    }

    /// The format a file extension names, in any letter case.
    pub fn from_extension(ext: &str) -> (r: Option<AudioFormat>)
        ensures
            r == format_named(unicode_lowercase(ext@)),
            all_ascii(ext@) ==> r == format_named(ascii_lower(ext@)),
    {
        let lower = str_to_lowercase(ext);
        let chars = chars_of(lower.as_str());
        format_of_lower(&chars)
    }
}

/// Whether an extension, with or without leading dots and in any letter
/// case, is a supported audio format.
pub fn is_supported_audio_extension(ext: &str) -> (r: bool)
    ensures
        r == supported_name(unicode_lowercase(trim_start_char(ext@, '.'))),
        all_ascii(ext@) ==> r == supported_name(ascii_lower(trim_start_char(ext@, '.'))),
{
    let chars = chars_of(ext);
    let trimmed = trim_start_matching(&chars, '.');
    proof {
        lemma_trim_start_char(ext@, '.');
    }
    let lower = lowercase_chars(&trimmed);
    supported_lower(&lower)
}

/// Whether a path names a supported audio file, judged by its extension in
/// any letter case.
pub fn is_audio_file(path: &str) -> (r: bool)
    ensures
        r == match path_extension(path@) {
            Some(e) => supported_name(unicode_lowercase(trim_start_char(e, '.'))),
            None => false,
        },
        path_extension(path@) matches Some(e) ==> (all_ascii(e) ==> r == supported_name(
            ascii_lower(trim_start_char(e, '.')),
        )),
{
    let chars = chars_of(path);
    match extension_of_path(&chars) {
        Some(ext) => {
            let trimmed = trim_start_matching(&ext, '.');
            proof {
                lemma_trim_start_char(ext@, '.');
            }
            let lower = lowercase_chars(&trimmed);
            supported_lower(&lower)
        },
        None => false,
    }
}

/// The audio format a path's extension names, in any letter case.
pub fn detect_format(path: &str) -> (r: Option<AudioFormat>)
    ensures
        r == match path_extension(path@) {
            Some(e) => format_named(unicode_lowercase(e)),
            None => None,
        },
        path_extension(path@) matches Some(e) ==> (all_ascii(e) ==> r == format_named(ascii_lower(e))),
{
    let chars = chars_of(path);
    match extension_of_path(&chars) {
        Some(ext) => {
            let lower = lowercase_chars(&ext);
            format_of_lower(&lower)
        },
        None => None,
    }
}

/// The format a tag reader records for a file: the one its extension
/// names, MP3 when the extension names none.
pub fn format_of_file(path: &str) -> (r: AudioFormat)
    ensures
        r == match path_extension(path@) {
            Some(e) => match format_named(unicode_lowercase(e)) {
                Some(f) => f,
                None => AudioFormat::Mp3,
            },
            None => AudioFormat::Mp3,
        },
        path_extension(path@) matches Some(e) ==> (all_ascii(e) ==> r == match format_named(
            ascii_lower(e),
        ) {
            Some(f) => f,
            None => AudioFormat::Mp3,
        }),
{
    match detect_format(path) {
        Some(f) => f,
        None => AudioFormat::Mp3,
    }
}

/// The format a stored format name means; anything unknown reads as MP3.
pub fn parse_format(s: &str) -> (r: AudioFormat)
    ensures
        r == match format_named(unicode_lowercase(s@)) {
            Some(f) => f,
            None => AudioFormat::Mp3,
        },
        all_ascii(s@) ==> r == match format_named(ascii_lower(s@)) {
            Some(f) => f,
            None => AudioFormat::Mp3,
        },
{
    match AudioFormat::from_extension(s) {
        Some(f) => f,
        None => AudioFormat::Mp3,
    }
}

/// MIME type published for a download extension (ASCII case-insensitive);
/// unknown extensions are published as MPEG audio.
pub open spec fn mime_for(e: Seq<char>) -> Seq<char> {
    if e == "mp3"@ {
        "audio/mpeg"@
    } else if e == "m4a"@ {
        "audio/mp4"@
    } else if e == "aac"@ {
        "audio/aac"@
    } else if e == "flac"@ {
        "audio/flac"@
    } else if e == "ogg"@ || e == "oga"@ {
        "audio/ogg"@
    } else if e == "opus"@ {
        "audio/opus"@
    } else if e == "wav"@ {
        "audio/wav"@
    } else if e == "webm"@ {
        "audio/webm"@
    } else if e == "mp4"@ {
        "video/mp4"@
    } else if e == "mov"@ {
        "video/quicktime"@
    } else {
        "audio/mpeg"@
    }
}

/// MIME for a download ext, for MediaStore display.
pub fn mime_for_ext(ext: &str) -> (r: &'static str)
    ensures
        r@ == mime_for(ascii_lower(ext@)),
{
    let chars = chars_of(ext);
    let e = lower_ascii(&chars);
    if eq_str(&e, "mp3") {
        "audio/mpeg"
    } else if eq_str(&e, "m4a") {
        "audio/mp4"
    } else if eq_str(&e, "aac") {
        "audio/aac"
    } else if eq_str(&e, "flac") {
        "audio/flac"
    } else if eq_str(&e, "ogg") || eq_str(&e, "oga") {
        "audio/ogg"
    } else if eq_str(&e, "opus") {
        "audio/opus"
    } else if eq_str(&e, "wav") {
        "audio/wav"
    } else if eq_str(&e, "webm") {
        "audio/webm"
    } else if eq_str(&e, "mp4") {
        "video/mp4"
    } else if eq_str(&e, "mov") {
        "video/quicktime"
    } else {
        "audio/mpeg"
    }
}

/// The library scan and the downloader take a file as audio by exactly
/// these nine extensions (lower case, without the dot): `mp3`, `flac`,
/// `wav`, `m4a`, `aac`, `ogg`, `oga`, `mp4` and `webm`; `opus` and `mov`,
/// for instance, are not among them.
pub proof fn law_supported_extensions(e: Seq<char>)
    ensures
        supported_name(e) <==> (e == "mp3"@ || e == "flac"@ || e == "wav"@ || e == "m4a"@ || e
            == "aac"@ || e == "ogg"@ || e == "oga"@ || e == "mp4"@ || e == "webm"@),
        supported_name("mp4"@),
        supported_name("webm"@),
        supported_name("aac"@),
        supported_name("oga"@),
        !supported_name("opus"@),
        !supported_name("mov"@),
        !supported_name(Seq::<char>::empty()),
{
    reveal_strlit("mp3");
    reveal_strlit("flac");
    reveal_strlit("wav");
    reveal_strlit("m4a");
    reveal_strlit("aac");
    reveal_strlit("ogg");
    reveal_strlit("oga");
    reveal_strlit("mp4");
    reveal_strlit("webm");
    reveal_strlit("opus");
    reveal_strlit("mov");
    assert("mp3"@.len() == 3 && "mp3"@[0] == 'm' && "mp3"@[1] == 'p' && "mp3"@[2] == '3');
    assert("flac"@.len() == 4 && "flac"@[0] == 'f' && "flac"@[1] == 'l' && "flac"@[2] == 'a');
    assert("wav"@.len() == 3 && "wav"@[0] == 'w' && "wav"@[1] == 'a' && "wav"@[2] == 'v');
    assert("m4a"@.len() == 3 && "m4a"@[0] == 'm' && "m4a"@[1] == '4' && "m4a"@[2] == 'a');
    assert("aac"@.len() == 3 && "aac"@[0] == 'a' && "aac"@[1] == 'a' && "aac"@[2] == 'c');
    assert("ogg"@.len() == 3 && "ogg"@[0] == 'o' && "ogg"@[1] == 'g' && "ogg"@[2] == 'g');
    assert("oga"@.len() == 3 && "oga"@[0] == 'o' && "oga"@[1] == 'g' && "oga"@[2] == 'a');
    assert("mp4"@.len() == 3 && "mp4"@[0] == 'm' && "mp4"@[1] == 'p' && "mp4"@[2] == '4');
    assert("webm"@.len() == 4 && "webm"@[0] == 'w' && "webm"@[1] == 'e' && "webm"@[2] == 'b');
    assert("opus"@.len() == 4 && "opus"@[0] == 'o' && "opus"@[1] == 'p' && "opus"@[2] == 'u');
    assert("mov"@.len() == 3 && "mov"@[0] == 'm' && "mov"@[1] == 'o' && "mov"@[2] == 'v');
}

/// Each extension a download is published with gets its own MIME type:
/// `aac`, `flac`, `ogg`, `opus`, `wav` and `webm` are `audio/` followed by
/// the extension itself; `mp3` is `audio/mpeg`, `m4a` is `audio/mp4`, `oga`
/// is `audio/ogg`, `mp4` is `video/mp4` and `mov` is `video/quicktime`;
/// anything else is published as `audio/mpeg`.
pub proof fn law_mime_types(e: Seq<char>)
    ensures
        (e == "aac"@ || e == "flac"@ || e == "ogg"@ || e == "opus"@ || e == "wav"@ || e
            == "webm"@) ==> mime_for(e) == "audio/"@ + e,
        e == "mp3"@ ==> mime_for(e) == "audio/mpeg"@,
        e == "m4a"@ ==> mime_for(e) == "audio/mp4"@,
        e == "oga"@ ==> mime_for(e) == "audio/ogg"@,
        e == "mp4"@ ==> mime_for(e) == "video/mp4"@,
        e == "mov"@ ==> mime_for(e) == "video/quicktime"@,
        !(e == "mp3"@ || e == "m4a"@ || e == "aac"@ || e == "flac"@ || e == "ogg"@ || e == "oga"@
            || e == "opus"@ || e == "wav"@ || e == "webm"@ || e == "mp4"@ || e == "mov"@)
            ==> mime_for(e) == "audio/mpeg"@,
{
    reveal_strlit("mp3");
    reveal_strlit("m4a");
    reveal_strlit("aac");
    reveal_strlit("flac");
    reveal_strlit("ogg");
    reveal_strlit("oga");
    reveal_strlit("opus");
    reveal_strlit("wav");
    reveal_strlit("webm");
    reveal_strlit("mp4");
    reveal_strlit("mov");
    reveal_strlit("audio/mpeg");
    reveal_strlit("audio/mp4");
    reveal_strlit("audio/aac");
    reveal_strlit("audio/flac");
    reveal_strlit("audio/ogg");
    reveal_strlit("audio/opus");
    reveal_strlit("audio/wav");
    reveal_strlit("audio/webm");
    reveal_strlit("video/mp4");
    reveal_strlit("video/quicktime");
    reveal_strlit("audio/");
    assert("mp3"@.len() == 3 && "mp3"@[0] == 'm' && "mp3"@[1] == 'p' && "mp3"@[2] == '3');
    assert("flac"@.len() == 4 && "flac"@[0] == 'f' && "flac"@[1] == 'l' && "flac"@[2] == 'a');
    assert("wav"@.len() == 3 && "wav"@[0] == 'w' && "wav"@[1] == 'a' && "wav"@[2] == 'v');
    assert("m4a"@.len() == 3 && "m4a"@[0] == 'm' && "m4a"@[1] == '4' && "m4a"@[2] == 'a');
    assert("aac"@.len() == 3 && "aac"@[0] == 'a' && "aac"@[1] == 'a' && "aac"@[2] == 'c');
    assert("ogg"@.len() == 3 && "ogg"@[0] == 'o' && "ogg"@[1] == 'g' && "ogg"@[2] == 'g');
    assert("oga"@.len() == 3 && "oga"@[0] == 'o' && "oga"@[1] == 'g' && "oga"@[2] == 'a');
    assert("mp4"@.len() == 3 && "mp4"@[0] == 'm' && "mp4"@[1] == 'p' && "mp4"@[2] == '4');
    assert("webm"@.len() == 4 && "webm"@[0] == 'w' && "webm"@[1] == 'e' && "webm"@[2] == 'b');
    assert("opus"@.len() == 4 && "opus"@[0] == 'o' && "opus"@[1] == 'p' && "opus"@[2] == 'u');
    assert("mov"@.len() == 3 && "mov"@[0] == 'm' && "mov"@[1] == 'o' && "mov"@[2] == 'v');
    if e == "aac"@ {
        assert("audio/"@ + e =~= "audio/aac"@);
    } else if e == "flac"@ {
        assert("audio/"@ + e =~= "audio/flac"@);
    } else if e == "ogg"@ {
        assert("audio/"@ + e =~= "audio/ogg"@);
    } else if e == "opus"@ {
        assert("audio/"@ + e =~= "audio/opus"@);
    } else if e == "wav"@ {
        assert("audio/"@ + e =~= "audio/wav"@);
    } else if e == "webm"@ {
        assert("audio/"@ + e =~= "audio/webm"@);
    }
}

/// An extension names a format exactly when that format is saved under
/// that very extension: reading the name of a format's extension gives the
/// format back, and a named format's extension is the name read. Every
/// extension that names a format is also one the scanner takes as audio.
pub proof fn law_format_names_round_trip(f: AudioFormat, e: Seq<char>)
    ensures
        format_named(format_extension(f)) == Some(f),
        format_named(e) matches Some(g) ==> format_extension(g) == e,
        format_named(e) is Some ==> supported_name(e),
{
    reveal_strlit("mp3");
    reveal_strlit("flac");
    reveal_strlit("wav");
    reveal_strlit("m4a");
    reveal_strlit("aac");
    reveal_strlit("ogg");
    reveal_strlit("oga");
    reveal_strlit("mp4");
    reveal_strlit("webm");
    assert("mp3"@.len() == 3 && "mp3"@[0] == 'm' && "mp3"@[1] == 'p' && "mp3"@[2] == '3');
    assert("flac"@.len() == 4 && "flac"@[0] == 'f' && "flac"@[1] == 'l' && "flac"@[2] == 'a');
    assert("wav"@.len() == 3 && "wav"@[0] == 'w' && "wav"@[1] == 'a' && "wav"@[2] == 'v');
    assert("m4a"@.len() == 3 && "m4a"@[0] == 'm' && "m4a"@[1] == '4' && "m4a"@[2] == 'a');
    assert("aac"@.len() == 3 && "aac"@[0] == 'a' && "aac"@[1] == 'a' && "aac"@[2] == 'c');
    assert("ogg"@.len() == 3 && "ogg"@[0] == 'o' && "ogg"@[1] == 'g' && "ogg"@[2] == 'g');
    assert("oga"@.len() == 3 && "oga"@[0] == 'o' && "oga"@[1] == 'g' && "oga"@[2] == 'a');
    assert("mp4"@.len() == 3 && "mp4"@[0] == 'm' && "mp4"@[1] == 'p' && "mp4"@[2] == '4');
    assert("webm"@.len() == 4 && "webm"@[0] == 'w' && "webm"@[1] == 'e' && "webm"@[2] == 'b');
}

} // verus!
