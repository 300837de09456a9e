//! Rows of the system-wide `MediaStore` audio table, as the Android library
//! scan takes them: which rows it looks at, which format a row is, and the
//! record a row gives when the file's own tags cannot be read.
use vstd::prelude::*;
use crate::formats::{detect_format, format_named, unicode_lowercase, AudioFormat};
use crate::paths::{file_name_of, path_extension, path_file_name};
use crate::scanner::MediaStoreRawTrack;
use crate::text::{
    ascii_lower, chars_of, contains_text, eq_str, lower_ascii, occurs, string_of, trim, trim_ws,
};
use crate::walk::{path_starts_with, starts_with_path};

verus! {

/// A path in a music or download folder (ASCII letter case ignored).
pub open spec fn in_media_folder(path: Seq<char>) -> bool {
    let p = ascii_lower(path);
    occurs(p, "/music/"@) || occurs(p, "/download/"@) || occurs(p, "/downloads/"@)
}

/// A row the library scan takes: outside every sandboxed directory (those
/// are scanned on their own) and in a music or download folder.
pub open spec fn row_wanted(path: Seq<char>, sandboxed: Seq<Seq<char>>) -> bool {
    &&& forall|i: int| 0 <= i < sandboxed.len() ==> !path_starts_with(path, #[trigger] sandboxed[i])
    &&& in_media_folder(path)
}

/// Whether the scan takes the row at `path`.
pub fn wants_row(path: &str, sandboxed: &Vec<String>) -> (r: bool)
    ensures
        r == row_wanted(path@, sandboxed@.map_values(|s: String| s@)),
{
    let ghost dirs = sandboxed@.map_values(|s: String| s@);
    let mut i: usize = 0;
    while i < sandboxed.len()
        invariant
            i <= sandboxed@.len(),
            dirs == sandboxed@.map_values(|s: String| s@),
            forall|j: int| 0 <= j < i ==> !path_starts_with(path@, #[trigger] dirs[j]),
        decreases sandboxed@.len() - i,
    {
        assert(dirs[i as int] == sandboxed@[i as int]@);
        if starts_with_path(path, sandboxed[i].as_str()) {
            return false;
        }
        i = i + 1;
    }
    let lower = lower_ascii(&chars_of(path));
    contains_text(&lower, &chars_of("/music/")) || contains_text(&lower, &chars_of("/download/"))
        || contains_text(&lower, &chars_of("/downloads/"))
}

/// The format a MIME type names.
pub open spec fn mime_format(mime: Seq<char>) -> Option<AudioFormat> {
    if mime == "audio/mpeg"@ {
        Some(AudioFormat::Mp3)
    } else if mime == "audio/mp4"@ || mime == "audio/aac"@ {
        Some(AudioFormat::M4a)
    } else if mime == "audio/flac"@ {
        Some(AudioFormat::Flac)
    } else if mime == "audio/ogg"@ || mime == "audio/opus"@ {
        Some(AudioFormat::Ogg)
    } else if mime == "audio/wav"@ {
        Some(AudioFormat::Wav)
    } else {
        None
    }
}

fn format_of_mime(mime: &str) -> (r: Option<AudioFormat>)
    ensures
        r == mime_format(mime@),
{
    let m = chars_of(mime);
    if eq_str(&m, "audio/mpeg") {
        Some(AudioFormat::Mp3)
    } else if eq_str(&m, "audio/mp4") || eq_str(&m, "audio/aac") {
        Some(AudioFormat::M4a)
    } else if eq_str(&m, "audio/flac") {
        Some(AudioFormat::Flac)
    } else if eq_str(&m, "audio/ogg") || eq_str(&m, "audio/opus") {
        Some(AudioFormat::Ogg)
    } else if eq_str(&m, "audio/wav") {
        Some(AudioFormat::Wav)
    } else {
        None
    }
}

/// The format of a row: from its file extension, else from its MIME type,
/// else MP3.
pub open spec fn row_format_spec(path: Seq<char>, mime: Option<Seq<char>>) -> AudioFormat {
    let by_ext = match path_extension(path) {
        Some(e) => format_named(unicode_lowercase(e)),
        None => None,
    };
    match by_ext {
        Some(f) => f,
        None => match mime {
            Some(m) => match mime_format(m) {
                Some(f) => f,
                None => AudioFormat::Mp3,
            },
            None => AudioFormat::Mp3,
        },
    }
}

/// The format of the row at `path` with MIME type `mime`.
pub fn row_format(path: &str, mime: Option<&str>) -> (r: AudioFormat)
    ensures
        r == row_format_spec(
            path@,
            match mime {
                Some(m) => Some(m@),
                None => None,
            },
        ),
{
    match detect_format(path) {
        Some(f) => f,
        None => match mime {
            Some(m) => match format_of_mime(m) {
                Some(f) => f,
                None => AudioFormat::Mp3,
            },
            None => AudioFormat::Mp3,
        },
    }
}

/// What a row gives the library when the file's tags cannot be read.
#[derive(Debug, Clone)]
pub struct RowRecord {
    pub title: String,
    pub duration_secs: u32,
    pub artist: Option<String>,
    pub album: Option<String>,
    pub art_uri: Option<String>,
}

/// An artist or album as a row states it: kept unless blank or the
/// placeholder `<unknown>`.
pub open spec fn kept_credit(v: Option<Seq<char>>) -> Option<Seq<char>> {
    match v {
        Some(s) => if trim_ws(s).len() > 0 && s != "<unknown>"@ {
            Some(s)
        } else {
            None
        },
        None => None,
    }
}

/// An artwork URI, kept unless blank.
pub open spec fn kept_uri(v: Option<Seq<char>>) -> Option<Seq<char>> {
    match v {
        Some(s) => if trim_ws(s).len() > 0 {
            Some(s)
        } else {
            None
        },
        None => None,
    }
}

/// A row's title: its own when not blank, else the file name of its path,
/// else `Unknown`.
pub open spec fn row_title(title: Seq<char>, path: Seq<char>) -> Seq<char> {
    if trim_ws(title).len() > 0 {
        title
    } else {
        match path_file_name(path) {
            Some(n) => n,
            None => "Unknown"@,
        }
    }
}

/// A row's duration in whole seconds, cut to 32 bits as the library
/// stores it.
pub open spec fn row_seconds(duration_ms: u64) -> u32 {
    ((duration_ms / 1000) % 0x1_0000_0000) as u32
}

/// The view of an optional text.
pub open spec fn opt_view(v: Option<String>) -> Option<Seq<char>> {
    match v {
        Some(s) => Some(s@),
        None => None,
    }
}

fn keep_credit(v: &Option<String>) -> (r: Option<String>)
    ensures
        opt_view(r) == kept_credit(opt_view(*v)),
{
    match v {
        Some(s) => {
            let c = chars_of(s.as_str());
            if trim(&c).len() > 0 && !eq_str(&c, "<unknown>") {
                Some(string_of(&c))
            } else {
                None
            }
        },
        None => None,
    }
}

fn keep_uri(v: &Option<String>) -> (r: Option<String>)
    ensures
        opt_view(r) == kept_uri(opt_view(*v)),
{
    match v {
        Some(s) => {
            let c = chars_of(s.as_str());
            if trim(&c).len() > 0 {
                Some(string_of(&c))
            } else {
                None
            }
        },
        None => None,
    }
}

/// The record a row gives when the file's tags cannot be read, or `None`
/// when the row states no duration (the file is skipped as unplayable).
pub fn row_record(raw: &MediaStoreRawTrack) -> (r: Option<RowRecord>)
    ensures
        row_seconds(raw.duration_ms) == 0 <==> r is None,
        r matches Some(rec) ==> {
            &&& rec.duration_secs == row_seconds(raw.duration_ms)
            &&& rec.title@ == row_title(raw.title@, raw.path@)
            &&& opt_view(rec.artist) == kept_credit(opt_view(raw.artist))
            &&& opt_view(rec.album) == kept_credit(opt_view(raw.album))
            &&& opt_view(rec.art_uri) == kept_uri(opt_view(raw.art_uri))
        },
{
    let secs = raw.duration_ms / 1000;
    let duration_secs: u32 = (secs % 0x1_0000_0000) as u32;
    if duration_secs == 0 {
        return None;
    }
    let t = chars_of(raw.title.as_str());
    let title = if trim(&t).len() > 0 {
        string_of(&t)
    } else {
        match file_name_of(&chars_of(raw.path.as_str())) {
            Some(n) => string_of(&n),
            None => string_of(&chars_of("Unknown")),
        }
    };
    Some(
        RowRecord {
            title,
            duration_secs,
            artist: keep_credit(&raw.artist),
            album: keep_credit(&raw.album),
            art_uri: keep_uri(&raw.art_uri),
        },
    )
}

} // verus!
