//! Library scanners: which files they take for music, and the shapes of the
//! records they exchange with the platform.
use vstd::prelude::*;
use crate::formats::{
    all_ascii, detect_format, format_named, is_audio_file, supported_name, unicode_lowercase,
    AudioFormat,
};
use crate::paths::path_extension;
use crate::exclude::{excluded, is_excluded};
use crate::text::{ascii_lower, texts, trim_start_char};

verus! {

/// Whether the scanners take the file at `path` for music.
pub open spec fn audio_path(path: Seq<char>) -> bool {
    match path_extension(path) {
        Some(e) => supported_name(unicode_lowercase(trim_start_char(e, '.'))),
        None => false,
    }
}

/// The format the scanners record for the file at `path`.
pub open spec fn path_format(path: Seq<char>) -> Option<AudioFormat> {
    match path_extension(path) {
        Some(e) => format_named(unicode_lowercase(e)),
        None => None,
    }
}

/// Scanner errors.
#[derive(Debug)]
pub enum ScannerError {
    IoError(String),
    GlobError(String),
    MetadataError(String),
    RepositoryError(String),
}

/// Desktop scanner for POSIX/Win32 local filesystems.
pub struct DesktopScanner {
    include_patterns: Vec<String>,
    exclude_patterns: Vec<String>,
}

impl DesktopScanner {
    /// The include patterns, as text.
    pub closed spec fn includes(&self) -> Seq<Seq<char>> {
        texts(self.include_patterns@)
    }

    /// The exclude patterns, as text.
    pub closed spec fn excludes(&self) -> Seq<Seq<char>> {
        texts(self.exclude_patterns@)
    }

    /// Create a new desktop directory scanner.
    pub fn new(include_patterns: Vec<String>, exclude_patterns: Vec<String>) -> (r: Self)
        ensures
            r.includes() == texts(include_patterns@),
            r.excludes() == texts(exclude_patterns@),
    {
        DesktopScanner { include_patterns, exclude_patterns }
    }

    /// Create a scanner with the default audio file patterns, which skips
    /// hidden files and directories.
    pub fn default_audio() -> (r: Self)
        ensures
            r.includes() == seq![
                "**/*.mp3"@,
                "**/*.flac"@,
                "**/*.wav"@,
                "**/*.aac"@,
                "**/*.ogg"@,
                "**/*.m4a"@,
            ],
            r.excludes() == seq![".*"@, ".*/"@],
    {
        let wanted = vec![
            "**/*.mp3".to_owned(),
            "**/*.flac".to_owned(),
            "**/*.wav".to_owned(),
            "**/*.aac".to_owned(),
            "**/*.ogg".to_owned(),
            "**/*.m4a".to_owned(),
        ];
        let skipped = vec![".*".to_owned(), ".*/".to_owned()];
        let r = Self::new(wanted, skipped);
        assert(r.includes() =~= seq![
            "**/*.mp3"@,
            "**/*.flac"@,
            "**/*.wav"@,
            "**/*.aac"@,
            "**/*.ogg"@,
            "**/*.m4a"@,
        ]);
        assert(r.excludes() =~= seq![".*"@, ".*/"@]);
        r
    }

    /// The include patterns.
    pub fn include_patterns(&self) -> (r: &Vec<String>)
        ensures
            texts(r@) == self.includes(),
    {
        &self.include_patterns
    }

    /// The exclude patterns.
    pub fn exclude_patterns(&self) -> (r: &Vec<String>)
        ensures
            texts(r@) == self.excludes(),
    {
        &self.exclude_patterns
    }

    /// Check if a path is a supported audio file (case-insensitive).
    pub fn is_audio_file(path: &str) -> (r: bool)
        ensures
            r == audio_path(path@),
            path_extension(path@) matches Some(e) ==> (all_ascii(e) ==> r == supported_name(
                ascii_lower(trim_start_char(e, '.')),
            )),
    {
        is_audio_file(path)
    }

    /// Detect format from path extension.
    pub fn detect_format(path: &str) -> (r: Option<AudioFormat>)
        ensures
            r == path_format(path@),
            path_extension(path@) matches Some(e) ==> (all_ascii(e) ==> r == format_named(
                ascii_lower(e),
            )),
    {
        detect_format(path)
    }

    /// Whether one of the exclusion patterns excludes `path`.
    pub fn is_excluded(&self, path: &str) -> (r: bool)
        ensures
            r == excluded(self.excludes(), path@),
    {
        is_excluded(&self.exclude_patterns, path)
    }

    /// Whether a file found by a walk is collected: an audio file that no
    /// exclusion pattern excludes.
    pub fn wants_file(&self, path: &str) -> (r: bool)
        ensures
            r == (audio_path(path@) && !excluded(self.excludes(), path@)),
    {
        is_audio_file(path) && !self.is_excluded(path)
    }
}

/// Android storage scanner and SAF ingestion engine.
#[derive(Debug, Clone, Copy, PartialEq, Eq, Structural)]
pub struct AndroidScanner;

impl AndroidScanner {
    /// Create a new Android storage scanner.
    pub fn new() -> (r: Self)
        ensures
            r == AndroidScanner,
    {
        AndroidScanner
    }

    /// Check if a path is a supported audio file (case-insensitive).
    pub fn is_audio_file(path: &str) -> (r: bool)
        ensures
            r == audio_path(path@),
            path_extension(path@) matches Some(e) ==> (all_ascii(e) ==> r == supported_name(
                ascii_lower(trim_start_char(e, '.')),
            )),
    {
        is_audio_file(path)
    }

    /// Detect audio format from file path extension.
    pub fn detect_format(path: &str) -> (r: Option<AudioFormat>)
        ensures
            r == path_format(path@),
            path_extension(path@) matches Some(e) ==> (all_ascii(e) ==> r == format_named(
                ascii_lower(e),
            )),
    {
        detect_format(path)
    }
}

impl Default for AndroidScanner {
    fn default() -> (r: Self)
        ensures
            r == AndroidScanner,
    {
        AndroidScanner::new()
    }
}

/// Raw track representation returned by a MediaStore query.
#[derive(Debug, Clone)]
pub struct MediaStoreRawTrack {
    pub id: i64,
    pub path: String,
    pub title: String,
    pub artist: Option<String>,
    pub album: Option<String>,
    pub duration_ms: u64,
    pub track_number: Option<u32>,
    pub year: Option<i32>,
    pub size: u64,
    pub mime_type: Option<String>,
    pub art_uri: Option<String>,
}

} // verus!
