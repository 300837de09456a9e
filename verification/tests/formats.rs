use auralis::formats::{
    detect_format, format_of_file, is_audio_file, is_supported_audio_extension, mime_for_ext,
    parse_format, AudioFormat,
};
use auralis::scanner::{AndroidScanner, DesktopScanner};

#[test]
fn test_case_insensitive_format_detection() {
    let test_cases = vec![
        ("song.mp3", Some(AudioFormat::Mp3)),
        ("song.MP3", Some(AudioFormat::Mp3)),
        ("song.Mp3", Some(AudioFormat::Mp3)),
        ("track.flac", Some(AudioFormat::Flac)),
        ("track.FLAC", Some(AudioFormat::Flac)),
        ("audio.wav", Some(AudioFormat::Wav)),
        ("audio.WAV", Some(AudioFormat::Wav)),
        ("media.m4a", Some(AudioFormat::M4a)),
        ("media.M4A", Some(AudioFormat::M4a)),
        ("sound.aac", Some(AudioFormat::Aac)),
        ("sound.AAC", Some(AudioFormat::Aac)),
        ("music.ogg", Some(AudioFormat::Ogg)),
        ("music.OGG", Some(AudioFormat::Ogg)),
        ("readme.txt", None),
        ("image.png", None),
        ("file_without_ext", None),
    ];

    for (filename, expected) in test_cases {
        assert_eq!(
            detect_format(filename),
            expected,
            "Failed format detection for {}",
            filename
        );
        assert_eq!(
            is_audio_file(filename),
            expected.is_some(),
            "Failed audio file check for {}",
            filename
        );
    }
}

#[test]
fn test_is_supported_audio_extension() {
    assert!(is_supported_audio_extension("mp3"));
    assert!(is_supported_audio_extension("MP3"));
    assert!(is_supported_audio_extension(".FLAC"));
    assert!(is_supported_audio_extension("Wav"));
    assert!(is_supported_audio_extension("M4A"));
    assert!(is_supported_audio_extension("aac"));
    assert!(is_supported_audio_extension("ogg"));
    assert!(!is_supported_audio_extension("txt"));
    assert!(!is_supported_audio_extension("exe"));
}

#[test]
fn mime_for_ext_covers_the_formats_we_publish() {
    assert_eq!(mime_for_ext("mp3"), "audio/mpeg");
    assert_eq!(mime_for_ext("M4A"), "audio/mp4");
    assert_eq!(mime_for_ext("opus"), "audio/opus");
    assert_eq!(mime_for_ext("unknown"), "audio/mpeg");
}

#[test]
fn parse_format_round_trips_known_formats() {
    assert_eq!(parse_format("mp3"), AudioFormat::Mp3);
    assert_eq!(parse_format("FLAC"), AudioFormat::Flac);
    assert_eq!(parse_format("wav"), AudioFormat::Wav);
    // Unknown formats fall back to MP3 rather than erroring.
    assert_eq!(parse_format("bogus"), AudioFormat::Mp3);
}

#[test]
fn extensions_round_trip_through_formats() {
    for f in [
        AudioFormat::Mp3,
        AudioFormat::Flac,
        AudioFormat::Wav,
        AudioFormat::M4a,
        AudioFormat::Aac,
        AudioFormat::Ogg,
    ] {
        assert_eq!(AudioFormat::from_extension(f.extension()), Some(f));
        assert_eq!(parse_format(&f.extension().to_uppercase()), f);
    }
    assert_eq!(AudioFormat::from_extension("opus"), None);
}

#[test]
fn scanners_accept_the_wider_extension_set() {
    // `oga`, `mp4` and `webm` are scanned although they name no format.
    assert!(DesktopScanner::is_audio_file("/music/a.WEBM"));
    assert!(AndroidScanner::is_audio_file("/music/b.oga"));
    assert!(!DesktopScanner::is_audio_file("/music/.mp3"));
    assert_eq!(DesktopScanner::detect_format("/music/a.webm"), None);
    assert_eq!(AndroidScanner::detect_format("/x/y/z.Flac"), Some(AudioFormat::Flac));
    assert!(is_audio_file("dir.mp3/track.ogg"));
    assert!(is_audio_file("dir.mp3/"));
}

#[test]
fn tag_reader_format_defaults_to_mp3() {
    assert_eq!(format_of_file("/a/b/song.M4A"), AudioFormat::M4a);
    assert_eq!(format_of_file("/a/b/song.opus"), AudioFormat::Mp3);
    assert_eq!(format_of_file("/a/b/noext"), AudioFormat::Mp3);
}

#[test]
fn mime_for_every_published_extension() {
    assert_eq!(mime_for_ext("flac"), "audio/flac");
    assert_eq!(mime_for_ext("wav"), "audio/wav");
    assert_eq!(mime_for_ext("OGG"), "audio/ogg");
}
