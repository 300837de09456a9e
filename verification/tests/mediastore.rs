use auralis::formats::AudioFormat;
use auralis::mediastore::{row_format, row_record, wants_row};
use auralis::scanner::MediaStoreRawTrack;

fn row(path: &str, title: &str, duration_ms: u64) -> MediaStoreRawTrack {
    MediaStoreRawTrack {
        id: 1,
        path: path.to_string(),
        title: title.to_string(),
        artist: Some("<unknown>".to_string()),
        album: Some("Album".to_string()),
        duration_ms,
        track_number: Some(3),
        year: Some(2020),
        size: 4096,
        mime_type: Some("audio/mpeg".to_string()),
        art_uri: Some(" ".to_string()),
    }
}

#[test]
fn only_music_and_download_folders_outside_the_sandbox_are_scanned() {
    let sandboxed = vec!["/data/user/0/app/files/music".to_string()];
    assert!(wants_row("/storage/emulated/0/Music/a.mp3", &sandboxed));
    assert!(wants_row("/storage/emulated/0/Download/a.mp3", &sandboxed));
    assert!(wants_row("/sdcard/downloads/x/a.flac", &sandboxed));
    assert!(!wants_row("/storage/emulated/0/Ringtones/a.mp3", &sandboxed));
    assert!(!wants_row("/data/user/0/app/files/music/a.mp3", &sandboxed));
}

#[test]
fn a_rows_format_comes_from_its_extension_then_its_mime_type() {
    assert_eq!(row_format("/Music/a.FLAC", Some("audio/mpeg")), AudioFormat::Flac);
    assert_eq!(row_format("/Music/a", Some("audio/aac")), AudioFormat::M4a);
    assert_eq!(row_format("/Music/a", Some("audio/opus")), AudioFormat::Ogg);
    assert_eq!(row_format("/Music/a", Some("video/mp4")), AudioFormat::Mp3);
    assert_eq!(row_format("/Music/a", None), AudioFormat::Mp3);
}

#[test]
fn a_row_without_tags_gives_its_own_record() {
    let rec = row_record(&row("/Music/song.mp3", "  ", 215_900)).unwrap();
    assert_eq!(rec.title, "song.mp3");
    assert_eq!(rec.duration_secs, 215);
    assert_eq!(rec.artist, None);
    assert_eq!(rec.album.as_deref(), Some("Album"));
    assert_eq!(rec.art_uri, None);
    let rec = row_record(&row("/Music/song.mp3", "Title", 1_000)).unwrap();
    assert_eq!(rec.title, "Title");
    assert!(row_record(&row("/Music/song.mp3", "Title", 999)).is_none());
}
