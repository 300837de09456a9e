use auralis::libscan::{read_outcome, LibraryScan, RowAction};
use auralis::scanner::MediaStoreRawTrack;
use auralis::walk::ScanResult;

fn s(x: &str) -> String {
    x.to_string()
}

#[test]
fn roots_files_and_errors_are_collected_in_order() {
    let mut run = LibraryScan::new(&vec![s("/music"), s("/gone"), s("/locked")]);
    run.on_root("/music", Some(Ok(vec![s("/music/a.mp3"), s("/music/b.mp3"), s("/music/a.mp3")])));
    run.on_root("/gone", None);
    run.on_root("/locked", Some(Err(s("permission denied"))));
    run.on_root("/music", Some(Ok(vec![s("/music/./b.mp3"), s("/music/c.mp3")])));
    assert_eq!(run.found(), &vec![s("/music/a.mp3"), s("/music/b.mp3"), s("/music/c.mp3")]);
    let start = run.start_progress();
    assert_eq!((start.total_files, start.processed_files, start.error_count), (3, 0, 2));
    let p = run.on_file(0, Ok(ScanResult::Added));
    assert_eq!((p.processed_files, p.total_files, p.tracks_added), (1, 3, 1));
    assert_eq!(p.current_file, "/music/a.mp3");
    run.on_file(1, Ok(ScanResult::Updated));
    let p = run.on_file(2, Err(s("bad tags")));
    assert_eq!((p.tracks_added, p.tracks_updated, p.error_count), (1, 1, 3));
    let stored = vec![
        (1, s("/music/a.mp3")),
        (2, s("/music/old.mp3")),
        (3, s("/elsewhere/x.mp3")),
        (4, s("/music/sub/gone.flac")),
    ];
    let ids = run.stale(&stored);
    assert_eq!(ids, vec![2, 4]);
    run.on_removed(2, Some(s("db locked")));
    let summary = run.into_summary();
    assert_eq!(summary.tracks_removed, 0);
    assert_eq!(
        summary.errors,
        vec![
            s("Path does not exist: /gone"),
            s("Failed to scan /locked: permission denied"),
            s("/music/c.mp3: bad tags"),
            s("Failed to remove 2 stale tracks: db locked"),
        ]
    );
}

#[test]
fn removal_and_listing_outcomes_are_tallied() {
    let mut run = LibraryScan::new(&vec![s("/m")]);
    run.on_removed(5, None);
    run.on_listing_failed("no db");
    let summary = run.into_summary();
    assert_eq!(summary.tracks_removed, 5);
    assert_eq!(summary.errors, vec![s("Failed to check stale tracks: no db")]);
    assert_eq!(read_outcome(true, Some(10)), ScanResult::Updated);
    assert_eq!(read_outcome(false, Some(10)), ScanResult::Added);
    assert_eq!(read_outcome(false, None), ScanResult::SkippedUnplayable);
}

fn row(path: &str, duration_ms: u64) -> MediaStoreRawTrack {
    MediaStoreRawTrack {
        id: 7,
        path: s(path),
        title: s("t"),
        artist: None,
        album: None,
        duration_ms,
        track_number: None,
        year: None,
        size: 0,
        mime_type: None,
        art_uri: None,
    }
}

#[test]
fn mediastore_rows_are_sorted_into_the_tally() {
    let mut run = LibraryScan::new(&vec![s("/data/app/files/music")]);
    assert_eq!(run.on_row(&row("/data/app/files/music/a.mp3", 1000), false, None, true), RowAction::Ignore);
    assert_eq!(run.on_row(&row("/sdcard/Ringtones/a.mp3", 1000), false, None, true), RowAction::Ignore);
    assert_eq!(
        run.on_row(&row("/sdcard/Music/a.mp3", 1000), false, Some(200), true),
        RowAction::FromTags { update: false }
    );
    assert_eq!(
        run.on_row(&row("/sdcard/Music/b.mp3", 1000), true, Some(0), false),
        RowAction::Unplayable
    );
    assert_eq!(
        run.on_row(&row("/sdcard/Download/c.mp3", 999), true, None, true),
        RowAction::Unplayable
    );
    assert_eq!(
        run.on_row(&row("/sdcard/Download/d.mp3", 5000), true, None, true),
        RowAction::FromRow { update: true }
    );
    let summary = run.into_summary();
    assert_eq!(
        (summary.tracks_added, summary.tracks_updated, summary.skipped_unplayable),
        (1, 1, 2)
    );
}

#[test]
fn an_indexed_row_reports_its_place_among_the_rows() {
    let mut run = LibraryScan::new(&vec![s("/data/app/files/music")]);
    run.on_row(&row("/sdcard/Music/a.mp3", 3000), true, Some(3), true);
    let p = run.row_progress("/sdcard/Music/a.mp3", 4, 10);
    assert_eq!(p.current_file, "/sdcard/Music/a.mp3");
    assert_eq!((p.processed_files, p.total_files), (5, 10));
    assert_eq!((p.tracks_added, p.tracks_updated, p.error_count), (0, 1, 0));
}
