use auralis::exclude::{is_excluded, parent_of};
use auralis::scanner::DesktopScanner;
use auralis::walk::{
    ingest_name, is_same_path, is_unchanged, kept_genre, path_components, playable_duration,
    stale_records, starts_with_path, title_or, DirWalk, EntryAction, EntryFacts, KnownFile,
    ScanResult, ScanSummary, MAX_SCAN_DEPTH,
};

fn s(x: &str) -> String {
    x.to_string()
}

fn entry(path: &str, is_dir: bool, canonical: Option<&str>) -> EntryFacts {
    EntryFacts {
        path: s(path),
        name: path.rsplit('/').next().unwrap().to_string(),
        is_symlink: false,
        is_dir,
        is_file: !is_dir,
        canonical: canonical.map(s),
    }
}

fn parent(p: &str) -> Option<String> {
    let v: Vec<char> = p.chars().collect();
    parent_of(&v).map(|c| c.into_iter().collect())
}

#[test]
fn parents_follow_std_paths() {
    for p in ["/a", "a", "a/b/", "a//b", "/", "", ".", "./a", "/x/./y/.", "../z"] {
        let expected = std::path::Path::new(p)
            .parent()
            .map(|q| q.to_string_lossy().to_string());
        assert_eq!(parent(p), expected, "parent of {p:?}");
    }
}

#[test]
fn components_and_prefixes_follow_std_paths() {
    let cases = [
        ("/music/a.mp3", "/music"),
        ("/musicx/a.mp3", "/music"),
        ("music/a", "music/"),
        ("./music/a", "music"),
        ("/music//sub/./a", "/music/sub"),
        ("/", "/"),
        ("a", ""),
    ];
    for (p, base) in cases {
        assert_eq!(
            starts_with_path(p, base),
            std::path::Path::new(p).starts_with(base),
            "{p:?} under {base:?}"
        );
        assert_eq!(
            is_same_path(p, base),
            std::path::Path::new(p) == std::path::Path::new(base),
            "{p:?} == {base:?}"
        );
    }
    let comps: Vec<String> = path_components("/a//b/./c/..")
        .into_iter()
        .map(|c| c.into_iter().collect())
        .collect();
    assert_eq!(comps, vec!["/", "a", "b", "c", ".."]);
}

#[test]
fn exclusion_patterns_match_globs_parents_and_text() {
    let patterns = vec![s("*.tmp"), s("cache/"), s("skipme"), s("[")];
    assert!(is_excluded(&patterns, "/a/b.tmp"));
    assert!(is_excluded(&patterns, "/a/cache/x.mp3"));
    assert!(is_excluded(&patterns, "/a/skipme_song.mp3"));
    assert!(is_excluded(&patterns, "/a/[live]/song.mp3"));
    assert!(!is_excluded(&patterns, "/a/b/song.mp3"));
    let scanner = DesktopScanner::new(vec![], vec![s("podcasts/")]);
    assert!(scanner.wants_file("/music/song.MP3"));
    assert!(!scanner.wants_file("/music/podcasts/ep1.mp3"));
    assert!(!scanner.wants_file("/music/cover.jpg"));
}

#[test]
fn a_walk_skips_hidden_and_linked_entries_and_visits_each_directory_once() {
    let mut walk = DirWalk::new("/music", Some(s("/music")), false);
    let (dir, depth) = walk.next_dir().unwrap();
    assert_eq!((dir.as_str(), depth), ("/music", 0));
    assert_eq!(walk.visit(0, entry("/music/.cache", true, Some("/music/.cache")), false), EntryAction::Hidden);
    let mut link = entry("/music/link", true, Some("/elsewhere"));
    link.is_symlink = true;
    assert_eq!(walk.visit(0, link, false), EntryAction::SymlinkedDir);
    assert_eq!(walk.visit(0, entry("/music/a", true, Some("/music/a")), false), EntryAction::Descend);
    assert_eq!(walk.visit(0, entry("/music/loop", true, Some("/music")), false), EntryAction::AlreadyVisited);
    assert_eq!(walk.visit(0, entry("/music/x.mp3", false, None), true), EntryAction::Collect);
    assert_eq!(walk.visit(0, entry("/music/x.txt", false, None), false), EntryAction::Ignore);
    assert_eq!(walk.visit(0, entry("/music/x.mp3", false, None), true), EntryAction::Collect);
    let (dir, depth) = walk.next_dir().unwrap();
    assert_eq!((dir.as_str(), depth), ("/music/a", 1));
    assert!(walk.next_dir().is_none());
    assert_eq!(walk.files(), &vec![s("/music/x.mp3"), s("/music/x.mp3")]);
}

#[test]
fn a_unique_walk_collects_each_file_once_and_stops_at_the_depth_limit() {
    let mut walk = DirWalk::new("/sandbox", None, true);
    walk.next_dir();
    assert_eq!(walk.visit(0, entry("/sandbox/a.mp3", false, None), true), EntryAction::Collect);
    assert_eq!(walk.visit(0, entry("/sandbox//a.mp3", false, None), true), EntryAction::Duplicate);
    assert_eq!(
        walk.visit(MAX_SCAN_DEPTH, entry("/sandbox/deep", true, None), false),
        EntryAction::Descend
    );
    // The deep directory sits one level past the limit and is never read.
    assert!(walk.next_dir().is_none());
    assert_eq!(walk.files().len(), 1);
}

#[test]
fn stale_records_are_under_a_root_and_not_found() {
    let paths = vec![
        s("/music/a.mp3"),
        s("/other/b.mp3"),
        s("/music/sub/c.mp3"),
        s("/musicx/d.mp3"),
        s("/music//a.mp3"),
    ];
    let roots = vec![s("/music")];
    let found = vec![s("/music/a.mp3")];
    assert_eq!(stale_records(&paths, &roots, &found), vec![2]);
}

#[test]
fn incremental_scans_skip_unchanged_files() {
    let known = KnownFile {
        mtime: 100,
        file_size: 2048,
        duration_secs: 0,
    };
    assert!(is_unchanged(Some(known), 100, 2048, false));
    assert!(!is_unchanged(Some(known), 100, 2048, true));
    assert!(!is_unchanged(Some(known), 101, 2048, false));
    assert!(!is_unchanged(None, 100, 2048, false));
    assert_eq!(playable_duration(0, Some(7)), Some(7));
    assert_eq!(playable_duration(0, Some(0)), None);
    assert_eq!(playable_duration(3, None), Some(3));
}

#[test]
fn titles_and_names_fall_back_sensibly() {
    assert_eq!(title_or("  ", "song.mp3"), "song.mp3");
    assert_eq!(title_or("Unknown", "song.mp3"), "song.mp3");
    assert_eq!(title_or("Real Title", "song.mp3"), "Real Title");
    assert_eq!(ingest_name("/storage/emulated/0/Music/a.mp3"), "a.mp3");
    assert_eq!(ingest_name("content.mp3"), "content.mp3");
    assert_eq!(ingest_name(".."), "..");
}

#[test]
fn a_scan_summary_counts_each_outcome() {
    let mut summary = ScanSummary::new();
    summary.record(Ok(ScanResult::Added));
    summary.record(Ok(ScanResult::Added));
    summary.record(Ok(ScanResult::Updated));
    summary.record(Ok(ScanResult::Skipped));
    summary.record(Ok(ScanResult::SkippedUnplayable));
    summary.record(Err(s("/x.mp3: broken")));
    assert_eq!(summary.tracks_added, 2);
    assert_eq!(summary.tracks_updated, 1);
    assert_eq!(summary.skipped_unplayable, 1);
    assert_eq!(summary.errors, vec![s("/x.mp3: broken")]);
}

#[test]
fn blank_genres_are_dropped_and_others_kept_as_read() {
    assert_eq!(kept_genre(Some("Jazz")), Some("Jazz".to_string()));
    assert_eq!(kept_genre(Some(" Soul ")), Some(" Soul ".to_string()));
    assert_eq!(kept_genre(Some("   ")), None);
    assert_eq!(kept_genre(Some("")), None);
    assert_eq!(kept_genre(None), None);
}

#[test]
fn the_default_scanner_wants_common_audio_and_skips_hidden_entries() {
    let scanner = DesktopScanner::default_audio();
    assert_eq!(scanner.include_patterns().len(), 6);
    assert_eq!(scanner.include_patterns()[0], "**/*.mp3");
    assert_eq!(scanner.exclude_patterns(), &vec![".*".to_string(), ".*/".to_string()]);
}
