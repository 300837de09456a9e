use auralis::tags::tag_request;

#[test]
fn empty_request_is_a_noop() {
    // No title, no artist, no album: nothing to write, so no file is touched.
    assert!(tag_request("   ", None, Some("  ")).is_none());
}

#[test]
fn only_non_empty_fields_are_written_and_trimmed() {
    let req = tag_request("  Song  ", Some(" "), Some("Album ")).unwrap();
    assert_eq!(req.title.as_deref(), Some("Song"));
    assert_eq!(req.artist, None);
    assert_eq!(req.album.as_deref(), Some("Album"));
    let req = tag_request("", Some("Artist"), None).unwrap();
    assert_eq!(req.title, None);
    assert_eq!(req.artist.as_deref(), Some("Artist"));
}
