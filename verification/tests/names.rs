use auralis::formats::AudioFormat;
use auralis::names::{
    is_streamable_url, url_snippet, url_snips_cleanly, output_file_name, sanitize_ext, sanitize_filename, staging_file_name,
    url_host,
};

#[test]
fn test_sanitize_filename() {
    assert_eq!(sanitize_filename("Valid Name"), "Valid Name");
    assert_eq!(sanitize_filename("Slash/In/Name"), "Slash_In_Name");
    assert_eq!(sanitize_filename("Back\\Slash"), "Back_Slash");
    assert_eq!(sanitize_filename("../../etc/passwd"), "etc_passwd");
    assert_eq!(sanitize_filename("AUX"), "AUX_track");
    assert_eq!(sanitize_filename("COM1"), "COM1_track");
}

#[test]
fn test_sanitize_ext() {
    assert_eq!(sanitize_ext("mp3", "mp3"), "mp3");
    assert_eq!(sanitize_ext("m4a", "m4a"), "m4a");
    assert_eq!(sanitize_ext("..exe", "mp3"), "mp3");
    assert_eq!(sanitize_ext("unknown", "flac"), "flac");
}

#[test]
fn sanitize_filename_never_returns_an_empty_or_dot_name() {
    assert_eq!(sanitize_filename(""), "audio_track");
    assert_eq!(sanitize_filename("."), "audio_track");
    assert_eq!(sanitize_filename(".."), "audio_track");
    assert_eq!(sanitize_filename("///"), "audio_track");
    assert_eq!(sanitize_filename("\u{7}\u{1b}"), "audio_track");
}

#[test]
fn sanitize_filename_collapses_dots_and_underscores() {
    assert_eq!(sanitize_filename("a..b"), "a_b");
    assert_eq!(sanitize_filename("a____b"), "a_b");
    assert_eq!(sanitize_filename("  .hidden. "), "hidden");
    assert_eq!(sanitize_filename("What? Is: this*"), "What_ Is_ this");
    assert_eq!(sanitize_filename("Café Ünïcode"), "Café Ünïcode");
    assert_eq!(sanitize_filename("lpt9"), "lpt9_track");
}

#[test]
fn sanitize_filename_limits_the_name_to_200_characters() {
    let long = "x".repeat(250);
    assert_eq!(sanitize_filename(&long), "x".repeat(200));
    // Two-byte characters count as one each.
    let wide = "é".repeat(250);
    assert_eq!(sanitize_filename(&wide), "é".repeat(200));
    // A cut that ends in separators is trimmed back.
    let padded = format!("{}{}", "y".repeat(199), "_zz");
    assert_eq!(sanitize_filename(&padded), "y".repeat(199));
}

#[test]
fn sanitize_ext_trims_and_lowercases() {
    assert_eq!(sanitize_ext(" .WEBM ", "mp3"), "webm");
    assert_eq!(sanitize_ext("opus", "mp3"), "opus");
    assert_eq!(sanitize_ext("../m4a", "m.4-a"), "m4a");
    assert_eq!(sanitize_ext("exe", "exe"), "mp3");
    assert_eq!(sanitize_ext("toolongext", "oga"), "oga");
}

#[test]
fn download_urls_must_be_http() {
    assert!(is_streamable_url("https://rr1.googlevideo.com/videoplayback"));
    assert!(is_streamable_url("http://example.test/a.mp3"));
    assert!(!is_streamable_url("ftp://example.test/a.mp3"));
    assert!(!is_streamable_url("file:///etc/passwd"));
    assert!(!is_streamable_url("HTTPS://upper.test/"));
}

#[test]
fn url_host_is_the_third_slash_piece() {
    assert_eq!(url_host("https://rr3.googlevideo.com/videoplayback?x=1"), "rr3.googlevideo.com");
    assert_eq!(url_host("nohost"), "unknown");
    assert_eq!(url_host("a/b"), "unknown");
    assert_eq!(url_host("a//"), "");
}

#[test]
fn output_file_names_follow_the_title_and_extension() {
    assert_eq!(
        output_file_name("My Song", "m4a", AudioFormat::Mp3, false, "0123456789abcdef"),
        "My Song.m4a"
    );
    assert_eq!(
        output_file_name("My Song", "", AudioFormat::Flac, false, "id"),
        "My Song.flac"
    );
    assert_eq!(
        output_file_name("My/Song", "exe", AudioFormat::Ogg, true, "0123456789abcdef"),
        "My_Song_01234567.ogg"
    );
    assert_eq!(staging_file_name("abc"), "abc.part");
}

#[test]
fn long_names_are_cut_to_200_characters() {
    let plain = "a".repeat(300);
    assert_eq!(sanitize_filename(&plain), "a".repeat(200));
    let accented = "é".repeat(300);
    assert_eq!(sanitize_filename(&accented), "é".repeat(200));
    let odd = format!("a{}", "é".repeat(300));
    assert_eq!(sanitize_filename(&odd).chars().count(), 200);
    // The reserved-name test sees the name as it is saved.
    let padded = format!("con{}x", " ".repeat(300));
    assert_eq!(sanitize_filename(&padded), "con_track");
    assert_eq!(sanitize_filename(&format!("{}...", "b".repeat(199))), "b".repeat(199));
}

#[test]
fn long_urls_are_shown_cut_after_160_bytes() {
    let short = "https://example.test/a.mp3";
    assert!(url_snips_cleanly(short));
    assert_eq!(url_snippet(short), short);
    let long = format!("https://example.test/{}", "a".repeat(200));
    assert!(url_snips_cleanly(&long));
    let snip = url_snippet(&long);
    assert_eq!(snip, format!("{}…", &long[..160]));
    let awkward = format!("{}é{}", "a".repeat(159), "b".repeat(10));
    assert!(!url_snips_cleanly(&awkward));
}

#[test]
fn ascii_letters_and_digits_are_kept_and_punctuation_replaced() {
    assert_eq!(sanitize_filename("abc"), "abc");
    assert_eq!(sanitize_filename("Track 07 - Intro.v2"), "Track 07 - Intro.v2");
    assert_eq!(sanitize_filename("a:b*c?d"), "a_b_c_d");
    assert_eq!(sanitize_filename("tab\there\u{7}bell"), "tabherebell");
    for c in sanitize_filename("x\u{0}\u{1b}y/z!é\u{85}").chars() {
        assert!(!c.is_control());
        assert!(c.is_alphanumeric() || " -_.".contains(c), "{c:?}");
    }
}
