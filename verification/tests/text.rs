use auralis::formats::lowercase_text;
use auralis::mp4::boxes::is_container_kind;
use auralis::mp4::tables::{min_u64, sat_mul};
use auralis::paths::{extension_of_name, extension_of_path, file_name_of};
use auralis::range::split_at;
use auralis::text::{
    ascii_alnum, char_width, chars_of, contains_text, eq_str, lower_ascii, lower_ascii_char,
    parse_u64, push_decimal, push_str, slice_chars, split_once_any, starts_with_str, string_of,
    trim, trim_start_matching,
};

fn v(s: &str) -> Vec<char> {
    s.chars().collect()
}

fn s(c: &[char]) -> String {
    c.iter().collect()
}

#[test]
fn numbers_parse_as_str_parse_does() {
    assert_eq!(parse_u64(&v("0")), Some(0));
    assert_eq!(parse_u64(&v("+42")), Some(42));
    assert_eq!(parse_u64(&v("18446744073709551615")), Some(u64::MAX));
    assert_eq!(parse_u64(&v("18446744073709551616")), None);
    assert_eq!(parse_u64(&v("")), None);
    assert_eq!(parse_u64(&v("+")), None);
    assert_eq!(parse_u64(&v("-1")), None);
    assert_eq!(parse_u64(&v(" 7")), None);
    let mut out = v("n=");
    push_decimal(&mut out, 10_240);
    push_str(&mut out, "!");
    assert_eq!(s(&out), "n=10240!");
}

#[test]
fn text_helpers_match_their_std_counterparts() {
    assert_eq!(s(&trim(&v(" \t a b \n"))), "a b");
    assert_eq!(s(&trim_start_matching(&v("//x/"), '/')), "x/");
    assert_eq!(s(&lower_ascii(&v("AbC-É"))), "abc-É");
    assert_eq!(lower_ascii_char('Q'), 'q');
    assert!(ascii_alnum('z') && ascii_alnum('7') && !ascii_alnum('é') && !ascii_alnum('-'));
    assert_eq!(s(&lowercase_text("ÀB")), "àb");
    assert!(contains_text(&v("a/Music/b"), &v("/Music/")));
    assert!(!contains_text(&v("a/music"), &v("/music/")));
    assert!(starts_with_str(&v("content://x"), "content://"));
    assert!(!starts_with_str(&v("conte"), "content://"));
    assert!(eq_str(&v("bytes"), "bytes") && !eq_str(&v("byte"), "bytes"));
    assert_eq!(s(&slice_chars(&v("abcdef"), 1, 4)), "bcd");
    assert_eq!(string_of(&chars_of("héllo")), "héllo");
    assert_eq!(char_width('a') + char_width('é') + char_width('€') + char_width('🎵'), 10);
    let (a, b) = split_once_any(&v("bytes=1-2"), ' ', '\t', '=').unwrap();
    assert_eq!((s(&a), s(&b)), ("bytes".to_string(), "1-2".to_string()));
    assert!(split_once_any(&v("bytes"), ' ', '\t', '=').is_none());
    let parts: Vec<String> = split_at(&v("a&b&&c"), '&').iter().map(|p| s(p)).collect();
    assert_eq!(parts, vec!["a", "b", "", "c"]);
}

#[test]
fn path_names_and_extensions_follow_std_path() {
    assert_eq!(file_name_of(&v("/music/a.mp3")).map(|n| s(&n)), Some("a.mp3".to_string()));
    assert_eq!(file_name_of(&v("/music/dir/")).map(|n| s(&n)), Some("dir".to_string()));
    assert_eq!(file_name_of(&v("/music/..")), None);
    assert_eq!(file_name_of(&v("/")), None);
    assert_eq!(extension_of_path(&v("/m/a.tar.gz")).map(|e| s(&e)), Some("gz".to_string()));
    assert_eq!(extension_of_path(&v("/m/.hidden")), None);
    assert_eq!(extension_of_name(&v("song.")).map(|e| s(&e)), Some(String::new()));
    assert_eq!(extension_of_name(&v("song")), None);
}

#[test]
fn box_arithmetic_saturates() {
    assert_eq!(sat_mul(1 << 40, 1 << 30), u64::MAX);
    assert_eq!(sat_mul(1000, 48), 48_000);
    assert_eq!(min_u64(3, 9), 3);
    assert!(is_container_kind(u32::from_be_bytes(*b"moov")));
    assert!(!is_container_kind(u32::from_be_bytes(*b"mdat")));
}

#[test]
fn white_space_and_control_classes_agree_with_std_on_every_char() {
    for c in (0u32..=0x10FFFF).filter_map(char::from_u32) {
        assert_eq!(auralis::text::is_whitespace(c), c.is_whitespace(), "{:#x}", c as u32);
        assert_eq!(auralis::text::is_control(c), c.is_control(), "{:#x}", c as u32);
    }
}
