use cue_analyzer::text::{find, find_byte, matches_at, split_lines, trim};

#[test]
fn find_byte_gives_first_position_from_start() {
    assert_eq!(find_byte(b"a:b:c", b':', 0), 1);
    assert_eq!(find_byte(b"a:b:c", b':', 2), 3);
    assert_eq!(find_byte(b"a:b:c", b':', 4), 5);
    assert_eq!(find_byte(b"a:b:c", b':', 5), 5);
    assert_eq!(find_byte(b"", b':', 0), 0);
    assert_eq!(find_byte(b"a:b", b':', 9), 3);
}

#[test]
fn matches_at_compares_in_place() {
    assert!(matches_at(b"[Parsed_ebur128_0 @ 0x1] t: 1", b"[Parsed_ebur128", 0));
    assert!(!matches_at(b" [Parsed_ebur128_0", b"[Parsed_ebur128", 0));
    assert!(matches_at(b" [Parsed_ebur128_0", b"[Parsed_ebur128", 1));
    assert!(!matches_at(b"[Parsed", b"[Parsed_ebur128", 0));
    assert!(matches_at(b"abc", b"", 3));
    assert!(!matches_at(b"abc", b"", 4));
}

#[test]
fn find_gives_first_occurrence() {
    assert_eq!(find(b"TARGET:-23 t: 1 t: 2", b"t:"), Some(11));
    assert_eq!(find(b"no marker", b"t:"), None);
    assert_eq!(find(b"t", b"t:"), None);
    assert_eq!(find(b"xM:", b"M:"), Some(1));
    assert_eq!(find(b"abc", b""), Some(0));
    assert_eq!(find(b"", b""), Some(0));
}

#[test]
fn trim_takes_blanks_off_both_ends() {
    assert_eq!(trim(b"  0.4 \t"), b"0.4");
    assert_eq!(trim(b"-14.0"), b"-14.0");
    assert_eq!(trim(b" a b "), b"a b");
    assert_eq!(trim(b"   "), b"");
    assert_eq!(trim(b""), b"");
    assert_eq!(trim(b"\r\n\x0b\x0c1\n"), b"1");
    assert_eq!(trim(b"\x081\x0e"), b"\x081\x0e");
}

fn lines(texts: &[&'static str]) -> Vec<&'static [u8]> {
    texts.iter().map(|text| text.as_bytes()).collect()
}

#[test]
fn split_lines_at_line_feeds() {
    assert_eq!(split_lines(b"one\ntwo\r\n\nfour"), lines(&["one", "two", "", "four"]));
}

#[test]
fn split_lines_has_no_empty_line_after_the_last_line_feed() {
    assert_eq!(split_lines(b"one\n"), lines(&["one"]));
    assert_eq!(split_lines(b"\n"), lines(&[""]));
    assert_eq!(split_lines(b""), lines(&[]));
    assert_eq!(split_lines(b"one\n\n"), lines(&["one", ""]));
}

#[test]
fn split_lines_keeps_a_carriage_return_without_line_feed() {
    assert_eq!(split_lines(b"a\rb\r\nc\r"), lines(&["a\rb", "c\r"]));
    assert_eq!(split_lines(b"\r\n\r\r\n"), lines(&["", "\r"]));
}
