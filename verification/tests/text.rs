//! Text scanning, against the standard library.

use tor_js_gateway::text::{
    bool_text, decimal_text, eq_ignore_ascii_case, is_whitespace, join_strings, lines, parse_u16,
    same_text, split, split_once, split_whitespace, trim,
};

const SAMPLES: [&str; 12] = [
    "",
    " ",
    "a",
    " a b\tc  ",
    "a,b,,c,",
    ",",
    "one\ntwo\r\nthree",
    "one\r\n\r\ntwo\n",
    "\u{2003}wide\u{3000}",
    "k: v: w",
    "\r",
    "ünïcode, ñ",
];

#[test]
fn white_space_is_that_of_unicode() {
    for n in 0..0x1_0000u32 {
        if let Some(c) = char::from_u32(n) {
            assert_eq!(is_whitespace(c), c.is_whitespace());
        }
    }
}

#[test]
fn texts_are_taken_apart_as_the_standard_library_does() {
    for s in SAMPLES {
        assert_eq!(trim(s), s.trim());
        assert_eq!(split(s, ','), s.split(',').collect::<Vec<_>>());
        assert_eq!(split_once(s, ':'), s.split_once(':'));
        assert_eq!(split_whitespace(s), s.split_whitespace().collect::<Vec<_>>());
        assert_eq!(lines(s), s.lines().collect::<Vec<_>>());
        for t in SAMPLES {
            assert_eq!(same_text(s, t), s == t);
            assert_eq!(eq_ignore_ascii_case(s, t), s.eq_ignore_ascii_case(t));
        }
    }
    assert!(eq_ignore_ascii_case("Content-ENCODING", "content-encoding"));
    assert!(!eq_ignore_ascii_case("Ä", "ä"));
    assert!(!eq_ignore_ascii_case("[", "{"));
}

#[test]
fn numbers_are_read_and_written_in_decimal() {
    for s in ["0", "007", "+5", "65535", "65536", "", "+", "++1", "-1", "1 ", "99999999999", "٣"] {
        assert_eq!(parse_u16(s), s.parse::<u16>().ok());
    }
    for n in [0u64, 9, 10, 42298, u64::MAX] {
        assert_eq!(decimal_text(n), n.to_string());
    }
    assert_eq!(bool_text(true), "true");
    assert_eq!(bool_text(false), "false");
}

#[test]
fn splitting_undoes_joining() {
    let parts: Vec<String> = ["a", "", "bc"].iter().map(|s| s.to_string()).collect();
    let joined = join_strings(&parts, "-");
    assert_eq!(joined, "a--bc");
    assert_eq!(split(&joined, '-'), vec!["a", "", "bc"]);
    assert_eq!(join_strings(&Vec::new(), "-"), "");
}
