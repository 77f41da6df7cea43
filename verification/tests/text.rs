use pairqr::text::{contains, parse_port, port_text, same_text, split_rows, split_words};
use pairqr::text::{starts_with, strip_prefixes, trim};

#[test]
fn contains_finds_parts() {
    assert!(contains("already connected to x", "connected to"));
    assert!(contains("abc", ""));
    assert!(contains("aab", "ab"));
    assert!(!contains("ab", "abc"));
    assert!(!contains("", "a"));
}

#[test]
fn starts_with_looks_at_the_start() {
    assert!(starts_with("192.168.1.5:5555", "192.168.1.5"));
    assert!(!starts_with("x192.168.1.5", "192.168.1.5"));
    assert!(starts_with("", ""));
}

#[test]
fn trim_agrees_with_std() {
    for s in ["", "  ", " a b ", "\r\n\tx\u{a0}", "\u{3000}y\u{2003}", "z\u{200b}"] {
        assert_eq!(trim(s), s.trim());
    }
}

#[test]
fn words_agree_with_std() {
    for s in ["", "  ", " a b ", "emulator-5554\tdevice\r", "\u{85}q\u{1680}r\u{2028}s\u{180e}t"] {
        let expected: Vec<&str> = s.split_whitespace().collect();
        assert_eq!(split_words(s), expected);
    }
}

#[test]
fn white_space_is_the_unicode_property() {
    for n in 0..=0x10ffffu32 {
        if let Some(c) = char::from_u32(n) {
            let listed = (0x9..=0xd).contains(&n)
                || (0x2000..=0x200a).contains(&n)
                || [0x20, 0x85, 0xa0, 0x1680, 0x2028, 0x2029, 0x202f, 0x205f, 0x3000].contains(&n);
            assert_eq!(c.is_whitespace(), listed);
        }
    }
}

#[test]
fn rows_are_parted_by_line_feeds() {
    assert_eq!(split_rows("a\nb\r\n"), vec!["a", "b\r", ""]);
    assert_eq!(split_rows(""), vec![""]);
}

#[test]
fn prefixes_are_stripped_as_often_as_they_stand() {
    for s in ["adb-x", "adb-adb-x", "x-adb-", "adb-", ""] {
        assert_eq!(strip_prefixes(s, "adb-"), s.trim_start_matches("adb-"));
    }
}

#[test]
fn ports_read_back() {
    for p in [0u16, 7, 10, 99, 5555, 44061, 65535] {
        assert_eq!(port_text(p), p.to_string());
        assert_eq!(parse_port(&port_text(p)), Some(p));
    }
}

#[test]
fn port_parsing_agrees_with_std() {
    for s in ["", "+", "+80", "++80", "-1", "-0", "65535", "65536", "000080", "12a", " 1", "99999999999999999999", "\u{661}"] {
        assert_eq!(parse_port(s), s.parse::<u16>().ok());
    }
}

#[test]
fn same_text_compares() {
    assert!(same_text("device", "device"));
    assert!(!same_text("device", "devices"));
    assert!(!same_text("abc", "abd"));
}
