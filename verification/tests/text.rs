use zeroclaw_runtime::lines::{join, lines, split};
use zeroclaw_runtime::number::{parse_u32, push_decimal};
use zeroclaw_runtime::text::{
    ends_with, eq_ignore_case, index_of, same, starts_with, starts_with_ignore_case, trim,
    trim_quotes, trim_start, value_after_colon,
};
use zeroclaw_runtime::truncate::{truncate_chars, width};

#[test]
fn white_space_is_what_unicode_lists() {
    for code in 0..=0x10ffff_u32 {
        if let Some(c) = char::from_u32(code) {
            let listed = matches!(
                code,
                0x9..=0xd
                    | 0x20
                    | 0x85
                    | 0xa0
                    | 0x1680
                    | 0x2000..=0x200a
                    | 0x2028
                    | 0x2029
                    | 0x202f
                    | 0x205f
                    | 0x3000
            );
            assert_eq!(c.is_whitespace(), listed);
            if code < 0x3100 {
                assert_eq!(trim(&c.to_string()).is_empty(), listed);
            }
        }
    }
}

#[test]
fn texts_are_trimmed() {
    for s in ["", " ", " a ", "\u{3000}a b\u{a0}\r\n", "a", "\t\n"] {
        assert_eq!(trim(s), s.trim());
        assert_eq!(trim_start(s), s.trim_start());
    }
    for s in ["", "\"", "\"\"\"", "\"a\"b\"\"", "a"] {
        assert_eq!(trim_quotes(s), s.trim_matches('"'));
    }
}

#[test]
fn texts_are_compared() {
    assert!(same("ab", "ab"));
    assert!(!same("ab", "abc"));
    assert!(starts_with("abc", "ab") && !starts_with("a", "ab"));
    assert!(ends_with("abc", "bc") && !ends_with("c", "bc"));
    assert!(eq_ignore_case("NoNe", "none"));
    assert!(!eq_ignore_case("\u{c9}", "\u{e9}"));
    assert!(starts_with_ignore_case("BODY: x", "body:"));
    assert_eq!(index_of("\u{e9}a:b:", ':'), Some(2));
    assert_eq!(index_of("ab", ':'), None);
    assert_eq!(value_after_colon("a:  b : c "), "b : c");
}

#[test]
fn lines_are_those_of_the_standard_library() {
    for s in ["", "\n", "a", "a\n", "a\r\nb", "a\r", "\r\n\n\r", "a\n\nb\r\r\nc\n"] {
        let expected: Vec<&str> = s.lines().collect();
        assert_eq!(lines(s), expected);
    }
    for s in ["", ".", "1.2.3", "a..b", "."] {
        let expected: Vec<&str> = s.split('.').collect();
        assert_eq!(split(s, '.'), expected);
    }
    let parts = vec!["a".to_string(), String::new(), "b".to_string()];
    assert_eq!(join(&parts, ", "), "a, , b");
    assert_eq!(lines(&join(&parts, "\n")), parts);
    assert_eq!(join(&Vec::new(), ", "), "");
    let parts = vec!["a".to_string(), "b\r".to_string()];
    assert_eq!(lines(&join(&parts, "\n")), parts);
}

#[test]
fn numbers_are_those_of_the_standard_library() {
    for s in [
        "0", "007", "+5", "+", "-", "-0", "", "4294967295", "4294967296", "99999999999999999999",
        "1a", "++1", " 1", "1 ", "\u{661}",
    ] {
        assert_eq!(parse_u32(s), s.parse::<u32>().ok());
    }
    for n in [0u64, 9, 10, 120, u32::MAX as u64, u64::MAX] {
        let mut text = String::from("n=");
        push_decimal(&mut text, n);
        assert_eq!(text, format!("n={n}"));
    }
}

#[test]
fn long_texts_are_cut() {
    assert_eq!(truncate_chars("abc", 3), "abc");
    assert_eq!(truncate_chars("abcd", 3), "abc\u{2026}");
    assert_eq!(truncate_chars("\u{e9}\u{e9}\u{e9}\u{e9}", 3), "\u{e9}\u{2026}");
    assert_eq!(truncate_chars("\u{e9}\u{e9}\u{e9}", 3), "\u{e9}\u{e9}\u{e9}");
    assert_eq!(truncate_chars("\u{1F527}\u{1F527}", 1), "\u{2026}");
    assert_eq!(truncate_chars("a", 0), "\u{2026}");
    assert_eq!(truncate_chars("", 0), "");
    for c in ['a', '\u{7f}', '\u{80}', '\u{7ff}', '\u{800}', '\u{ffff}', '\u{10000}'] {
        assert_eq!(width(c), c.len_utf8());
    }
}
