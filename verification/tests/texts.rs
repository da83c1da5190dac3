//! Texts.
use pouch::text::{
    chars_of, has_text, is_before, is_white_space, number, parse_number, same, same_ignoring_case,
    split_lines, string_of, to_lower, to_lower_char, trimmed,
};
use pouch::urls::web_scheme;

#[test]
fn characters_are_classed_as_in_std() {
    for c in (0u32..=0x10ffff).filter_map(char::from_u32) {
        assert_eq!(is_white_space(c), c.is_whitespace(), "{c:?}");
        assert_eq!(to_lower_char(c), c.to_ascii_lowercase(), "{c:?}");
    }
}

#[test]
fn texts_are_cut_as_in_std() {
    for s in ["", " a ", "\u{3000}a b\t", "\r\n", "a\r\nb\n\nc", "a\r", "a\n", "\n", "a\r\r\n"] {
        assert_eq!(trimmed(s), s.trim());
        let chars = chars_of(s);
        let lines: Vec<String> = split_lines(&chars).iter().map(|l| string_of(l)).collect();
        let expected: Vec<&str> = s.lines().collect();
        assert_eq!(lines, expected, "{s:?}");
    }
}

#[test]
fn texts_are_compared() {
    assert!(same("aé", "aé"));
    assert!(!same("a", "A"));
    assert!(same_ignoring_case("aÉ", "AÉ"));
    assert!(!same_ignoring_case("é", "É"));
    assert_eq!(to_lower("ABC-É"), "abc-É");
    assert!(has_text("abcabd", "abd"));
    assert!(has_text("abc", ""));
    assert!(!has_text("ab", "abc"));
    assert!(is_before(&['a'], &['a', 'b']));
    assert!(is_before(&['a', 'z'], &['b']));
    assert!(!is_before(&['a'], &['a']));
}

#[test]
fn numbers_are_written_and_read() {
    assert_eq!(number(0), "0");
    assert_eq!(number(1204), "1204");
    assert_eq!(number(usize::MAX), usize::MAX.to_string());
    for s in ["0", "007", "+5", "-5", "", "+", "1x", "340282366920938463463374607431768211456"] {
        assert_eq!(parse_number(&chars_of(s)), s.parse::<u128>().ok(), "{s:?}");
    }
}

#[test]
fn web_schemes() {
    assert!(web_scheme("http"));
    assert!(web_scheme("https"));
    assert!(!web_scheme("HTTP"));
    assert!(!web_scheme("ftp"));
}
