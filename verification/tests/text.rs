use bosync::text::{
    chars_of, is_blank, is_white_space, join, position, replace, split, string_of, trim,
};

#[test]
fn white_space_is_that_of_unicode() {
    for code in 0..=0x10ffffu32 {
        if let Some(c) = char::from_u32(code) {
            assert_eq!(is_white_space(c), c.is_whitespace(), "{code:x}");
        }
    }
}

#[test]
fn blank_lines_are_recognized() {
    assert!(is_blank(""));
    assert!(is_blank(" \t\r\u{a0}"));
    assert!(!is_blank(" {} "));
}

#[test]
fn trimming_agrees_with_the_standard_library() {
    for s in ["", "  ", " a b ", "\u{3000}x\n", "x"] {
        assert_eq!(string_of(trim(&chars_of(s))), s.trim());
    }
}

#[test]
fn splitting_and_joining_round_trip() {
    for s in ["", "/", "a/b", "a//b/", "no separator"] {
        let parts = split(&chars_of(s), '/');
        assert_eq!(parts, s.split('/').map(String::from).collect::<Vec<_>>());
        assert_eq!(join(&parts, "/"), s);
    }
}

#[test]
fn patterns_are_found_where_they_first_occur() {
    assert_eq!(position(&chars_of("a://b://"), &chars_of("://")), Some(1));
    assert_eq!(position(&chars_of("a:/"), &chars_of("://")), None);
    assert_eq!(position(&chars_of("abc"), &[]), Some(0));
    assert_eq!(string_of(&replace(&chars_of("a/b/c"), '/', '\\')), r"a\b\c");
}
