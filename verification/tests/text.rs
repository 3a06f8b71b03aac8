use translation_fiesta_rust::text::{
    char_is_ascii_alphabetic, char_is_ascii_alphanumeric, char_is_whitespace,
    char_to_ascii_lower, chars_of, contains_chars, ends_with_chars, is_blank, lowercase_text,
    same_text, string_from_chars, to_ascii_lowercase, trim_bounds, trimmed, trimmed_if_present,
    trimmed_lowercase,
};

#[test]
fn white_space_is_what_the_standard_library_says() {
    for code in 0..=0x3100u32 {
        if let Some(c) = char::from_u32(code) {
            assert_eq!(char_is_whitespace(c), c.is_whitespace(), "U+{:04X}", code);
        }
    }
    assert!(!char_is_whitespace('\u{feff}'));
    assert!(!char_is_whitespace('\u{10ffff}'));
}

#[test]
fn letters_and_digits_are_what_the_standard_library_says() {
    for code in 0..=0x400u32 {
        if let Some(c) = char::from_u32(code) {
            assert_eq!(char_is_ascii_alphabetic(c), c.is_ascii_alphabetic(), "U+{:04X}", code);
            assert_eq!(char_is_ascii_alphanumeric(c), c.is_ascii_alphanumeric(), "U+{:04X}", code);
            assert_eq!(char_to_ascii_lower(c), c.to_ascii_lowercase(), "U+{:04X}", code);
        }
    }
}

#[test]
fn trims_like_the_standard_library() {
    for text in [
        "", " ", "a", " a", "a ", "  a b  ", "\t\na\r\n", "\u{a0}x\u{3000}", "\u{2003}\u{2003}",
        "no-trim", " \u{feff} ",
    ] {
        assert_eq!(trimmed(text), text.trim(), "{:?}", text);
        assert_eq!(is_blank(text), text.trim().is_empty(), "{:?}", text);
        let chars = chars_of(text);
        let (lo, hi) = trim_bounds(&chars);
        let kept: String = chars[lo..hi].iter().collect();
        assert_eq!(kept, text.trim(), "{:?}", text);
    }
}

#[test]
fn converts_between_strings_and_characters() {
    let text = "a\u{e9}\u{3053}\u{1f600}z";
    let chars = chars_of(text);
    assert_eq!(chars, text.chars().collect::<Vec<char>>());
    assert_eq!(string_from_chars(&chars), text);
    assert_eq!(string_from_chars(&Vec::new()), "");
}

#[test]
fn lowers_only_ascii_capitals() {
    assert_eq!(lowercase_text("AbC \u{c9}\u{3a9}Z"), "abc \u{c9}\u{3a9}z");
    assert_eq!(trimmed_lowercase("  PT-br\n"), "pt-br");
    assert_eq!(
        to_ascii_lowercase(&chars_of("HTML")),
        vec!['h', 't', 'm', 'l']
    );
}

#[test]
fn compares_texts() {
    assert!(same_text("", ""));
    assert!(same_text("ab\u{3053}", "ab\u{3053}"));
    assert!(!same_text("ab", "abc"));
    assert!(!same_text("ab", "aB"));
}

#[test]
fn finds_runs_of_characters() {
    let hay = chars_of("say <HTML> twice: <html>");
    assert!(contains_chars(&hay, &chars_of("<html")));
    assert!(contains_chars(&hay, &chars_of("")));
    assert!(contains_chars(&hay, &chars_of("say")));
    assert!(contains_chars(&hay, &chars_of("<html>")));
    assert!(!contains_chars(&hay, &chars_of("<html>x")));
    assert!(!contains_chars(&chars_of("ab"), &chars_of("abc")));
    assert!(contains_chars(&Vec::new(), &Vec::new()));
    assert!(ends_with_chars(&hay, "<html>"));
    assert!(ends_with_chars(&hay, ""));
    assert!(!ends_with_chars(&hay, "<HTML>"));
    assert!(!ends_with_chars(&chars_of("ml"), "html"));
}

#[test]
fn keeps_a_value_that_is_present() {
    assert_eq!(trimmed_if_present(None), None);
    assert_eq!(trimmed_if_present(Some("   ")), None);
    assert_eq!(trimmed_if_present(Some(" x y ")), Some("x y".to_string()));
}
