use financial_rag::text::{
    chars_of, format_i64, format_usize, is_blank, join_with_spaces, split_char,
    split_whitespace, str_equal, trim_str,
};

#[test]
fn split_whitespace_yields_maximal_runs() {
    let words = split_whitespace("  Item 1A.\tRisk\n\nFactors  ");
    assert_eq!(words, vec!["Item", "1A.", "Risk", "Factors"]);
}

#[test]
fn split_whitespace_of_blank_text_is_empty() {
    assert!(split_whitespace("").is_empty());
    assert!(split_whitespace(" \t\n\u{a0}\u{3000}").is_empty());
}

#[test]
fn split_whitespace_uses_unicode_white_space() {
    let words = split_whitespace("net\u{2003}income\u{85}rose");
    assert_eq!(words, vec!["net", "income", "rose"]);
}

#[test]
fn join_then_split_gives_words_back() {
    let words: Vec<String> = vec!["Total".into(), "revenue".into(), "$383,285M".into()];
    let joined = join_with_spaces(&words, 0, 3);
    assert_eq!(joined, "Total revenue $383,285M");
    assert_eq!(split_whitespace(&joined), words);
}

#[test]
fn join_a_middle_range() {
    let words: Vec<String> = vec!["a".into(), "b".into(), "c".into(), "d".into()];
    assert_eq!(join_with_spaces(&words, 1, 3), "b c");
    assert_eq!(join_with_spaces(&words, 2, 2), "");
}

#[test]
fn trim_removes_white_space_at_both_ends() {
    assert_eq!(trim_str("  \t hello world \n"), "hello world");
    assert_eq!(trim_str("   "), "");
    assert_eq!(trim_str("x"), "x");
    assert_eq!(trim_str("\u{a0}x y\u{2028}"), "x y");
}

#[test]
fn blank_text_is_detected() {
    assert!(is_blank(""));
    assert!(is_blank(" \n\t "));
    assert!(!is_blank(" a "));
}

#[test]
fn decimal_rendering_matches_display() {
    assert_eq!(format_usize(0), "0");
    assert_eq!(format_usize(7), "7");
    assert_eq!(format_usize(1234567890), "1234567890");
    assert_eq!(format_usize(usize::MAX), usize::MAX.to_string());
    assert_eq!(format_i64(-42), "-42");
    assert_eq!(format_i64(i64::MIN), i64::MIN.to_string());
    assert_eq!(format_i64(i64::MAX), i64::MAX.to_string());
}

#[test]
fn split_char_keeps_empty_pieces() {
    assert_eq!(split_char("a.b.c", '.'), vec!["a", "b", "c"]);
    assert_eq!(split_char("", '.'), vec![""]);
    assert_eq!(split_char("..", '.'), vec!["", "", ""]);
    assert_eq!(split_char("abc", '.'), vec!["abc"]);
}

#[test]
fn string_equality_and_characters() {
    assert!(str_equal("Body", "Body"));
    assert!(!str_equal("Body", "body"));
    assert!(!str_equal("Body", "Bod"));
    assert_eq!(chars_of("héllo"), vec!['h', 'é', 'l', 'l', 'o']);
}

#[test]
fn blank_agrees_with_std_whitespace_on_every_char() {
    for code in 0u32..=0x10FFFF {
        if let Some(c) = char::from_u32(code) {
            assert_eq!(is_blank(&c.to_string()), c.is_whitespace(), "char {:#x}", code);
        }
    }
}
