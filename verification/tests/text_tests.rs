use teshi::numfmt::decimal_string;
use teshi::text::{
    chars_of, contains_str, join_strings, join_words, split_lines, split_on_char, split_words, string_of,
    trim_chars,
};

fn text(cs: &Vec<char>) -> String {
    string_of(cs)
}

#[test]
fn decimal_strings() {
    assert_eq!(decimal_string(0), "0");
    assert_eq!(decimal_string(7), "7");
    assert_eq!(decimal_string(42), "42");
    assert_eq!(decimal_string(1000), "1000");
    assert_eq!(decimal_string(u64::MAX), "18446744073709551615");
}

#[test]
fn words_split_on_any_white_space() {
    let ws = split_words(&chars_of(" \tI  am\u{3000}here \n"));
    let got: Vec<String> = ws.iter().map(text).collect();
    assert_eq!(got, vec!["I", "am", "here"]);
    assert_eq!(text(&join_words(&ws)), "I am here");
    assert!(split_words(&chars_of("   ")).is_empty());
}

#[test]
fn trimming_removes_white_space_at_both_ends() {
    assert_eq!(text(&trim_chars(&chars_of("\t a b \u{a0}"))), "a b");
    assert_eq!(text(&trim_chars(&chars_of(""))), "");
}

#[test]
fn lines_follow_str_lines() {
    let got: Vec<String> = split_lines(&chars_of("a\r\nb\n\nc\n")).iter().map(text).collect();
    assert_eq!(got, vec!["a", "b", "", "c"]);
    assert!(split_lines(&chars_of("")).is_empty());
    let got: Vec<String> = split_lines(&chars_of("x")).iter().map(text).collect();
    assert_eq!(got, vec!["x"]);
}

#[test]
fn split_on_a_character() {
    let got: Vec<String> = split_on_char(&chars_of("| a | b |"), '|').iter().map(text).collect();
    assert_eq!(got, vec!["", " a ", " b ", ""]);
}

#[test]
fn joining_and_containment() {
    let ws = vec!["a".to_string(), "b".to_string(), "c".to_string()];
    assert_eq!(join_strings(&ws, ", "), "a, b, c");
    assert_eq!(join_strings(&vec![], ", "), "");
    assert!(contains_str("hello world", "o w"));
    assert!(contains_str("abc", ""));
    assert!(!contains_str("abc", "abcd"));
    assert!(!contains_str("", "a"));
}

#[test]
fn trimming_agrees_with_std_on_every_char() {
    for u in 0u32..=0x10FFFF {
        if let Some(c) = char::from_u32(u) {
            let s = format!("{}a{}", c, c);
            let got: String = trim_chars(&s.chars().collect()).into_iter().collect();
            assert_eq!(got, s.trim(), "code point {:#x}", u);
        }
    }
}
