use abs::order::sorted_positions;
use abs::paths::path_key_of;
use abs::text::{
    chars_string, first_word_of, parse_u32_chars, parse_usize_chars, push_decimal,
    remove_char_chars, split_chars, str_chars, str_eq, trim_chars,
};

fn cs(s: &str) -> Vec<char> {
    s.chars().collect()
}

#[test]
fn trims_unicode_whitespace() {
    assert_eq!(trim_chars(&cs("\u{a0}\t x y \n\u{2003}")), cs("x y"));
    assert_eq!(trim_chars(&cs("   ")), cs(""));
}

#[test]
fn splits_and_removes() {
    assert_eq!(split_chars(&cs("a,,b,"), ','), vec![cs("a"), cs(""), cs("b"), cs("")]);
    assert_eq!(split_chars(&cs(""), ','), vec![cs("")]);
    assert_eq!(remove_char_chars(&cs(" 1 , 2 "), ' '), cs("1,2"));
}

#[test]
fn numbers() {
    assert_eq!(parse_usize_chars(&cs("+42")), Some(42));
    assert_eq!(parse_usize_chars(&cs("")), None);
    assert_eq!(parse_usize_chars(&cs("4 2")), None);
    assert_eq!(parse_u32_chars(&cs("4294967295")), Some(u32::MAX));
    assert_eq!(parse_u32_chars(&cs("4294967296")), None);
    let mut v = cs("x");
    push_decimal(&mut v, 1907);
    assert_eq!(v, cs("x1907"));
}

#[test]
fn words_and_strings() {
    assert_eq!(first_word_of("\n  pacman 7.0\n"), Some("pacman".to_string()));
    assert_eq!(first_word_of(" \t"), None);
    assert_eq!(chars_string(&str_chars("héllo")), "héllo");
    assert!(str_eq("abc", "abc"));
    assert!(!str_eq("abc", "abd"));
}

#[test]
fn path_components() {
    assert_eq!(path_key_of("/a//b/./c/"), path_key_of("/a/b/c"));
    assert_ne!(path_key_of("a/b"), path_key_of("/a/b"));
    assert_eq!(path_key_of("./a").len(), 2);
    assert_eq!(path_key_of("a/../b").len(), 3);
}

#[test]
fn positions_by_key() {
    let keys = vec![vec![cs("b")], vec![cs("a"), cs("z")], vec![cs("a")]];
    assert_eq!(sorted_positions(&keys), vec![2, 1, 0]);
}

#[test]
fn whitespace_matches_std() {
    for u in 0u32..=0x10ffff {
        if let Some(c) = char::from_u32(u) {
            assert_eq!(trim_chars(&vec![c]).is_empty(), c.is_whitespace(), "{:x}", u);
        }
    }
}
