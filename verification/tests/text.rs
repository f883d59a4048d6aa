use spacetime_token::registry::ensure_registry;
use spacetime_token::text::{
    char_is_white_space, is_blank, str_ends_with, str_equals, str_first_index_of,
    str_starts_with, str_without_suffix,
};
use toml_edit::DocumentMut;

#[test]
fn white_space_is_what_unicode_says() {
    for code in 0..=0x10ffffu32 {
        if let Some(c) = char::from_u32(code) {
            assert_eq!(char_is_white_space(c), c.is_whitespace(), "U+{:04X}", code);
        }
    }
}

#[test]
fn blank_texts_are_those_that_trim_to_nothing() {
    for text in ["", " ", "\n\n", "\t \r\n", "\u{2003}\u{feff}", " a ", "\u{200b}", "\u{1680}"] {
        assert_eq!(is_blank(text), text.trim().is_empty(), "{:?}", text);
    }
}

#[test]
fn texts_are_equal_character_by_character() {
    assert!(str_equals("", ""));
    assert!(str_equals("héllo", "héllo"));
    assert!(!str_equals("hello", "hellO"));
    assert!(!str_equals("hello", "hell"));
    assert!(!str_equals("e\u{301}", "é"));
}

#[test]
fn prefixes_and_suffixes() {
    assert!(str_starts_with("https://x", "https://"));
    assert!(!str_starts_with("http://x", "https://"));
    assert!(str_starts_with("abc", ""));
    assert!(!str_starts_with("ab", "abc"));
    assert!(str_ends_with("a/spacetime", "/spacetime"));
    assert!(!str_ends_with("spacetime", "/spacetime"));
    assert!(str_ends_with("é", "é"));
    assert!(str_ends_with("abc", ""));
}

#[test]
fn a_suffix_is_taken_once() {
    assert_eq!(str_without_suffix("a//", "/"), "a/");
    assert_eq!(str_without_suffix("a", "/"), "a");
    assert_eq!(str_without_suffix("/", "/"), "");
    assert_eq!(str_without_suffix("", "/"), "");
}

#[test]
fn the_first_occurrence_is_counted_in_characters() {
    assert_eq!(str_first_index_of("a/b/c", '/'), 1);
    assert_eq!(str_first_index_of("abc", '/'), 3);
    assert_eq!(str_first_index_of("", '/'), 0);
    assert_eq!(str_first_index_of("éé/", '/'), 2);
}

#[test]
fn a_registry_is_only_created_where_it_is_missing() {
    let mut empty = DocumentMut::new();
    ensure_registry(&mut empty);
    assert!(empty.get("server_configs").unwrap().as_array_of_tables().unwrap().is_empty());
    let text = "[[server_configs]]\nnickname = \"a\"\n";
    let mut full: DocumentMut = text.parse().unwrap();
    ensure_registry(&mut full);
    assert_eq!(full.to_string(), text);
    let mut other: DocumentMut = "server_configs = \"x\"\n".parse().unwrap();
    ensure_registry(&mut other);
    assert_eq!(other.to_string(), "server_configs = \"x\"\n");
}
