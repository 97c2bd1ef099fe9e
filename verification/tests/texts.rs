//! Texts, numbers and maps of texts.

use infisical::number::{decimal_text, parse_whole_number};
use infisical::replacers::Replacers;
use infisical::string_map::StringMap;
use infisical::text::{cut, pieces, same_but_for_case, same_text, starts_with, strip_trailing, trim};

#[test]
fn numbers_are_read_as_they_are_written() {
    for n in [0, 7, 10, 99, 100, 12345678901234567890, u64::MAX] {
        assert_eq!(decimal_text(n), n.to_string());
        assert_eq!(parse_whole_number(&decimal_text(n)), Some(n));
    }
}

#[test]
fn only_whole_numbers_are_read() {
    for text in ["", "+", "-1", "1 ", "1.0", "a", "18446744073709551616", "++1", "1+"] {
        assert_eq!(parse_whole_number(text), text.parse::<u64>().ok(), "{text}");
    }
    for text in ["+5", "007", "18446744073709551615"] {
        assert_eq!(parse_whole_number(text), text.parse::<u64>().ok(), "{text}");
    }
}

#[test]
fn white_space_is_trimmed() {
    for text in ["", " ", " a b\t\n", "\u{a0}x\u{3000}", "\u{85}y\u{2028}", "\u{200b}z", "\u{1680}"] {
        assert_eq!(trim(text), text.trim(), "{text:?}");
    }
    assert_eq!(strip_trailing("http://x//", '/'), "http://x");
    assert_eq!(strip_trailing("//", '/'), "");
    assert_eq!(strip_trailing("/x", '/'), "/x");
}

#[test]
fn texts_are_cut_at_the_first_match() {
    assert_eq!(cut("a=b=c", "="), Some(("a".to_string(), "b=c".to_string())));
    assert_eq!(cut("abc", "="), None);
    assert_eq!(pieces("a,,b", ","), vec!["a".to_string(), "".to_string(), "b".to_string()]);
    assert_eq!(pieces("[[[x", "[["), vec!["".to_string(), "[x".to_string()]);
    assert_eq!(pieces("", ","), vec!["".to_string()]);
    assert!(starts_with("infisical://x", "infisical://"));
    assert!(!starts_with("infisical:/", "infisical://"));
    assert!(same_text("a", "a") && !same_text("a", "b") && !same_text("a", "ab"));
    assert!(same_but_for_case("TrUe", "true") && !same_but_for_case("tru", "true"));
}

#[test]
fn map_holds_the_last_value() {
    let mut map = StringMap::new();
    assert!(map.is_empty());
    map.insert("a".to_string(), "1".to_string());
    map.insert("b".to_string(), "2".to_string());
    map.insert("a".to_string(), "3".to_string());
    assert_eq!(map.len(), 2);
    assert_eq!(map.get("a").map(String::as_str), Some("3"));
    assert!(map.contains_key("b") && !map.contains_key("c"));
    let mut other = StringMap::new();
    other.insert("a".to_string(), "x".to_string());
    other.insert("c".to_string(), "y".to_string());
    let mut overwritten = map.clone();
    overwritten.extend(&other);
    assert_eq!(overwritten.get("a").map(String::as_str), Some("x"));
    assert_eq!(overwritten.len(), 3);
    let mut kept = map.clone();
    kept.extend_missing(&other);
    assert_eq!(kept.get("a").map(String::as_str), Some("3"));
    assert_eq!(kept.get("c").map(String::as_str), Some("y"));
    assert_eq!(kept.entries().len(), 3);
}

#[test]
fn replacers_hold_each_pair_once() {
    let mut replacers = Replacers::new();
    assert!(replacers.is_empty());
    replacers.insert("v".to_string(), "n".to_string());
    replacers.extend(vec![
        ("v".to_string(), "n".to_string()),
        ("v".to_string(), "m".to_string()),
    ]);
    assert_eq!(replacers.pairs().len(), 2);
    assert!(replacers.contains("v", "m") && !replacers.contains("m", "v"));
}
