use gguf_loader::name_map::NameMap;
use gguf_loader::text::{contains, decimal, is_u64_numeral, same_text, split_once, strip_prefix, strip_suffix};

#[test]
fn a_map_holds_the_last_value_of_each_name() {
    let mut map = NameMap::new();
    map.insert("a".to_string(), 1);
    map.insert("b".to_string(), 2);
    map.insert("a".to_string(), 3);
    assert_eq!(map.get("a"), Some(&3));
    assert_eq!(map.get("b"), Some(&2));
    assert_eq!(map.get("c"), None);
    map.remove("a");
    map.remove("c");
    assert_eq!(map.get("a"), None);
    assert_eq!(map.get("b"), Some(&2));
}

#[test]
fn texts_are_taken_apart_by_character() {
    assert!(same_text("h\u{e9}", "h\u{e9}"));
    assert!(!same_text("h\u{e9}", "he"));
    assert_eq!(strip_prefix("\u{e9}ab", "\u{e9}"), Some("ab"));
    assert_eq!(strip_prefix("ab", "abc"), None);
    assert_eq!(strip_suffix("ab\u{e9}", "b\u{e9}"), Some("a"));
    assert_eq!(strip_suffix("ab", "a"), None);
    assert_eq!(split_once("a \u{e9} b", ' '), Some(("a", "\u{e9} b")));
    assert_eq!(split_once("ab", ' '), None);
    assert!(contains("a\u{e9}proj.x", "proj"));
    assert!(!contains("pro.j", "proj"));
    assert!(contains("", ""));
}

#[test]
fn numerals_are_those_of_the_machine() {
    for text in [
        "0", "7", "+7", "007", "18446744073709551615", "18446744073709551616", "", "+", "-1",
        "1a", " 1", "++1", "000000000000000000000000000001",
    ] {
        assert_eq!(is_u64_numeral(text), text.parse::<u64>().is_ok(), "{text}");
    }
    for number in [0u64, 9, 10, 1234567890, u64::MAX] {
        assert_eq!(decimal(number), number.to_string());
    }
}
