use object_store::name_map::NameMap;
use object_store::tables::stable_order;
use object_store::text::{
    chars_of, comes_before, contains_text, decimal, hex, insert_ascending, join2, join3,
    parse_unsigned, same_text, split_on, starts_with, text_of, trim,
};

#[test]
fn numbers_are_written_and_read() {
    for n in [0, 7, 10, 99, 100, 1024, 10_737_418_240, u64::MAX] {
        assert_eq!(decimal(n), n.to_string());
        assert_eq!(parse_unsigned(&decimal(n), u64::MAX), Some(n));
    }
    for n in [0, 9, 10, 15, 16, 0xAB, 0x43484B01, u32::MAX] {
        assert_eq!(hex(n), format!("{:X}", n));
    }
    for text in ["", "+", "-0", " 1", "1 ", "1_0", "0x1", "\u{663}"] {
        assert_eq!(parse_unsigned(text, u64::MAX), None, "{:?}", text);
        assert!(text.parse::<u64>().is_err());
    }
    for text in ["+5", "007", "65535"] {
        assert_eq!(parse_unsigned(text, 65535), Some(text.parse::<u64>().unwrap()));
    }
    assert_eq!(parse_unsigned("65536", 65535), None);
    assert_eq!(parse_unsigned("5", 4), None);
}

#[test]
fn texts_are_trimmed_and_split() {
    for text in ["", "  ", " a b\t", "\u{a0}x\u{2003}", "\u{200b}y", "\u{85}z\r\n"] {
        assert_eq!(trim(text), text.trim());
    }
    for text in ["", "a", ",", "a,b", ",a,,b,"] {
        assert_eq!(split_on(text, ','), text.split(',').collect::<Vec<&str>>());
    }
}

#[test]
fn every_white_space_is_white_space() {
    for code in 0..=0x10ffff {
        if let Some(c) = char::from_u32(code) {
            let text = c.to_string();
            assert_eq!(trim(&text).is_empty(), c.is_whitespace(), "{:x}", code);
        }
    }
}

#[test]
fn texts_are_searched() {
    assert!(starts_with("http://a", "http://"));
    assert!(!starts_with("http:/", "http://"));
    assert!(starts_with("a", ""));
    assert!(contains_text("abcabd", "abd"));
    assert!(!contains_text("abcab", "abd"));
    assert!(contains_text("", ""));
    assert!(!contains_text("", "a"));
}

#[test]
fn texts_are_joined_and_compared() {
    assert_eq!(join2("a", "\u{e9}"), "a\u{e9}");
    assert_eq!(join3("x", "", "z"), "xz");
    assert!(same_text("ab", "ab") && !same_text("ab", "a"));
    assert_eq!(text_of(&chars_of("h\u{e9}llo"), 1, 3), "\u{e9}l");
    let words = ["", "a", "ab", "b", "\u{e9}", "\u{ffff}", "\u{10000}"];
    for a in words {
        for b in words {
            assert_eq!(comes_before(a, b), a < b);
        }
    }
    let mut list = Vec::new();
    for word in ["b", "a", "c", "a", "b"] {
        insert_ascending(&mut list, word);
    }
    assert_eq!(list, vec!["a", "b", "c"]);
}

#[test]
fn ties_stay_in_order() {
    assert_eq!(stable_order(&vec![3, 1, 2, 1, 3, 0]), vec![5, 1, 3, 2, 0, 4]);
    assert!(stable_order(&vec![]).is_empty());
}

#[test]
fn name_maps_find_what_was_put_in() {
    let mut map: NameMap<u32> = NameMap::new();
    assert!(map.is_empty());
    map.insert("a".to_string(), 1);
    map.insert("b".to_string(), 2);
    map.insert("c".to_string(), 3);
    map.insert("b".to_string(), 20);
    assert_eq!(map.len(), 3);
    assert_eq!(map.get("b"), Some(&20));
    *map.get_mut("c").unwrap() += 1;
    assert_eq!(map.remove("a"), Some(1));
    assert_eq!(map.remove("a"), None);
    assert!(map.get_mut("a").is_none());
    assert!(!map.contains_key("a") && map.contains_key("c"));
    let mut seen: Vec<(String, u32)> =
        (0..map.len()).map(|i| (map.name_at(i).clone(), *map.value_at(i))).collect();
    seen.sort();
    assert_eq!(seen, vec![("b".to_string(), 20), ("c".to_string(), 4)]);
}
