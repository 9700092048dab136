use giff::names::NameMap;
use giff::text::{
    contains, decimal, join, parse_number, split_lines, split_words, text_precedes, trim, trim_end,
};

#[test]
fn names_are_found_again() {
    let mut map: NameMap<usize> = NameMap::new();
    assert_eq!(map.insert("b".to_string(), 1), None);
    assert_eq!(map.insert("a".to_string(), 2), None);
    assert_eq!(map.insert("b".to_string(), 3), Some(1));
    assert_eq!(map.get("b"), Some(&3));
    assert_eq!(map.get("c"), None);
    assert!(map.contains_key("a"));
    assert_eq!(map.entries().len(), 2);
    map.keep_flagged(&vec![false, true]);
    assert_eq!(map.sorted_names(), vec!["a".to_string()]);
    map.clear();
    assert!(!map.contains_key("a"));
}

#[test]
fn names_are_sorted_like_strings() {
    let names = ["b", "", "ab", "B", "a/b", "a", "é", "z", "€", "😀", "a.b"];
    let mut map: NameMap<u8> = NameMap::new();
    for name in names {
        map.insert(name.to_string(), 0);
    }
    let mut expected: Vec<String> = names.iter().map(|s| s.to_string()).collect();
    expected.sort();
    assert_eq!(map.sorted_names(), expected);
    for a in names {
        for b in names {
            assert_eq!(text_precedes(a, b), a < b);
        }
    }
}

#[test]
fn lines_split_as_strings_do() {
    for text in ["", "a", "a\n", "\n", "a\r\nb\r\n", "a\r", "a\n\r\n\nb", "\r\r\n"] {
        let expected: Vec<&str> = text.lines().collect();
        assert_eq!(split_lines(text), expected);
    }
}

#[test]
fn white_space_is_cut_as_strings_do() {
    for text in ["", " a ", "\t\r\n", "a b", "\u{a0}x\u{2003}\u{3000}", "\u{200b}x\u{85}", "x\u{1680}"] {
        assert_eq!(trim(text), text.trim());
        assert_eq!(trim_end(text), text.trim_end());
        let words: Vec<&str> = text.split_whitespace().collect();
        assert_eq!(split_words(text), words);
    }
}

#[test]
fn every_white_space_character_is_known() {
    for c in '\u{0}'..='\u{3100}' {
        assert_eq!(trim(&c.to_string()).is_empty(), c.is_whitespace());
    }
}

#[test]
fn numbers_are_read_as_strings_are() {
    let max = usize::MAX.to_string();
    for text in ["", "0", "7", "007", "+5", "-5", "+", "1a", " 1", "٣", &max, &format!("{}0", max)] {
        assert_eq!(parse_number(text), text.parse::<usize>().ok());
    }
    for n in [0, 9, 10, 120, usize::MAX] {
        assert_eq!(decimal(n), n.to_string());
    }
}

#[test]
fn texts_are_joined_and_searched() {
    let parts: Vec<String> = ["a", "", "b"].iter().map(|s| s.to_string()).collect();
    assert_eq!(join(&parts, ", "), "a, , b");
    assert_eq!(join(&[], ", "), "");
    assert!(contains("behind", "hin"));
    assert!(contains("x", ""));
    assert!(!contains("ahead", "behind"));
}
