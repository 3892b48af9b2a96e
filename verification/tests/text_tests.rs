use rustle::text::{
    contains_str, decimal_text, parse_u64_text, same_text, sorted_unique, split_on, trim_end_char,
    trim_end_matching, trimmed,
};

#[test]
fn trimming_follows_str_trim() {
    for s in ["", "  ", " a b ", "\u{3000}x\u{2028}", "\t\n\r x\u{85}", "a\u{a0}"] {
        assert_eq!(trimmed(s), s.trim());
    }
}

#[test]
fn splitting_follows_str_split() {
    for s in ["", "|", "a|b||c", "abc", "|x|"] {
        let expected: Vec<String> = s.split('|').map(|p| p.to_string()).collect();
        assert_eq!(split_on(s, '|'), expected);
    }
}

#[test]
fn trailing_patterns() {
    assert_eq!(trim_end_char("a...", '.'), "a");
    assert_eq!(trim_end_matching("x.local.local", ".local"), "x");
    assert_eq!(trim_end_matching(".local", ".local"), "");
    assert_eq!(trim_end_matching("x.locale", ".local"), "x.locale");
}

#[test]
fn numbers() {
    for n in [0u64, 9, 10, 99, 100, 4294967296, u64::MAX] {
        assert_eq!(decimal_text(n), n.to_string());
        assert_eq!(parse_u64_text(&decimal_text(n)), Some(n));
    }
    assert_eq!(parse_u64_text("+5"), Some(5));
    assert_eq!(parse_u64_text("007"), Some(7));
    assert_eq!(parse_u64_text("+"), None);
    assert_eq!(parse_u64_text("-1"), None);
    assert_eq!(parse_u64_text("1 "), None);
    assert_eq!(parse_u64_text("18446744073709551616"), None);
}

#[test]
fn searching_and_comparing() {
    assert!(contains_str("an Error here", "Error"));
    assert!(contains_str("x", ""));
    assert!(!contains_str("err", "Error"));
    assert!(same_text("abc", "abc"));
    assert!(!same_text("abc", "abd"));
}

#[test]
fn sorting_matches_sort_and_dedup() {
    let items: Vec<String> = ["b", "a", "ä", "B", "a", "", "ab", "b"].iter().map(|s| s.to_string()).collect();
    let mut expected = items.clone();
    expected.sort();
    expected.dedup();
    assert_eq!(sorted_unique(items), expected);
}
