use bitcoin_dashboard::text::{decimal_string, list_contains, parse_usize, text_contains, text_eq};

#[test]
fn decimal_rendering() {
    assert_eq!(decimal_string(0), "0");
    assert_eq!(decimal_string(7), "7");
    assert_eq!(decimal_string(10), "10");
    assert_eq!(decimal_string(5432), "5432");
    assert_eq!(decimal_string(u64::MAX), "18446744073709551615");
}

#[test]
fn usize_parsing_like_std() {
    assert_eq!(parse_usize("0"), Some(0));
    assert_eq!(parse_usize("5"), Some(5));
    assert_eq!(parse_usize("+3"), Some(3));
    assert_eq!(parse_usize("007"), Some(7));
    assert_eq!(parse_usize(""), None);
    assert_eq!(parse_usize("+"), None);
    assert_eq!(parse_usize("-1"), None);
    assert_eq!(parse_usize(" 1"), None);
    assert_eq!(parse_usize("1a"), None);
    assert_eq!(parse_usize("99999999999999999999999999"), None);
    for s in ["0", "12", "+4", "x", "", "-0", "18446744073709551615", "18446744073709551616"] {
        assert_eq!(parse_usize(s), s.parse::<usize>().ok(), "input {:?}", s);
    }
}

#[test]
fn substring_search() {
    assert!(text_contains("Wallet file verification failed. Path does not exist", "Path does not exist"));
    assert!(text_contains("database is locked", "lock"));
    assert!(!text_contains("loc", "lock"));
    assert!(text_contains("anything", ""));
    assert!(text_contains("lock", "lock"));
    assert!(!text_contains("", "a"));
}

#[test]
fn equality_and_membership() {
    assert!(text_eq("abc", "abc"));
    assert!(!text_eq("abc", "abd"));
    let names = vec!["miner_wallet".to_string(), "student".to_string()];
    assert!(list_contains(&names, "student"));
    assert!(!list_contains(&names, "Student"));
    assert!(!list_contains(&Vec::new(), "student"));
}
