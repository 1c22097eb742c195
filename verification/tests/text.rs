use balances_watcher::text::{decimal_text, joined, parse_number, parse_usize, reads};

#[test]
fn numbers_are_written_and_read_back() {
    for n in [0, 9, 10, 99, 100, 101, 4_294_967_296, u64::MAX] {
        let text = decimal_text(n);
        assert_eq!(text, n.to_string());
        assert_eq!(parse_number(&text, u64::MAX), Some(n));
    }
}

#[test]
fn reading_agrees_with_the_standard_library() {
    for text in [
        "", "+", "-", "-0", "+7", "++7", "7+", " 7", "7 ", "007", "1_000", "1e3", "\u{663}",
        "18446744073709551615", "18446744073709551616", "99999999999999999999999",
        "00000000000000000000000000001",
    ] {
        assert_eq!(parse_number(text, u64::MAX), text.parse::<u64>().ok(), "{text:?}");
        assert_eq!(parse_usize(text), text.parse::<usize>().ok(), "{text:?}");
    }
}

#[test]
fn reading_is_bounded() {
    assert_eq!(parse_number("255", 255), Some(255));
    assert_eq!(parse_number("256", 255), None);
    assert_eq!(parse_number("0", 0), Some(0));
    assert_eq!(parse_number("1", 0), None);
}

#[test]
fn texts_are_joined_and_compared() {
    assert_eq!(joined("a", "bc"), "abc");
    assert!(reads(&"abc".to_string(), "abc"));
    assert!(!reads(&"abc".to_string(), "ab"));
}
