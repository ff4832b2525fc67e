use protoc_plugin::label::{label_less, piece_less};
use protoc_plugin::text::{
    count_char, decimal_string, find_char, is_all_digits, occurs_at, pad_with_zeros,
    parse_number, same_text, substitute, text_less,
};

#[test]
fn finds_the_first_occurrence() {
    assert_eq!(find_char("1.2-rc-3", '-'), 3);
    assert_eq!(find_char("-1", '-'), 0);
    assert_eq!(find_char("1.2", '-'), 3);
    assert_eq!(find_char("", '-'), 0);
    assert_eq!(find_char("héllo-x", '-'), 5);
}

#[test]
fn counts_occurrences() {
    assert_eq!(count_char("1.2.3", '.'), 2);
    assert_eq!(count_char("...", '.'), 3);
    assert_eq!(count_char("123", '.'), 0);
    assert_eq!(count_char("", '.'), 0);
}

#[test]
fn compares_texts() {
    assert!(same_text("latest", "latest"));
    assert!(same_text("", ""));
    assert!(!same_text("latest", "Latest"));
    assert!(!same_text("latest", "lates"));
}

#[test]
fn tells_where_a_token_stands() {
    assert!(occurs_at("a{file}b", 1, "{file}"));
    assert!(!occurs_at("a{file}b", 0, "{file}"));
    assert!(!occurs_at("a{file}b", 2, "{file}"));
    assert!(!occurs_at("a{fil", 1, "{file}"));
    assert!(!occurs_at("abc", 1, ""));
    assert!(!occurs_at("abc", 3, "c"));
    assert!(occurs_at("abc", 2, "c"));
}

#[test]
fn substitutes_every_occurrence() {
    assert_eq!(substitute("v{version}/{file}", "{version}", "28.3"), "v28.3/{file}");
    assert_eq!(substitute("{file}{file}", "{file}", "a.zip"), "a.zipa.zip");
    assert_eq!(substitute("no token", "{file}", "a.zip"), "no token");
    assert_eq!(substitute("", "{file}", "a.zip"), "");
    assert_eq!(substitute("{file", "{file}", "a.zip"), "{file");
    assert_eq!(substitute("{file}", "{file}", ""), "");
    assert_eq!(substitute("é{file}ü", "{file}", "ß"), "éßü");
}

#[test]
fn substitutes_from_left_to_right() {
    assert_eq!(substitute("aaa", "aa", "b"), "ba");
    assert_eq!(substitute("aaaa", "aa", "b"), "bb");
    assert_eq!(substitute("abab", "ab", "aba"), "abaaba");
    assert_eq!(substitute("x", "x", "xx"), "xx");
}

#[test]
fn finds_no_empty_token() {
    assert_eq!(substitute("abc", "", "-"), "abc");
    assert_eq!(substitute("", "", "-"), "");
}

#[test]
fn writes_decimal_numbers() {
    assert_eq!(decimal_string(0), "0");
    assert_eq!(decimal_string(7), "7");
    assert_eq!(decimal_string(10), "10");
    assert_eq!(decimal_string(41), "41");
    assert_eq!(decimal_string(1234567890), "1234567890");
    assert_eq!(decimal_string(u64::MAX), "18446744073709551615");
}

#[test]
fn reads_decimal_numbers() {
    assert_eq!(parse_number("0"), Some(0));
    assert_eq!(parse_number("41"), Some(41));
    assert_eq!(parse_number("007"), Some(7));
    assert_eq!(parse_number("18446744073709551615"), Some(u64::MAX));
    assert_eq!(parse_number("18446744073709551616"), None);
    assert_eq!(parse_number("99999999999999999999999"), None);
    assert_eq!(parse_number("000018446744073709551615"), Some(u64::MAX));
    assert_eq!(parse_number(""), None);
    assert_eq!(parse_number("12a"), None);
    assert_eq!(parse_number("+1"), None);
    assert_eq!(parse_number("-1"), None);
    assert_eq!(parse_number(" 1"), None);
    assert_eq!(parse_number("1.0"), None);
    assert_eq!(parse_number("٣"), None);
}

#[test]
fn reads_back_what_it_writes() {
    for n in [0, 1, 9, 10, 99, 100, 28, 4096, u64::MAX - 1, u64::MAX] {
        assert_eq!(parse_number(&decimal_string(n)), Some(n));
    }
}

#[test]
fn orders_texts_by_their_characters() {
    assert!(text_less("", "a"));
    assert!(text_less("a", "b"));
    assert!(text_less("a", "aa"));
    assert!(text_less("ab", "b"));
    assert!(text_less("A", "a"));
    assert!(text_less("rc10", "rc2"));
    assert!(text_less("z", "é"));
    assert!(!text_less("", ""));
    assert!(!text_less("a", "a"));
    assert!(!text_less("b", "a"));
    assert!(!text_less("aa", "a"));
    for (a, b) in [("alpha", "beta"), ("x-y", "x.y"), ("", "0"), ("é", "z"), ("ab", "abc")] {
        assert_eq!(text_less(a, b), a < b, "{a} before {b}");
        assert_eq!(text_less(b, a), b < a, "{b} before {a}");
    }
}

#[test]
fn tells_digits_from_other_texts() {
    assert!(is_all_digits("0"));
    assert!(is_all_digits("0123456789"));
    assert!(is_all_digits(""));
    assert!(!is_all_digits("12a"));
    assert!(!is_all_digits("-1"));
    assert!(!is_all_digits("1.0"));
    assert!(!is_all_digits("٣"));
}

#[test]
fn pads_with_zeros() {
    assert_eq!(pad_with_zeros("7", 3), "007");
    assert_eq!(pad_with_zeros("", 2), "00");
    assert_eq!(pad_with_zeros("123", 3), "123");
    assert_eq!(pad_with_zeros("1234", 3), "1234");
    assert_eq!(pad_with_zeros("x", 0), "x");
}

#[test]
fn ranks_pieces() {
    assert!(piece_less("9", "10"));
    assert!(!piece_less("10", "9"));
    assert!(piece_less("99999999999999999999", "100000000000000000000"));
    assert!(piece_less("0010", "011"));
    assert!(!piece_less("011", "0010"));
    assert!(piece_less("01", "1"));
    assert!(!piece_less("1", "01"));
    assert!(piece_less("", "0"));
    assert!(piece_less("1", "a"));
    assert!(piece_less("999", "-"));
    assert!(!piece_less("a", "1"));
    assert!(piece_less("alpha", "beta"));
    assert!(piece_less("rc10", "rc2"));
    assert!(piece_less("RC", "rc"));
    assert!(!piece_less("rc", "rc"));
    assert!(!piece_less("7", "7"));
}

#[test]
fn ranks_labels() {
    assert!(label_less("rc.9", "rc.10"));
    assert!(label_less("rc", "rc.1"));
    assert!(label_less("rc.1", "rc.1.0"));
    assert!(label_less("alpha.1", "alpha.beta"));
    assert!(label_less("1.z", "a"));
    assert!(label_less("a", "a."));
    assert!(label_less("a..1", "a.0.1"));
    assert!(!label_less("rc.10", "rc.9"));
    assert!(!label_less("rc.1", "rc"));
    assert!(!label_less("rc.1", "rc.1"));
    assert!(!label_less("", ""));
}
