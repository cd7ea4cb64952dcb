use voxalic::text::{int_string, str_to_i64, str_to_u32};
use voxalic::textscan::{
    ends_with, eq_ignore_case, replace_first_str, replace_str, split_str, str_contains, trim_str,
};

#[test]
fn contains_finds_substrings() {
    assert!(str_contains("hello world", "lo w"));
    assert!(str_contains("abc", ""));
    assert!(!str_contains("abc", "abcd"));
    assert!(!str_contains("", "a"));
}

#[test]
fn trim_removes_unicode_whitespace() {
    assert_eq!(trim_str("  a b \t\n"), "a b");
    assert_eq!(trim_str("\u{3000}中文\u{a0}"), "中文");
    assert_eq!(trim_str("   "), "");
}

#[test]
fn split_keeps_empty_pieces() {
    assert_eq!(split_str("a;;b;", ';'), vec!["a", "", "b", ""]);
    assert_eq!(split_str("", ';'), vec![""]);
    assert_eq!(split_str("x.y.z", '.'), vec!["x", "y", "z"]);
}

#[test]
fn replace_all_and_first() {
    assert_eq!(replace_str("Ash Prime Set", " Set", " 一套"), "Ash Prime 一套");
    assert_eq!(replace_str("aaaa", "aa", "b"), "bb");
    assert_eq!(replace_first_str("/Lotus/StoreItems/A/StoreItems/B", "/StoreItems/", "/"), "/Lotus/A/StoreItems/B");
    assert_eq!(replace_first_str("none", "/StoreItems/", "/"), "none");
}

#[test]
fn ascii_case_and_suffix() {
    assert!(eq_ignore_case("jwt", "JWT"));
    assert!(!eq_ignore_case("jwt", "JWS"));
    assert!(ends_with("Ash Prime Set", " Set"));
    assert!(!ends_with("Set", " Set"));
}

#[test]
fn case_is_ignored_through_unicode_lowering() {
    assert_eq!(voxalic::orders::map_http_err(400, "ALREADY LISTED").code, "duplicate_price");
}

#[test]
fn integer_text_round_trip() {
    assert_eq!(int_string(-42), "-42");
    assert_eq!(int_string(i64::MIN), "-9223372036854775808");
    assert_eq!(str_to_i64("-9223372036854775808"), Some(i64::MIN));
    assert_eq!(str_to_i64("9223372036854775808"), None);
    assert_eq!(str_to_i64("+7"), Some(7));
    assert_eq!(str_to_u32("4294967295"), Some(u32::MAX));
    assert_eq!(str_to_u32("4294967296"), None);
    assert_eq!(str_to_u32("-1"), None);
    assert_eq!(str_to_u32(""), None);
}
