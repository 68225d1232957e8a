//! Text utility tests: decimal parsing and rendering, joining.

use protodef::text::{join_strings, parse_i64, str_eq, u64_to_string};

#[test]
fn str_eq_compares_contents() {
    assert!(str_eq("container", "container"));
    assert!(!str_eq("container", "containers"));
    assert!(!str_eq("container", "pstring"));
    assert!(str_eq("", ""));
}

#[test]
fn u64_rendering_is_plain_decimal() {
    assert_eq!(u64_to_string(0), "0");
    assert_eq!(u64_to_string(7), "7");
    assert_eq!(u64_to_string(1234), "1234");
    assert_eq!(u64_to_string(u64::MAX), "18446744073709551615");
}

#[test]
fn i64_parsing_follows_base_ten() {
    assert_eq!(parse_i64("0"), Some(0));
    assert_eq!(parse_i64("-1"), Some(-1));
    assert_eq!(parse_i64("+42"), Some(42));
    assert_eq!(parse_i64("9223372036854775807"), Some(i64::MAX));
    assert_eq!(parse_i64("-9223372036854775808"), Some(i64::MIN));
}

#[test]
fn i64_parsing_rejects_everything_else() {
    assert_eq!(parse_i64(""), None);
    assert_eq!(parse_i64("+"), None);
    assert_eq!(parse_i64("-"), None);
    assert_eq!(parse_i64("0x00"), None);
    assert_eq!(parse_i64("1 "), None);
    assert_eq!(parse_i64("12a"), None);
    assert_eq!(parse_i64("9223372036854775808"), None);
    assert_eq!(parse_i64("-9223372036854775809"), None);
}

#[test]
fn join_uses_separator_between_parts() {
    let parts: Vec<String> = vec!["types".into(), "x".into(), "container".into()];
    assert_eq!(join_strings(&parts, " > "), "types > x > container");

    let one: Vec<String> = vec!["types".into()];
    assert_eq!(join_strings(&one, " > "), "types");

    let none: Vec<String> = Vec::new();
    assert_eq!(join_strings(&none, " > "), "");
}
