use timetable_optimizer::text::{
    parse_i64, parse_u64, same_text, split_fields, split_once, split_tokens, strip_key,
};

#[test]
fn unsigned_numbers() {
    assert_eq!(parse_u64("0"), Some(0));
    assert_eq!(parse_u64("+42"), Some(42));
    assert_eq!(parse_u64("18446744073709551615"), Some(u64::MAX));
    assert_eq!(parse_u64("18446744073709551616"), None);
    assert_eq!(parse_u64(""), None);
    assert_eq!(parse_u64("+"), None);
    assert_eq!(parse_u64("-1"), None);
    assert_eq!(parse_u64("1 "), None);
}

#[test]
fn signed_numbers() {
    assert_eq!(parse_i64("-9223372036854775808"), Some(i64::MIN));
    assert_eq!(parse_i64("9223372036854775807"), Some(i64::MAX));
    assert_eq!(parse_i64("9223372036854775808"), None);
    assert_eq!(parse_i64("-30"), Some(-30));
    assert_eq!(parse_i64("+30"), Some(30));
    assert_eq!(parse_i64("-"), None);
}

#[test]
fn keys_fields_and_tokens() {
    assert_eq!(strip_key("free_workdays=2", "free_workdays"), Some("2"));
    assert_eq!(strip_key("free_workdays", "free_workdays"), None);
    assert_eq!(strip_key("free_workdays:2", "free_workdays"), None);
    assert_eq!(strip_key("free_workdays=", "free_workdays"), Some(""));
    assert_eq!(split_fields("a,,b", ','), vec!["a", "", "b"]);
    assert_eq!(split_fields("", ','), vec![""]);
    assert_eq!(split_tokens(" a  b\tc "), vec!["a", "b", "c"]);
    assert_eq!(split_once("x  y  z", "  "), Some(("x", "y  z")));
    assert_eq!(split_once("xyz", "-"), None);
    assert!(same_text("abc", "abc"));
    assert!(!same_text("abc", "abd"));
}
