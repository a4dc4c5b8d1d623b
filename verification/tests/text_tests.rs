use solid_mcp_core::text::{bytes_ends_with, bytes_equal, bytes_starts_with, parse_decimal, str_eq};

#[test]
fn test_parse_decimal_values() {
    assert_eq!(parse_decimal(b"0"), Some(0));
    assert_eq!(parse_decimal(b"123"), Some(123));
    assert_eq!(parse_decimal(b"007"), Some(7));
    assert_eq!(parse_decimal(b"9223372036854775807"), Some(i64::MAX));
}

#[test]
fn test_parse_decimal_rejects() {
    assert_eq!(parse_decimal(b""), None);
    assert_eq!(parse_decimal(b"12a"), None);
    assert_eq!(parse_decimal(b"-5"), None);
    assert_eq!(parse_decimal(b" 5"), None);
    // One past i64::MAX overflows.
    assert_eq!(parse_decimal(b"9223372036854775808"), None);
}

#[test]
fn test_byte_affix_helpers() {
    assert!(bytes_starts_with(b"postgres://x", b"postgres://"));
    assert!(!bytes_starts_with(b"postgre", b"postgres://"));
    assert!(bytes_ends_with(b"data.sqlite3", b".sqlite3"));
    assert!(!bytes_ends_with(b"data.sqlite3", b".db"));
    assert!(bytes_equal(b"abc", b"abc"));
    assert!(!bytes_equal(b"abc", b"abd"));
    assert!(!bytes_equal(b"abc", b"ab"));
}

#[test]
fn test_str_eq() {
    assert!(str_eq("session-1", "session-1"));
    assert!(!str_eq("session-1", "session-2"));
    assert!(str_eq("", ""));
    assert!(!str_eq("a", ""));
}
