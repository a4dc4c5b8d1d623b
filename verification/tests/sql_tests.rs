use solid_mcp_core::sql::{insert_query, insert_values_clause, mark_delivered_query};
use solid_mcp_core::text::decimal_bytes;

#[test]
fn test_decimal_bytes() {
    assert_eq!(decimal_bytes(0), b"0");
    assert_eq!(decimal_bytes(7), b"7");
    assert_eq!(decimal_bytes(10), b"10");
    assert_eq!(decimal_bytes(90210), b"90210");
    assert_eq!(decimal_bytes(u64::MAX), b"18446744073709551615");
}

#[test]
fn test_insert_values_clause() {
    assert_eq!(insert_values_clause(1), b"($1, $2, $3, $4)");
    assert_eq!(insert_values_clause(2), b"($1, $2, $3, $4), ($5, $6, $7, $8)");
    assert_eq!(
        insert_values_clause(3),
        b"($1, $2, $3, $4), ($5, $6, $7, $8), ($9, $10, $11, $12)".to_vec()
    );
}

#[test]
fn test_insert_query() {
    let q = String::from_utf8(insert_query(2)).unwrap();
    assert_eq!(
        q,
        "INSERT INTO solid_mcp_messages (session_id, event_type, data, created_at) \
         VALUES ($1, $2, $3, $4), ($5, $6, $7, $8)"
    );
}

#[test]
fn test_mark_delivered_query() {
    let q = String::from_utf8(mark_delivered_query(3)).unwrap();
    assert_eq!(q, "UPDATE solid_mcp_messages SET delivered_at = $1 WHERE id IN ($2, $3, $4)");
}
