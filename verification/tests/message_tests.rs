use solid_mcp_core::message::{Message, MessageBatch};

#[test]
fn test_message_new() {
    let msg = Message::new(
        "session-123".to_string(),
        "message".to_string(),
        r#"{"hello":"world"}"#.to_string(),
    );
    assert_eq!(msg.session_id, "session-123");
    assert_eq!(msg.event_type, "message");
    assert_eq!(msg.data, r#"{"hello":"world"}"#);
    assert!(!msg.is_delivered());
}

#[test]
fn message_test_mark_delivered() {
    let mut msg = Message::new("session-123".to_string(), "message".to_string(), "{}".to_string());
    assert!(!msg.is_delivered());

    msg.mark_delivered();
    assert!(msg.is_delivered());
    assert!(msg.delivered_at.is_some());
}

#[test]
fn test_message_batch() {
    let mut batch = MessageBatch::with_capacity(10);
    assert!(batch.is_empty());

    batch.push(Message::new("s1".to_string(), "msg".to_string(), "{}".to_string()));
    batch.push(Message::new("s2".to_string(), "msg".to_string(), "{}".to_string()));

    assert_eq!(batch.len(), 2);
    assert!(!batch.is_empty());

    let messages: Vec<_> = batch.into_vec();
    assert_eq!(messages.len(), 2);
}

#[test]
fn test_message_batch_clear_and_slice() {
    let mut batch = MessageBatch::new();
    batch.push(Message::new("s1".to_string(), "msg".to_string(), "a".to_string()));
    assert_eq!(batch.as_slice().len(), 1);
    assert_eq!(batch.as_slice()[0].data, "a");

    batch.clear();
    assert!(batch.is_empty());
}
