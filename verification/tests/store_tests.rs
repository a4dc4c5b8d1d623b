use solid_mcp_core::message::Message;
use solid_mcp_core::store::MessageStore;

fn msg(session: &str, data: &str) -> Message {
    Message::new(session.to_string(), "message".to_string(), data.to_string())
}

#[test]
fn test_store_starts_empty() {
    let store = MessageStore::new();
    assert_eq!(store.max_id(), 0);
}

#[test]
fn test_insert_and_fetch() {
    let mut store = MessageStore::new();

    let messages = vec![msg("session-1", r#"{"test":1}"#), msg("session-1", r#"{"test":2}"#)];
    store.insert_batch(&messages);

    let fetched = store.fetch_after("session-1", 0, 100);
    assert_eq!(fetched.len(), 2);
    assert_eq!(fetched[0].data, r#"{"test":1}"#);
    assert_eq!(fetched[1].data, r#"{"test":2}"#);
}

#[test]
fn sqlite_test_mark_delivered() {
    let mut store = MessageStore::new();

    let messages = vec![msg("session-1", r#"{}"#)];
    store.insert_batch(&messages);

    let fetched = store.fetch_after("session-1", 0, 100);
    assert_eq!(fetched.len(), 1);

    store.mark_delivered(&[fetched[0].id]);

    // Delivered messages are no longer fetched.
    let fetched = store.fetch_after("session-1", 0, 100);
    assert_eq!(fetched.len(), 0);
}

#[test]
fn test_ids_ascend_in_insert_order() {
    let mut store = MessageStore::new();
    store.insert_batch(&[msg("s", "a"), msg("s", "b"), msg("s", "c")]);
    let fetched = store.fetch_after("s", 0, 100);
    assert_eq!(fetched.len(), 3);
    assert!(fetched[0].id < fetched[1].id);
    assert!(fetched[1].id < fetched[2].id);
    assert_eq!(store.max_id(), fetched[2].id);
}

#[test]
fn test_fetch_respects_cursor_and_limit() {
    let mut store = MessageStore::new();
    store.insert_batch(&[msg("s", "a"), msg("s", "b"), msg("s", "c"), msg("s", "d")]);
    let all = store.fetch_after("s", 0, 100);
    assert_eq!(all.len(), 4);

    // Only rows with id strictly above the cursor come back.
    let after = store.fetch_after("s", all[1].id, 100);
    assert_eq!(after.len(), 2);
    assert_eq!(after[0].data, "c");
    assert_eq!(after[1].data, "d");

    // The limit truncates from the front.
    let limited = store.fetch_after("s", 0, 2);
    assert_eq!(limited.len(), 2);
    assert_eq!(limited[0].data, "a");
    assert_eq!(limited[1].data, "b");
}

#[test]
fn test_mark_delivered_is_idempotent() {
    let mut store = MessageStore::new();
    store.insert_batch(&[msg("s", "a"), msg("s", "b")]);
    let fetched = store.fetch_after("s", 0, 100);
    let ids: Vec<i64> = vec![fetched[0].id];

    store.mark_delivered_at(&ids, 1000);
    let once = store.fetch_after("s", 0, 100);

    // A second marking, even at a later instant, changes nothing.
    store.mark_delivered_at(&ids, 2000);
    let twice = store.fetch_after("s", 0, 100);
    assert_eq!(once.len(), twice.len());
    assert_eq!(once.len(), 1);
    assert_eq!(twice[0].data, "b");

    // The first stamp is kept: cleanup with a cutoff between the two
    // instants removes the row, as it would after the first marking alone.
    let removed = store.cleanup_delivered(1500);
    assert_eq!(removed, 1);
}

#[test]
fn test_cleanup_delivered_removes_only_expired() {
    let mut store = MessageStore::new();
    store.insert_batch(&[msg("s", "a"), msg("s", "b"), msg("s", "c")]);
    let fetched = store.fetch_after("s", 0, 100);

    store.mark_delivered_at(&[fetched[0].id], 100);
    store.mark_delivered_at(&[fetched[1].id], 900);

    // Only the row delivered before the cutoff goes.
    let removed = store.cleanup_delivered(500);
    assert_eq!(removed, 1);

    // The second delivered row and the undelivered one remain.
    store.mark_delivered_at(&[fetched[2].id], 2000);
    let removed = store.cleanup_delivered(3000);
    assert_eq!(removed, 2);
}

#[test]
fn test_cleanup_undelivered_uses_created_at() {
    let mut store = MessageStore::new();
    let mut old_msg = msg("s", "stale");
    old_msg.created_at = 10;
    let mut new_msg = msg("s", "fresh");
    new_msg.created_at = 1000;
    store.insert_batch(&[old_msg, new_msg]);

    let removed = store.cleanup_undelivered(500);
    assert_eq!(removed, 1);
    let rest = store.fetch_after("s", 0, 100);
    assert_eq!(rest.len(), 1);
    assert_eq!(rest[0].data, "fresh");
}

#[test]
fn test_empty_inputs_are_no_ops() {
    let mut store = MessageStore::new();
    store.insert_batch(&[]);
    assert_eq!(store.max_id(), 0);

    store.insert_batch(&[msg("s", "a")]);
    store.mark_delivered(&[]);
    assert_eq!(store.fetch_after("s", 0, 100).len(), 1);

    let removed = store.cleanup_delivered(i64::MAX);
    assert_eq!(removed, 0);
}

#[test]
fn test_sessions_are_isolated_in_fetch() {
    let mut store = MessageStore::new();
    store.insert_batch(&[msg("s1", "a"), msg("s2", "b"), msg("s1", "c")]);
    let s1 = store.fetch_after("s1", 0, 100);
    let s2 = store.fetch_after("s2", 0, 100);
    assert_eq!(s1.len(), 2);
    assert_eq!(s2.len(), 1);
    assert_eq!(s2[0].data, "b");
}
