use solid_mcp_core::config::Config;
use solid_mcp_core::db::DbPool;
use solid_mcp_core::message::Message;
use solid_mcp_core::subscriber::Subscriber;

fn msg(session: &str, data: String) -> Message {
    Message::new(session.to_string(), "message".to_string(), data)
}

#[test]
fn test_polling_subscriber() {
    let config = Config::new("sqlite::memory:".to_string()).polling_interval(10);
    let mut db = DbPool::new(&config).unwrap();

    let mut subscriber = Subscriber::new("session-1".to_string(), &db);
    assert_eq!(subscriber.session_id(), "session-1");

    let messages: Vec<Message> =
        (0..5).map(|i| msg("session-1", format!(r#"{{"i":{}}}"#, i))).collect();
    db.insert_batch(&messages);

    let received = subscriber.poll(&db);
    assert_eq!(received.len(), 5);
    for (i, m) in received.iter().enumerate() {
        assert_eq!(m.data, format!(r#"{{"i":{}}}"#, i));
    }

    subscriber.stop();
    // A stopped subscriber delivers nothing, even with rows pending.
    db.insert_batch(&[msg("session-1", "{}".to_string())]);
    assert_eq!(subscriber.poll(&db).len(), 0);
}

#[test]
fn test_push_subscriber_wakeup() {
    let config = Config::new("postgres://localhost/test".to_string());
    let mut db = DbPool::new(&config).unwrap();
    assert!(db.is_postgres());

    let mut subscriber = Subscriber::new("session-1".to_string(), &db);

    db.insert_batch(&[msg("session-1", "a".to_string()), msg("session-1", "b".to_string())]);

    // The wakeup payload is only a hint; the fetch delivers everything
    // pending above the cursor.
    let max = db.max_id();
    let payload = format!("{}", max);
    let received = subscriber.handle_wakeup(&db, payload.as_bytes());
    assert_eq!(received.len(), 2);
    assert_eq!(received[0].data, "a");
    assert_eq!(received[1].data, "b");

    // A stale or unparsable wakeup delivers nothing.
    assert_eq!(subscriber.handle_wakeup(&db, b"1").len(), 0);
    assert_eq!(subscriber.handle_wakeup(&db, b"not-a-number").len(), 0);
}

#[test]
fn test_push_subscriber_catch_up() {
    let config = Config::new("postgres://localhost/test".to_string());
    let mut db = DbPool::new(&config).unwrap();

    let mut subscriber = Subscriber::new("session-1".to_string(), &db);
    db.insert_batch(&[msg("session-1", "late".to_string())]);

    // Catch-up closes the gap between subscribing and arming the stream.
    let received = subscriber.catch_up(&db);
    assert_eq!(received.len(), 1);
    assert_eq!(received[0].data, "late");
    assert_eq!(subscriber.catch_up(&db).len(), 0);
}

#[test]
fn test_subscriber_starts_after_existing_rows() {
    let config = Config::new("sqlite::memory:".to_string());
    let mut db = DbPool::new(&config).unwrap();
    db.insert_batch(&[msg("session-1", "old".to_string())]);

    let mut subscriber = Subscriber::new("session-1".to_string(), &db);
    // The row persisted before subscribing is not delivered.
    assert_eq!(subscriber.poll(&db).len(), 0);

    db.insert_batch(&[msg("session-1", "new".to_string())]);
    let received = subscriber.poll(&db);
    assert_eq!(received.len(), 1);
    assert_eq!(received[0].data, "new");
}
