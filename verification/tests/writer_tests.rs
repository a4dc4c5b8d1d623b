use solid_mcp_core::config::Config;
use solid_mcp_core::db::DbPool;
use solid_mcp_core::message::Message;
use solid_mcp_core::writer::MessageWriter;

fn msg(session: &str, data: String) -> Message {
    Message::new(session.to_string(), "message".to_string(), data)
}

#[test]
fn test_writer_basic() {
    let config = Config::new("sqlite::memory:".to_string()).batch_size(10);
    let mut db = DbPool::new(&config).unwrap();
    let mut writer = MessageWriter::new(&config);

    for i in 0..5 {
        let m = msg("session-1", format!(r#"{{"i":{}}}"#, i));
        assert!(writer.enqueue(m).unwrap());
    }

    writer.flush(&mut db).unwrap();

    let messages = db.fetch_after("session-1", 0, 100);
    assert_eq!(messages.len(), 5);

    writer.shutdown(&mut db).unwrap();
}

#[test]
fn test_writer_batching() {
    let config = Config::new("sqlite::memory:".to_string()).batch_size(3);
    let mut db = DbPool::new(&config).unwrap();
    let mut writer = MessageWriter::new(&config);

    for i in 0..10 {
        let m = msg("session-1", format!(r#"{{"i":{}}}"#, i));
        writer.enqueue_async(&mut db, m).unwrap();
    }

    writer.flush(&mut db).unwrap();

    let messages = db.fetch_after("session-1", 0, 100);
    assert_eq!(messages.len(), 10);

    writer.shutdown(&mut db).unwrap();
}

#[test]
fn test_writer_rejects_after_shutdown() {
    let config = Config::new("sqlite::memory:".to_string());
    let mut db = DbPool::new(&config).unwrap();
    let mut writer = MessageWriter::new(&config);

    writer.shutdown(&mut db).unwrap();

    let m = msg("session-1", "{}".to_string());
    assert!(matches!(writer.enqueue(m), Err(solid_mcp_core::error::Error::Shutdown)));
    assert!(matches!(writer.flush(&mut db), Err(solid_mcp_core::error::Error::Shutdown)));
}

#[test]
fn test_writer_queue_full_returns_false() {
    let config = Config::new("sqlite::memory:".to_string()).max_queue_size(2);
    let mut db = DbPool::new(&config).unwrap();
    let mut writer = MessageWriter::new(&config);

    assert!(writer.enqueue(msg("s", "a".to_string())).unwrap());
    assert!(writer.enqueue(msg("s", "b".to_string())).unwrap());
    // The queue is full: the message is dropped, not queued.
    assert!(!writer.enqueue(msg("s", "c".to_string())).unwrap());

    writer.flush(&mut db).unwrap();
    assert_eq!(db.fetch_after("s", 0, 100).len(), 2);
}

#[test]
fn test_enqueue_async_drains_full_queue() {
    let config = Config::new("sqlite::memory:".to_string()).max_queue_size(2);
    let mut db = DbPool::new(&config).unwrap();
    let mut writer = MessageWriter::new(&config);

    writer.enqueue_async(&mut db, msg("s", "a".to_string())).unwrap();
    writer.enqueue_async(&mut db, msg("s", "b".to_string())).unwrap();
    // The queue is full: the writer catches up by writing the queue out,
    // then keeps the new message.
    writer.enqueue_async(&mut db, msg("s", "c".to_string())).unwrap();

    assert_eq!(db.fetch_after("s", 0, 100).len(), 2);
    writer.flush(&mut db).unwrap();
    assert_eq!(db.fetch_after("s", 0, 100).len(), 3);
}
