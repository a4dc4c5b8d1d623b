use solid_mcp_core::config::Config;
use solid_mcp_core::error::Error;
use solid_mcp_core::pubsub::PubSub;

fn engine(config: Config) -> PubSub {
    PubSub::new(config).unwrap()
}

#[test]
fn test_pubsub_basic() {
    // Basic round-trip: five messages published in order arrive in order.
    let config = Config::new("sqlite::memory:".to_string()).batch_size(10).polling_interval(10);
    let mut pubsub = engine(config);

    pubsub.subscribe("session-1").unwrap();

    for i in 0..5 {
        assert!(pubsub
            .broadcast("session-1", "message", &format!(r#"{{"i":{}}}"#, i))
            .unwrap());
    }

    pubsub.flush().unwrap();

    let delivered = pubsub.poll("session-1").unwrap();
    assert_eq!(delivered.len(), 5);
    for (i, m) in delivered.iter().enumerate() {
        assert_eq!(m.data, format!(r#"{{"i":{}}}"#, i));
    }

    // Nothing is delivered twice.
    assert_eq!(pubsub.poll("session-1").unwrap().len(), 0);

    pubsub.shutdown().unwrap();
}

#[test]
fn test_pubsub_multiple_sessions() {
    // Two sessions are isolated: each subscriber sees only its own.
    let config = Config::new("sqlite::memory:".to_string()).polling_interval(10);
    let mut pubsub = engine(config);

    pubsub.subscribe("session-1").unwrap();
    pubsub.subscribe("session-2").unwrap();

    pubsub.broadcast("session-1", "msg", "{}").unwrap();
    pubsub.broadcast("session-1", "msg", "{}").unwrap();
    pubsub.broadcast("session-2", "msg", "{}").unwrap();

    pubsub.flush().unwrap();

    assert_eq!(pubsub.poll("session-1").unwrap().len(), 2);
    assert_eq!(pubsub.poll("session-2").unwrap().len(), 1);

    pubsub.shutdown().unwrap();
}

#[test]
fn test_pubsub_unsubscribe() {
    let config = Config::new("sqlite::memory:".to_string()).polling_interval(10);
    let mut pubsub = engine(config);

    pubsub.subscribe("session-1").unwrap();

    assert!(pubsub.is_subscribed("session-1"));
    assert_eq!(pubsub.subscription_count(), 1);

    pubsub.unsubscribe("session-1").unwrap();

    assert!(!pubsub.is_subscribed("session-1"));
    assert_eq!(pubsub.subscription_count(), 0);

    // No callback can fire after unsubscribe: the session has no
    // subscriber to poll.
    assert!(matches!(pubsub.poll("session-1"), Err(Error::SessionNotFound(_))));

    pubsub.shutdown().unwrap();
}

#[test]
fn test_batching_persists_every_row() {
    // With batch_size 3, ten published messages still all reach the store.
    let config = Config::new("sqlite::memory:".to_string()).batch_size(3);
    let mut pubsub = engine(config);

    for i in 0..10 {
        assert!(pubsub
            .broadcast("session-1", "message", &format!(r#"{{"i":{}}}"#, i))
            .unwrap());
    }
    pubsub.flush().unwrap();

    let rows = pubsub.fetch_after("session-1", 0, 100);
    assert_eq!(rows.len(), 10);
}

#[test]
fn test_queue_full_drops_and_counts() {
    // Saturate a small queue with no flush: publishes return false once
    // the queue is full, and after a flush the store holds exactly the
    // messages whose publish returned true.
    let config = Config::new("sqlite::memory:".to_string()).max_queue_size(4);
    let mut pubsub = engine(config);

    let mut accepted = 0;
    let mut rejected = 0;
    for i in 0..7 {
        if pubsub
            .broadcast("session-1", "message", &format!(r#"{{"i":{}}}"#, i))
            .unwrap()
        {
            accepted += 1;
        } else {
            rejected += 1;
        }
    }
    assert_eq!(accepted, 4);
    assert_eq!(rejected, 3);

    pubsub.flush().unwrap();
    let rows = pubsub.fetch_after("session-1", 0, 100);
    assert_eq!(rows.len(), accepted);
}

#[test]
fn test_delivered_before_subscribe() {
    // A message persisted before the subscription is never delivered: the
    // subscriber starts at the store's largest id.
    let config = Config::new("sqlite::memory:".to_string());
    let mut pubsub = engine(config);

    pubsub.broadcast("session-X", "message", "{}").unwrap();
    pubsub.flush().unwrap();

    pubsub.subscribe("session-X").unwrap();
    assert_eq!(pubsub.poll("session-X").unwrap().len(), 0);

    // A message published after subscribing is delivered.
    pubsub.broadcast("session-X", "message", "{}").unwrap();
    pubsub.flush().unwrap();
    assert_eq!(pubsub.poll("session-X").unwrap().len(), 1);

    pubsub.shutdown().unwrap();
}

#[test]
fn test_duplicate_subscribe_is_config_error() {
    let config = Config::new("sqlite::memory:".to_string());
    let mut pubsub = engine(config);

    pubsub.subscribe("session-1").unwrap();
    assert!(matches!(pubsub.subscribe("session-1"), Err(Error::Config(_))));
    assert_eq!(pubsub.subscription_count(), 1);
}

#[test]
fn test_unsupported_url_is_config_error() {
    let config = Config::new("mysql://localhost/test".to_string());
    assert!(matches!(PubSub::new(config), Err(Error::Config(_))));
}

#[test]
fn test_unsubscribe_unknown_session_is_silent() {
    let config = Config::new("sqlite::memory:".to_string());
    let mut pubsub = engine(config);
    pubsub.unsubscribe("never-subscribed").unwrap();
    assert_eq!(pubsub.subscription_count(), 0);
}

#[test]
fn test_shutdown_stops_everything() {
    let config = Config::new("sqlite::memory:".to_string());
    let mut pubsub = engine(config);

    pubsub.subscribe("session-1").unwrap();
    pubsub.broadcast("session-1", "message", "{}").unwrap();
    pubsub.shutdown().unwrap();

    // The queued message was drained to the store by the final write.
    assert_eq!(pubsub.fetch_after("session-1", 0, 100).len(), 1);

    // No subscriber remains, so no callback can fire.
    assert_eq!(pubsub.subscription_count(), 0);

    // No publish is accepted, so no further store write can occur.
    assert!(matches!(pubsub.broadcast("session-1", "message", "{}"), Err(Error::Shutdown)));
    assert!(matches!(pubsub.flush(), Err(Error::Shutdown)));
    assert_eq!(pubsub.fetch_after("session-1", 0, 100).len(), 1);

    // Shutting down twice changes nothing more.
    pubsub.shutdown().unwrap();
}

#[test]
fn test_mark_delivered_and_cleanup() {
    let config = Config::new("sqlite::memory:".to_string());
    let mut pubsub = engine(config);

    pubsub.broadcast("session-1", "message", "{}").unwrap();
    pubsub.broadcast("session-1", "message", "{}").unwrap();
    pubsub.flush().unwrap();

    let rows = pubsub.fetch_after("session-1", 0, 100);
    assert_eq!(rows.len(), 2);

    pubsub.mark_delivered(&[rows[0].id]).unwrap();
    assert_eq!(pubsub.fetch_after("session-1", 0, 100).len(), 1);

    // Far in the future, both sweeps together remove everything: the
    // delivered row ages past the delivered retention and the undelivered
    // one past the undelivered retention.
    let far_future = i64::MAX / 2;
    let (delivered_removed, undelivered_removed) = pubsub.cleanup_at(far_future);
    assert_eq!(delivered_removed, 1);
    assert_eq!(undelivered_removed, 1);
    assert_eq!(pubsub.fetch_after("session-1", 0, 100).len(), 0);
}

#[test]
fn test_cleanup_respects_retention_windows() {
    let config = Config::new("sqlite::memory:".to_string());
    let mut pubsub = engine(config);

    pubsub.broadcast("session-1", "message", "{}").unwrap();
    pubsub.flush().unwrap();
    let rows = pubsub.fetch_after("session-1", 0, 100);
    pubsub.mark_delivered(&[rows[0].id]).unwrap();

    // Immediately after delivery nothing has aged out.
    let (d, u) = pubsub.cleanup().unwrap();
    assert_eq!(d, 0);
    assert_eq!(u, 0);
}
