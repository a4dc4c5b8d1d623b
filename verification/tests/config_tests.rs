use solid_mcp_core::config::Config;

#[test]
fn test_default_config() {
    let config = Config::default();
    assert_eq!(config.batch_size, 200);
    assert_eq!(config.polling_interval_ms, 100);
    assert_eq!(config.max_queue_size, 10_000);
}

#[test]
fn test_builder_pattern() {
    let config = Config::new("sqlite::memory:".to_string())
        .batch_size(100)
        .polling_interval(50)
        .max_queue_size(5000);

    assert_eq!(config.batch_size, 100);
    assert_eq!(config.polling_interval_ms, 50);
    assert_eq!(config.max_queue_size, 5000);
    assert_eq!(config.database_url, "sqlite::memory:");
}

#[test]
fn test_database_type_detection() {
    assert!(Config::new("postgres://localhost/test".to_string()).is_postgres());
    assert!(Config::new("postgresql://localhost/test".to_string()).is_postgres());
    assert!(!Config::new("postgres://localhost/test".to_string()).is_sqlite());

    assert!(Config::new("sqlite::memory:".to_string()).is_sqlite());
    assert!(Config::new("sqlite://./test.db".to_string()).is_sqlite());
    assert!(Config::new("./test.sqlite3".to_string()).is_sqlite());
    assert!(!Config::new("sqlite::memory:".to_string()).is_postgres());
}

#[test]
fn test_defaults_carried_by_new() {
    let config = Config::new("sqlite::memory:".to_string());
    assert_eq!(config.max_wait_time_ms, 30_000);
    assert_eq!(config.delivered_retention_ms, 3_600_000);
    assert_eq!(config.undelivered_retention_ms, 86_400_000);
    assert_eq!(config.shutdown_timeout_ms, 30_000);
}
