use solid_mcp_core::config::Config;
use solid_mcp_core::db::DbPool;
use solid_mcp_core::error::Error;

#[test]
fn test_backend_selection() {
    let pg = DbPool::new(&Config::new("postgres://localhost/test".to_string())).unwrap();
    assert!(pg.is_postgres());

    let lite = DbPool::new(&Config::new("sqlite::memory:".to_string())).unwrap();
    assert!(!lite.is_postgres());

    let err = DbPool::new(&Config::new("mysql://localhost/test".to_string()));
    match err {
        Err(Error::Config(url)) => assert_eq!(url, "mysql://localhost/test"),
        _ => panic!("an unsupported URL must be a config error"),
    }
}

#[test]
fn test_pool_delegates_to_one_store() {
    let mut pool = DbPool::new(&Config::new("sqlite://./test.db".to_string())).unwrap();
    assert_eq!(pool.max_id(), 0);
    pool.insert_batch(&[solid_mcp_core::message::Message::new(
        "s".to_string(),
        "message".to_string(),
        "{}".to_string(),
    )]);
    assert_eq!(pool.max_id(), 1);
    assert_eq!(pool.fetch_after("s", 0, 100).len(), 1);
}
