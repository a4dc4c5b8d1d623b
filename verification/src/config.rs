//! Configuration for the pub/sub engine.
//!
//! All durations are counts of milliseconds, so that retention arithmetic
//! and polling cadence are plain integers in contracts.

use vstd::prelude::*;
use vstd::string::StringSliceAdditionalSpecFns;
use crate::text::{bytes_ends_with, bytes_starts_with, spec_ends_with, spec_starts_with};

verus! {

/// Configuration for the pub/sub engine.
#[derive(Debug, Clone)]
pub struct Config {
    /// Maximum messages per batch write (default: 200).
    pub batch_size: usize,
    /// Polling cadence for subscribers of stores without push, in
    /// milliseconds (default: 100).
    pub polling_interval_ms: u64,
    /// Maximum hold window for long-lived consumers, in milliseconds
    /// (default: 30 000). Exposed for callers; unused by the core.
    pub max_wait_time_ms: u64,
    /// How long delivered messages are kept, in milliseconds
    /// (default: one hour).
    pub delivered_retention_ms: u64,
    /// How long undelivered messages are kept, in milliseconds
    /// (default: 24 hours).
    pub undelivered_retention_ms: u64,
    /// Capacity of the writer's ingress queue (default: 10 000).
    pub max_queue_size: usize,
    /// Advisory bound on graceful shutdown, in milliseconds
    /// (default: 30 000). Enforced by the caller, not the core.
    pub shutdown_timeout_ms: u64,
    /// Database URL (required); its prefix or suffix selects the backend.
    pub database_url: String,
}

/// The URL selects the networked backend.
pub open spec fn spec_is_postgres(url: Seq<char>) -> bool {
    ||| spec_starts_with(vstd::utf8::encode_utf8(url), "postgres://".spec_bytes())
    ||| spec_starts_with(vstd::utf8::encode_utf8(url), "postgresql://".spec_bytes())
}

/// The URL selects the embedded backend.
pub open spec fn spec_is_sqlite(url: Seq<char>) -> bool {
    ||| spec_starts_with(vstd::utf8::encode_utf8(url), "sqlite://".spec_bytes())
    ||| spec_starts_with(vstd::utf8::encode_utf8(url), "sqlite:".spec_bytes())
    ||| spec_ends_with(vstd::utf8::encode_utf8(url), ".db".spec_bytes())
    ||| spec_ends_with(vstd::utf8::encode_utf8(url), ".sqlite".spec_bytes())
    ||| spec_ends_with(vstd::utf8::encode_utf8(url), ".sqlite3".spec_bytes())
}

impl Default for Config {
    fn default() -> (c: Self)
        ensures
            c.batch_size == 200,
            c.polling_interval_ms == 100,
            c.max_wait_time_ms == 30_000,
            c.delivered_retention_ms == 3_600_000,
            c.undelivered_retention_ms == 86_400_000,
            c.max_queue_size == 10_000,
            c.shutdown_timeout_ms == 30_000,
            c.database_url@ == Seq::<char>::empty(),
    {
        Config {
            batch_size: 200,
            polling_interval_ms: 100,
            max_wait_time_ms: 30_000,
            delivered_retention_ms: 3_600_000,
            undelivered_retention_ms: 86_400_000,
            max_queue_size: 10_000,
            shutdown_timeout_ms: 30_000,
            database_url: String::new(),
        }
    }
}

impl Config {
    /// Create a new config with the given database URL and all other
    /// options at their defaults.
    pub fn new(database_url: String) -> (c: Self)
        ensures
            c.batch_size == 200,
            c.polling_interval_ms == 100,
            c.max_wait_time_ms == 30_000,
            c.delivered_retention_ms == 3_600_000,
            c.undelivered_retention_ms == 86_400_000,
            c.max_queue_size == 10_000,
            c.shutdown_timeout_ms == 30_000,
            c.database_url == database_url,
    {
        let mut c = Config::default();
        c.database_url = database_url;
        c
    }

    /// Builder: set the batch size.
    pub fn batch_size(self, size: usize) -> (c: Self)
        ensures
            c == (Config { batch_size: size, ..self }),
    {
        Config { batch_size: size, ..self }
    }

    /// Builder: set the polling interval in milliseconds.
    pub fn polling_interval(self, interval_ms: u64) -> (c: Self)
        ensures
            c == (Config { polling_interval_ms: interval_ms, ..self }),
    {
        Config { polling_interval_ms: interval_ms, ..self }
    }

    /// Builder: set the writer queue capacity.
    pub fn max_queue_size(self, size: usize) -> (c: Self)
        ensures
            c == (Config { max_queue_size: size, ..self }),
    {
        Config { max_queue_size: size, ..self }
    }

    /// Builder: set the advisory shutdown bound in milliseconds.
    pub fn shutdown_timeout(self, timeout_ms: u64) -> (c: Self)
        ensures
            c == (Config { shutdown_timeout_ms: timeout_ms, ..self }),
    {
        Config { shutdown_timeout_ms: timeout_ms, ..self }
    }

    /// The URL names a PostgreSQL database.
    pub fn is_postgres(&self) -> (r: bool)
        ensures
            r == spec_is_postgres(self.database_url@),
    {
        let b = self.database_url.as_str().as_bytes();
        bytes_starts_with(b, "postgres://".as_bytes())
            || bytes_starts_with(b, "postgresql://".as_bytes())
    }

    /// The URL names a SQLite database.
    pub fn is_sqlite(&self) -> (r: bool)
        ensures
            r == spec_is_sqlite(self.database_url@),
    {
        let b = self.database_url.as_str().as_bytes();
        bytes_starts_with(b, "sqlite://".as_bytes())
            || bytes_starts_with(b, "sqlite:".as_bytes())
            || bytes_ends_with(b, ".db".as_bytes())
            || bytes_ends_with(b, ".sqlite".as_bytes())
            || bytes_ends_with(b, ".sqlite3".as_bytes())
    }
}

} // verus!
