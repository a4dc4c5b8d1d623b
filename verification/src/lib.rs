//! A session-scoped publish/subscribe engine over a persistent message
//! store.
//!
//! Messages are published to a session, persisted in batches by a
//! writer, and delivered in id order to at most one subscriber per
//! session. This crate holds the verified core: the message record, the
//! store semantics, the batching writer, the subscriber cursor logic,
//! and the engine facade.

pub mod config;
pub mod db;
pub mod error;
pub mod message;
pub mod pubsub;
pub mod sql;
pub mod store;
pub mod subscriber;
pub mod text;
pub mod writer;

pub use config::Config;
pub use error::Error;
pub use message::Message;
pub use pubsub::PubSub;
