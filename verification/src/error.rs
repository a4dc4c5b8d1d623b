//! Error taxonomy of the engine. Callers dispatch on the kind; the payload
//! carried by a variant is descriptive only.

use vstd::prelude::*;

verus! {

/// Errors surfaced by the public operations of the engine.
#[derive(Debug, Clone)]
pub enum Error {
    /// A store backend failure, with its message.
    Database(String),
    /// A payload serialization failure, with its message.
    Json(String),
    /// A channel send failed: the queue is full or the worker is gone.
    ChannelSend,
    /// A channel receive failed: the worker is gone.
    ChannelRecv,
    /// A configuration problem: an unsupported URL, or a duplicate
    /// subscription; carries the offending text.
    Config(String),
    /// The engine has been shut down.
    Shutdown,
    /// No subscriber exists for the named session.
    SessionNotFound(String),
}

impl Error {
    /// A short stable tag naming the kind, for hosts that render errors.
    pub fn kind(&self) -> (r: &'static str)
        ensures
            r@ == match self {
                Error::Database(_) => "database"@,
                Error::Json(_) => "json"@,
                Error::ChannelSend => "channel send"@,
                Error::ChannelRecv => "channel recv"@,
                Error::Config(_) => "config"@,
                Error::Shutdown => "shutdown"@,
                Error::SessionNotFound(_) => "session not found"@,
            },
    {
        match self {
            Error::Database(_) => "database",
            Error::Json(_) => "json",
            Error::ChannelSend => "channel send",
            Error::ChannelRecv => "channel recv",
            Error::Config(_) => "config",
            Error::Shutdown => "shutdown",
            Error::SessionNotFound(_) => "session not found",
        }
    }
}

} // verus!
