//! Backend selection. The database URL picks the backend; both backends
//! satisfy the one store contract, so the pool delegates uniformly.
//!
//! The networked backend can push a wakeup to listeners on each insert;
//! the embedded backend cannot, and its subscribers poll.

use vstd::prelude::*;
use crate::config::{spec_is_postgres, spec_is_sqlite, Config};
use crate::error::Error;
use crate::message::{Message, MsgView};
use crate::store::{
    expired_delivered, expired_undelivered, pending_after, spec_max_id, stamped, store_wf,
    take_up_to, with_ids, MessageStore,
};

verus! {

/// A store pool, tagged with the backend the URL selected.
#[derive(Debug)]
pub enum DbPool {
    /// Embedded backend: no push channel; subscribers poll.
    Sqlite(MessageStore),
    /// Networked backend: inserts push a wakeup to listeners.
    Postgres(MessageStore),
}

impl View for DbPool {
    type V = Seq<MsgView>;

    open spec fn view(&self) -> Seq<MsgView> {
        match self {
            DbPool::Sqlite(store) => store@,
            DbPool::Postgres(store) => store@,
        }
    }
}

impl DbPool {
    /// The next id the store will assign.
    pub open spec fn spec_next_id(&self) -> int {
        match self {
            DbPool::Sqlite(store) => store.spec_next_id(),
            DbPool::Postgres(store) => store.spec_next_id(),
        }
    }

    /// The pool invariant: the underlying store is well formed.
    pub open spec fn wf(&self) -> bool {
        store_wf(self@, self.spec_next_id())
    }

    /// Select the backend by the config's URL: a PostgreSQL URL opens the
    /// networked backend, a SQLite URL the embedded one; any other URL is
    /// a configuration error carrying the URL.
    pub fn new(config: &Config) -> (r: Result<Self, Error>)
        ensures
            spec_is_postgres(config.database_url@) ==> (r matches Ok(p) && p is Postgres),
            !spec_is_postgres(config.database_url@) && spec_is_sqlite(config.database_url@)
                ==> (r matches Ok(p) && p is Sqlite),
            !spec_is_postgres(config.database_url@) && !spec_is_sqlite(config.database_url@)
                ==> (r matches Err(e) && e matches Error::Config(u) && u@
                == config.database_url@),
            r matches Ok(p) ==> p@ == Seq::<MsgView>::empty() && p.wf() && p.spec_next_id() == 1,
    {
        if config.is_postgres() {
            return Ok(DbPool::Postgres(MessageStore::new()));
        }
        if config.is_sqlite() {
            return Ok(DbPool::Sqlite(MessageStore::new()));
        }
        Err(Error::Config(config.database_url.clone()))
    }

    /// Whether this pool is the networked backend, which supports push.
    pub fn is_postgres(&self) -> (r: bool)
        ensures
            r == (self is Postgres),
    {
        match self {
            DbPool::Sqlite(_) => false,
            DbPool::Postgres(_) => true,
        }
    }

    /// Persist a batch; see [`MessageStore::insert_batch`].
    pub fn insert_batch(&mut self, messages: &[Message])
        requires
            old(self).wf(),
            old(self).spec_next_id() + messages@.len() <= i64::MAX,
        ensures
            final(self).wf(),
            final(self)@ == old(self)@ + with_ids(
                messages@.map_values(|m: Message| m@),
                old(self).spec_next_id(),
            ),
            final(self).spec_next_id() == old(self).spec_next_id() + messages@.len(),
            (*final(self)) is Postgres <==> (*old(self)) is Postgres,
    {
        match self {
            DbPool::Sqlite(store) => store.insert_batch(messages),
            DbPool::Postgres(store) => store.insert_batch(messages),
        }
    }

    /// Fetch pending rows; see [`MessageStore::fetch_after`].
    pub fn fetch_after(&self, session_id: &str, after_id: i64, limit: usize) -> (r: Vec<Message>)
        requires
            self.wf(),
            1 <= limit,
        ensures
            r@.map_values(|m: Message| m@) == take_up_to(
                pending_after(self@, session_id@, after_id as int),
                limit as int,
            ),
    {
        match self {
            DbPool::Sqlite(store) => store.fetch_after(session_id, after_id, limit),
            DbPool::Postgres(store) => store.fetch_after(session_id, after_id, limit),
        }
    }

    /// Stamp rows delivered now; see [`MessageStore::mark_delivered`].
    pub fn mark_delivered(&mut self, ids: &[i64])
        requires
            old(self).wf(),
        ensures
            final(self).wf(),
            exists|t: int| final(self)@ == stamped(old(self)@, ids@, t),
            final(self).spec_next_id() == old(self).spec_next_id(),
            (*final(self)) is Postgres <==> (*old(self)) is Postgres,
    {
        match self {
            DbPool::Sqlite(store) => store.mark_delivered(ids),
            DbPool::Postgres(store) => store.mark_delivered(ids),
        }
    }

    /// Delete delivered rows older than `cutoff`; see
    /// [`MessageStore::cleanup_delivered`].
    pub fn cleanup_delivered(&mut self, cutoff: i64) -> (removed: u64)
        requires
            old(self).wf(),
        ensures
            final(self).wf(),
            final(self)@ == old(self)@.filter(
                |m: MsgView| !expired_delivered(m, cutoff as int),
            ),
            removed as int == old(self)@.len() - final(self)@.len(),
            final(self).spec_next_id() == old(self).spec_next_id(),
            (*final(self)) is Postgres <==> (*old(self)) is Postgres,
            forall|i: int|
                0 <= i < final(self)@.len() ==> !expired_delivered(
                    #[trigger] final(self)@[i],
                    cutoff as int,
                ),
    {
        match self {
            DbPool::Sqlite(store) => store.cleanup_delivered(cutoff),
            DbPool::Postgres(store) => store.cleanup_delivered(cutoff),
        }
    }

    /// Delete undelivered rows created before `cutoff`; see
    /// [`MessageStore::cleanup_undelivered`].
    pub fn cleanup_undelivered(&mut self, cutoff: i64) -> (removed: u64)
        requires
            old(self).wf(),
        ensures
            final(self).wf(),
            final(self)@ == old(self)@.filter(
                |m: MsgView| !expired_undelivered(m, cutoff as int),
            ),
            removed as int == old(self)@.len() - final(self)@.len(),
            final(self).spec_next_id() == old(self).spec_next_id(),
            (*final(self)) is Postgres <==> (*old(self)) is Postgres,
            forall|i: int|
                0 <= i < final(self)@.len() ==> !expired_undelivered(
                    #[trigger] final(self)@[i],
                    cutoff as int,
                ),
    {
        match self {
            DbPool::Sqlite(store) => store.cleanup_undelivered(cutoff),
            DbPool::Postgres(store) => store.cleanup_undelivered(cutoff),
        }
    }

    /// The largest id in the store, or 0 if it is empty; see
    /// [`MessageStore::max_id`].
    pub fn max_id(&self) -> (r: i64)
        requires
            self.wf(),
        ensures
            r as int == spec_max_id(self@),
            0 <= r < self.spec_next_id(),
    {
        match self {
            DbPool::Sqlite(store) => store.max_id(),
            DbPool::Postgres(store) => store.max_id(),
        }
    }
}

} // verus!
