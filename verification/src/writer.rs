//! The batching writer: a bounded ingress queue in front of the store.
//!
//! Publishes enqueue without waiting and fail fast on a full queue; a
//! flush is a barrier that drains every message enqueued before it into
//! the store, written in batches of at most `batch_size` (a batch always
//! carries at least one message). Shutdown drains the queue a last time
//! and closes the writer; a closed writer accepts nothing and writes
//! nothing.

use vstd::prelude::*;
use crate::config::Config;
use crate::db::DbPool;
use crate::error::Error;
use crate::message::{Message, MsgView};
use crate::store::{lemma_with_ids_concat, with_ids};

verus! {

/// Writer that batches messages into store writes.
#[derive(Debug)]
pub struct MessageWriter {
    pending: Vec<Message>,
    batch_size: usize,
    max_queue_size: usize,
    closed: bool,
}

impl MessageWriter {
    /// The messages enqueued and not yet written, in enqueue order.
    pub closed spec fn spec_pending(&self) -> Seq<MsgView> {
        self.pending@.map_values(|m: Message| m@)
    }

    /// Whether the writer has been shut down.
    pub closed spec fn spec_closed(&self) -> bool {
        self.closed
    }

    /// The maximum number of messages per store write.
    pub closed spec fn spec_batch_size(&self) -> int {
        self.batch_size as int
    }

    /// The capacity of the ingress queue.
    pub closed spec fn spec_capacity(&self) -> int {
        self.max_queue_size as int
    }

    /// The writer invariant: the queue respects its capacity, and a closed
    /// writer holds nothing.
    pub open spec fn wf(&self) -> bool {
        &&& 1 <= self.spec_capacity()
        &&& self.spec_pending().len() <= self.spec_capacity()
        &&& self.spec_closed() ==> self.spec_pending().len() == 0
    }

    /// The writer keeps its configuration: batch size and capacity do not
    /// change across an operation.
    pub open spec fn same_shape(&self, other: &Self) -> bool {
        &&& self.spec_batch_size() == other.spec_batch_size()
        &&& self.spec_capacity() == other.spec_capacity()
    }

    /// Create a writer with the config's batch size and queue capacity.
    /// The capacity must be at least one, as the underlying channel demands.
    pub fn new(config: &Config) -> (w: Self)
        requires
            1 <= config.max_queue_size,
        ensures
            w.spec_pending() == Seq::<MsgView>::empty(),
            !w.spec_closed(),
            w.spec_batch_size() == config.batch_size as int,
            w.spec_capacity() == config.max_queue_size as int,
            w.wf(),
    {
        let w = MessageWriter {
            pending: Vec::new(),
            batch_size: config.batch_size,
            max_queue_size: config.max_queue_size,
            closed: false,
        };
        proof {
            assert(w.spec_pending() =~= Seq::<MsgView>::empty());
        }
        w
    }

    /// Enqueue a message without waiting. Returns `Ok(true)` and keeps the
    /// message exactly when the writer is open and the queue has room;
    /// `Ok(false)` on a full queue (the message is dropped); an error
    /// after shutdown.
    pub fn enqueue(&mut self, message: Message) -> (r: Result<bool, Error>)
        requires
            old(self).wf(),
        ensures
            final(self).wf(),
            final(self).same_shape(old(self)),
            final(self).spec_closed() == old(self).spec_closed(),
            old(self).spec_closed() ==> (r matches Err(e) && e is Shutdown
                && final(self).spec_pending() == old(self).spec_pending()),
            (!old(self).spec_closed() && old(self).spec_pending().len() < old(
                self,
            ).spec_capacity()) ==> (r matches Ok(b) && b && final(self).spec_pending() == old(
                self,
            ).spec_pending().push(message@)),
            (!old(self).spec_closed() && old(self).spec_pending().len() >= old(
                self,
            ).spec_capacity()) ==> (r matches Ok(b) && !b && final(self).spec_pending() == old(
                self,
            ).spec_pending()),
    {
        if self.closed {
            return Err(Error::Shutdown);
        }
        if self.pending.len() >= self.max_queue_size {
            return Ok(false);
        }
        let ghost before = self.spec_pending();
        self.pending.push(message);
        proof {
            assert(self.spec_pending() =~= before.push(self.pending@.last()@));
        }
        Ok(true)
    }

    /// Enqueue a message, making room if the queue is full: a full queue
    /// is first drained into the store (the worker catching up), then the
    /// message is kept. Fails only after shutdown.
    pub fn enqueue_async(&mut self, db: &mut DbPool, message: Message) -> (r: Result<
        (),
        Error,
    >)
        requires
            old(self).wf(),
            old(db).wf(),
            old(db).spec_next_id() + old(self).spec_pending().len() <= i64::MAX,
        ensures
            final(self).wf(),
            final(db).wf(),
            final(self).same_shape(old(self)),
            final(self).spec_closed() == old(self).spec_closed(),
            ((*final(db)) is Postgres) <==> ((*old(db)) is Postgres),
            old(self).spec_closed() ==> (r matches Err(e) && e is Shutdown
                && final(self).spec_pending() == old(self).spec_pending()
                && final(db)@ == old(db)@
                && final(db).spec_next_id() == old(db).spec_next_id()),
            (!old(self).spec_closed() && old(self).spec_pending().len() < old(
                self,
            ).spec_capacity()) ==> (r is Ok
                && final(self).spec_pending() == old(self).spec_pending().push(message@)
                && final(db)@ == old(db)@
                && final(db).spec_next_id() == old(db).spec_next_id()),
            (!old(self).spec_closed() && old(self).spec_pending().len() >= old(
                self,
            ).spec_capacity()) ==> (r is Ok
                && final(self).spec_pending() == seq![message@]
                && final(db)@ == old(db)@ + with_ids(
                    old(self).spec_pending(),
                    old(db).spec_next_id(),
                )
                && final(db).spec_next_id() == old(db).spec_next_id() + old(
                    self,
                ).spec_pending().len()),
    {
        if self.closed {
            return Err(Error::Shutdown);
        }
        if self.pending.len() >= self.max_queue_size {
            self.drain_to(db);
        }
        let ghost before = self.spec_pending();
        self.pending.push(message);
        proof {
            assert(self.spec_pending() =~= before.push(self.pending@.last()@));
        }
        Ok(())
    }

    /// Flush: write every message enqueued before this call to the store,
    /// in batches of at most `batch_size`. When it returns successfully
    /// the queue is empty and the store holds all of them, ids assigned in
    /// enqueue order. Fails only after shutdown, leaving everything
    /// unchanged.
    pub fn flush(&mut self, db: &mut DbPool) -> (r: Result<(), Error>)
        requires
            old(self).wf(),
            old(db).wf(),
            old(db).spec_next_id() + old(self).spec_pending().len() <= i64::MAX,
        ensures
            final(self).wf(),
            final(db).wf(),
            final(self).same_shape(old(self)),
            final(self).spec_closed() == old(self).spec_closed(),
            ((*final(db)) is Postgres) <==> ((*old(db)) is Postgres),
            old(self).spec_closed() ==> (r matches Err(e) && e is Shutdown
                && final(self).spec_pending() == old(self).spec_pending()
                && final(db)@ == old(db)@
                && final(db).spec_next_id() == old(db).spec_next_id()),
            !old(self).spec_closed() ==> (r is Ok
                && final(self).spec_pending().len() == 0
                && final(db)@ == old(db)@ + with_ids(
                    old(self).spec_pending(),
                    old(db).spec_next_id(),
                )
                && final(db).spec_next_id() == old(db).spec_next_id() + old(
                    self,
                ).spec_pending().len()),
    {
        if self.closed {
            return Err(Error::Shutdown);
        }
        self.drain_to(db);
        Ok(())
    }

    /// Shut the writer down: drain the queue a last time, then close. A
    /// closed writer accepts nothing and never writes again; shutting down
    /// twice changes nothing more.
    pub fn shutdown(&mut self, db: &mut DbPool) -> (r: Result<(), Error>)
        requires
            old(self).wf(),
            old(db).wf(),
            old(db).spec_next_id() + old(self).spec_pending().len() <= i64::MAX,
        ensures
            r is Ok,
            final(self).wf(),
            final(db).wf(),
            final(self).same_shape(old(self)),
            final(self).spec_closed(),
            final(self).spec_pending().len() == 0,
            ((*final(db)) is Postgres) <==> ((*old(db)) is Postgres),
            final(db)@ == old(db)@ + with_ids(old(self).spec_pending(), old(db).spec_next_id()),
            final(db).spec_next_id() == old(db).spec_next_id() + old(self).spec_pending().len(),
    {
        if self.closed {
            proof {
                assert(old(self).spec_pending() =~= Seq::<MsgView>::empty());
                assert(db@ =~= db@ + with_ids(old(self).spec_pending(), db.spec_next_id()));
            }
            return Ok(());
        }
        self.drain_to(db);
        self.closed = true;
        Ok(())
    }

    /// Write the whole queue to the store in batches of at most
    /// `batch_size`, at least one message per batch, in enqueue order.
    fn drain_to(&mut self, db: &mut DbPool)
        requires
            old(self).wf(),
            old(db).wf(),
            old(db).spec_next_id() + old(self).spec_pending().len() <= i64::MAX,
        ensures
            final(self).wf(),
            final(db).wf(),
            final(self).same_shape(old(self)),
            final(self).spec_closed() == old(self).spec_closed(),
            final(self).spec_pending().len() == 0,
            ((*final(db)) is Postgres) <==> ((*old(db)) is Postgres),
            final(db)@ == old(db)@ + with_ids(old(self).spec_pending(), old(db).spec_next_id()),
            final(db).spec_next_id() == old(db).spec_next_id() + old(self).spec_pending().len(),
    {
        let ghost queued = self.spec_pending();
        let ghost base = db.spec_next_id();
        let ghost db_orig = db@;
        let n = self.pending.len();
        let mut start: usize = 0;
        while start < n
            invariant
                start <= n,
                n == self.pending@.len(),
                queued == self.spec_pending(),
                queued.len() == n,
                self.wf(),
                db.wf(),
                base + n <= i64::MAX,
                db.spec_next_id() == base + start,
                db@ == db_orig + with_ids(queued.take(start as int), base),
                ((*db) is Postgres) <==> ((*old(db)) is Postgres),
            decreases n - start,
        {
            let ghost chunk_base = start as int;
            let mut chunk: Vec<Message> = Vec::new();
            let first = self.pending[start].duplicate();
            chunk.push(first);
            start += 1;
            proof {
                assert(chunk@.map_values(|m: Message| m@) =~= queued.subrange(
                    chunk_base,
                    start as int,
                ));
            }
            while chunk.len() < self.batch_size && start < n
                invariant
                    0 <= chunk_base < start <= n,
                    n == self.pending@.len(),
                    queued == self.spec_pending(),
                    queued.len() == n,
                    chunk@.len() == start - chunk_base,
                    chunk@.map_values(|m: Message| m@) == queued.subrange(
                        chunk_base,
                        start as int,
                    ),
                decreases n - start,
            {
                let next = self.pending[start].duplicate();
                let ghost before = chunk@.map_values(|m: Message| m@);
                chunk.push(next);
                start += 1;
                proof {
                    assert(chunk@.map_values(|m: Message| m@) =~= before.push(
                        queued[start - 1],
                    ));
                    assert(chunk@.map_values(|m: Message| m@) =~= queued.subrange(
                        chunk_base,
                        start as int,
                    ));
                }
            }
            db.insert_batch(chunk.as_slice());
            proof {
                lemma_with_ids_concat(
                    queued.take(chunk_base),
                    queued.subrange(chunk_base, start as int),
                    base,
                );
                assert(queued.take(start as int) =~= queued.take(chunk_base) + queued.subrange(
                    chunk_base,
                    start as int,
                ));
                assert(db@ =~= db_orig + with_ids(queued.take(start as int), base));
            }
        }
        self.pending.clear();
        proof {
            assert(queued.take(n as int) =~= queued);
            assert(self.spec_pending() =~= Seq::<MsgView>::empty());
        }
    }
}

} // verus!
