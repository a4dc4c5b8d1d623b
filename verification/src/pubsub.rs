//! The engine facade: store, writer and subscriber registry wired
//! together, exposing the public operations.
//!
//! One subscriber per session: subscribing twice is a configuration
//! error. Publishes go through the writer's bounded queue; a flush is the
//! barrier that persists everything published before it; shutdown stops
//! every subscriber, drains the writer a last time and closes it, after
//! which no publish is accepted and no store write occurs.

use vstd::prelude::*;
use crate::config::{spec_is_postgres, spec_is_sqlite, Config};
use crate::db::DbPool;
use crate::error::Error;
use crate::message::{Message, MsgView};
use crate::store::{spec_max_id, stamped, with_ids};
use crate::subscriber::{Subscriber, DELIVERY_FETCH_LIMIT};
use crate::text::str_eq;
use crate::writer::MessageWriter;

verus! {

/// The instant a retention window reaches back to from `now`, clamped at
/// the bottom of the representable range.
pub open spec fn spec_cutoff(now: int, retention: int) -> int {
    if now - retention < i64::MIN {
        i64::MIN as int
    } else {
        now - retention
    }
}

/// `now` minus a retention, saturating at the bottom of the range.
fn cutoff_before(now: i64, retention_ms: u64) -> (c: i64)
    ensures
        c as int == spec_cutoff(now as int, retention_ms as int),
{
    let wide: i128 = (now as i128) - (retention_ms as i128);
    if wide < i64::MIN as i128 {
        i64::MIN
    } else {
        wide as i64
    }
}

/// The rows surviving the delivered-retention sweep run at `now`.
pub open spec fn swept_delivered(msgs: Seq<MsgView>, now: int, retention: int) -> Seq<MsgView> {
    msgs.filter(|m: MsgView| !crate::store::expired_delivered(m, spec_cutoff(now, retention)))
}

/// The rows surviving the undelivered-retention sweep run at `now`.
pub open spec fn swept_undelivered(msgs: Seq<MsgView>, now: int, retention: int) -> Seq<MsgView> {
    msgs.filter(|m: MsgView| !crate::store::expired_undelivered(m, spec_cutoff(now, retention)))
}

/// The rows surviving both retention sweeps run at `now`.
pub open spec fn swept(
    msgs: Seq<MsgView>,
    now: int,
    delivered_retention: int,
    undelivered_retention: int,
) -> Seq<MsgView> {
    swept_undelivered(swept_delivered(msgs, now, delivered_retention), now, undelivered_retention)
}

/// The pub/sub engine.
#[derive(Debug)]
pub struct PubSub {
    db: DbPool,
    config: Config,
    writer: MessageWriter,
    subscribers: Vec<Subscriber>,
}

impl PubSub {
    /// The store pool.
    pub closed spec fn spec_db(&self) -> DbPool {
        self.db
    }

    /// The writer.
    pub closed spec fn spec_writer(&self) -> MessageWriter {
        self.writer
    }

    /// The registry, in subscription order.
    pub closed spec fn spec_subscribers(&self) -> Seq<Subscriber> {
        self.subscribers@
    }

    /// The frozen configuration.
    pub closed spec fn spec_config(&self) -> Config {
        self.config
    }

    /// The persisted rows.
    pub open spec fn spec_store(&self) -> Seq<MsgView> {
        self.spec_db()@
    }

    /// The messages enqueued and not yet persisted.
    pub open spec fn spec_pending(&self) -> Seq<MsgView> {
        self.spec_writer().spec_pending()
    }

    /// Whether the engine has been shut down.
    pub open spec fn spec_closed(&self) -> bool {
        self.spec_writer().spec_closed()
    }

    /// The subscribed sessions, in subscription order.
    pub open spec fn spec_sessions(&self) -> Seq<Seq<char>> {
        self.spec_subscribers().map_values(|s: Subscriber| s.spec_session_id())
    }

    /// Whether a session has a subscriber.
    pub open spec fn spec_subscribed(&self, session: Seq<char>) -> bool {
        self.spec_sessions().contains(session)
    }

    /// No two subscribers share a session.
    pub open spec fn sessions_unique(&self) -> bool {
        forall|i: int, j: int|
            0 <= i < j < self.spec_sessions().len() ==> self.spec_sessions()[i]
                != self.spec_sessions()[j]
    }

    /// The engine invariant. A subscriber leaves the registry when it is
    /// stopped, so none in it is.
    pub open spec fn wf(&self) -> bool {
        &&& self.spec_db().wf()
        &&& self.spec_writer().wf()
        &&& self.sessions_unique()
        &&& forall|i: int|
            0 <= i < self.spec_subscribers().len() ==> (#[trigger] self.spec_subscribers()[i]).wf()
                && !self.spec_subscribers()[i].spec_stopped()
    }

    /// There is room to assign ids to everything queued plus `extra` more
    /// messages — a machine limit, not a policy.
    pub open spec fn ids_available(&self, extra: int) -> bool {
        self.spec_db().spec_next_id() + self.spec_pending().len() + extra <= i64::MAX
    }

    /// What the engine looks like freshly constructed over `db` with
    /// `config`: empty queue, open writer, no subscribers.
    pub open spec fn fresh_over(&self, db: &DbPool, config: &Config) -> bool {
        &&& self.spec_db() == *db
        &&& self.spec_config() == *config
        &&& self.spec_pending() == Seq::<MsgView>::empty()
        &&& !self.spec_closed()
        &&& self.spec_writer().spec_batch_size() == config.batch_size as int
        &&& self.spec_writer().spec_capacity() == config.max_queue_size as int
        &&& self.spec_subscribers() == Seq::<Subscriber>::empty()
    }

    /// The registry part of the invariant carries over between two states
    /// with the same subscribers.
    proof fn lemma_same_registry(&self, other: &Self)
        requires
            self.spec_subscribers() == other.spec_subscribers(),
            other.sessions_unique(),
            forall|i: int|
                0 <= i < other.spec_subscribers().len() ==> (#[trigger] other.spec_subscribers()[i]).wf() && !other.spec_subscribers()[i].spec_stopped(),
        ensures
            self.sessions_unique(),
            forall|i: int|
                0 <= i < self.spec_subscribers().len() ==> (#[trigger] self.spec_subscribers()[i]).wf() && !self.spec_subscribers()[i].spec_stopped(),
    {
        assert forall|i: int, j: int|
            0 <= i < j < self.spec_sessions().len() implies self.spec_sessions()[i]
            != self.spec_sessions()[j] by {
            assert(self.spec_sessions()[i] == other.spec_sessions()[i]);
            assert(self.spec_sessions()[j] == other.spec_sessions()[j]);
        }
        assert forall|i: int|
            0 <= i < self.spec_subscribers().len() implies (#[trigger] self.spec_subscribers()[i]).wf() && !self.spec_subscribers()[i].spec_stopped() by {
            assert(self.spec_subscribers()[i] == other.spec_subscribers()[i]);
        }
    }

    /// Create an engine: the config's URL selects the backend; an
    /// unsupported URL is a configuration error carrying the URL.
    pub fn new(config: Config) -> (r: Result<Self, Error>)
        requires
            1 <= config.max_queue_size,
        ensures
            (spec_is_postgres(config.database_url@) || spec_is_sqlite(config.database_url@)) <==> (
            r is Ok),
            r matches Ok(e) ==> e.wf() && e.fresh_over(&e.spec_db(), &config)
                && e.spec_store() == Seq::<MsgView>::empty() && ((e.spec_db() is Postgres)
                == spec_is_postgres(config.database_url@)),
            r matches Err(e) ==> e matches Error::Config(u) && u@ == config.database_url@,
    {
        let db = match DbPool::new(&config) {
            Ok(db) => db,
            Err(e) => {
                return Err(e);
            },
        };
        let writer = MessageWriter::new(&config);
        Ok(PubSub { db, config, writer, subscribers: Vec::new() })
    }

    /// Create an engine over an existing pool.
    pub fn with_db(db: DbPool, config: Config) -> (e: Self)
        requires
            db.wf(),
            1 <= config.max_queue_size,
        ensures
            e.wf(),
            e.fresh_over(&db, &config),
    {
        let writer = MessageWriter::new(&config);
        PubSub { db, config, writer, subscribers: Vec::new() }
    }

    /// Publish a message to a session without waiting: `Ok(true)` when it
    /// was queued, `Ok(false)` when the queue was full and the message was
    /// dropped, an error after shutdown. Nothing touches the store here;
    /// persistence happens on the worker's batch boundary or at a flush.
    pub fn broadcast(&mut self, session_id: &str, event_type: &str, data: &str) -> (r: Result<
        bool,
        Error,
    >)
        requires
            old(self).wf(),
        ensures
            final(self).wf(),
            final(self).spec_store() == old(self).spec_store(),
            final(self).spec_db() == old(self).spec_db(),
            final(self).spec_subscribers() == old(self).spec_subscribers(),
            final(self).spec_config() == old(self).spec_config(),
            final(self).spec_closed() == old(self).spec_closed(),
            final(self).spec_writer().same_shape(&old(self).spec_writer()),
            old(self).spec_closed() ==> (r matches Err(e) && e is Shutdown
                && final(self).spec_pending() == old(self).spec_pending()),
            (!old(self).spec_closed() && old(self).spec_pending().len() < old(
                self,
            ).spec_writer().spec_capacity()) ==> (r matches Ok(b) && b && exists|t: int|
                final(self).spec_pending() == old(self).spec_pending().push(
                    MsgView {
                        id: 0,
                        session_id: session_id@,
                        event_type: event_type@,
                        data: data@,
                        created_at: t,
                        delivered_at: None,
                    },
                )),
            (!old(self).spec_closed() && old(self).spec_pending().len() >= old(
                self,
            ).spec_writer().spec_capacity()) ==> (r matches Ok(b) && !b
                && final(self).spec_pending() == old(self).spec_pending()),
    {
        let message = Message::new(session_id.to_owned(), event_type.to_owned(), data.to_owned());
        let ghost mv = message@;
        let r = self.writer.enqueue(message);
        proof {
            assert(mv == (MsgView {
                id: 0,
                session_id: session_id@,
                event_type: event_type@,
                data: data@,
                created_at: mv.created_at,
                delivered_at: None,
            }));
            self.lemma_same_registry(old(self));
        }
        r
    }

    /// Publish a message, waiting for queue room: a full queue is drained
    /// to the store first. Fails only after shutdown.
    pub fn broadcast_async(&mut self, session_id: &str, event_type: &str, data: &str) -> (r:
        Result<(), Error>)
        requires
            old(self).wf(),
            old(self).ids_available(0),
        ensures
            final(self).wf(),
            final(self).spec_subscribers() == old(self).spec_subscribers(),
            final(self).spec_config() == old(self).spec_config(),
            final(self).spec_closed() == old(self).spec_closed(),
            final(self).spec_writer().same_shape(&old(self).spec_writer()),
            ((final(self).spec_db()) is Postgres) <==> ((old(self).spec_db()) is Postgres),
            old(self).spec_closed() ==> (r matches Err(e) && e is Shutdown
                && final(self).spec_pending() == old(self).spec_pending()
                && final(self).spec_store() == old(self).spec_store()),
            !old(self).spec_closed() ==> r is Ok,
            (!old(self).spec_closed() && old(self).spec_pending().len() < old(
                self,
            ).spec_writer().spec_capacity()) ==> (final(self).spec_store() == old(
                self,
            ).spec_store() && exists|t: int|
                final(self).spec_pending() == old(self).spec_pending().push(
                    MsgView {
                        id: 0,
                        session_id: session_id@,
                        event_type: event_type@,
                        data: data@,
                        created_at: t,
                        delivered_at: None,
                    },
                )),
            (!old(self).spec_closed() && old(self).spec_pending().len() >= old(
                self,
            ).spec_writer().spec_capacity()) ==> (final(self).spec_store() == old(
                self,
            ).spec_store() + with_ids(old(self).spec_pending(), old(self).spec_db().spec_next_id())
                && exists|t: int|
                final(self).spec_pending() == seq![
                    MsgView {
                        id: 0,
                        session_id: session_id@,
                        event_type: event_type@,
                        data: data@,
                        created_at: t,
                        delivered_at: None,
                    },
                ]),
    {
        let message = Message::new(session_id.to_owned(), event_type.to_owned(), data.to_owned());
        let ghost mv = message@;
        let r = self.writer.enqueue_async(&mut self.db, message);
        proof {
            assert(mv == (MsgView {
                id: 0,
                session_id: session_id@,
                event_type: event_type@,
                data: data@,
                created_at: mv.created_at,
                delivered_at: None,
            }));
            assert(seq![mv] =~= seq![
                MsgView {
                    id: 0,
                    session_id: session_id@,
                    event_type: event_type@,
                    data: data@,
                    created_at: mv.created_at,
                    delivered_at: None,
                },
            ]);
            self.lemma_same_registry(old(self));
        }
        r
    }

    /// Subscribe to a session: an error naming the session if it already
    /// has a subscriber, otherwise a new subscriber starting at the
    /// store's current largest id.
    pub fn subscribe(&mut self, session_id: &str) -> (r: Result<(), Error>)
        requires
            old(self).wf(),
        ensures
            final(self).wf(),
            final(self).spec_db() == old(self).spec_db(),
            final(self).spec_writer() == old(self).spec_writer(),
            final(self).spec_config() == old(self).spec_config(),
            old(self).spec_subscribed(session_id@) ==> (r matches Err(e) && e matches
                Error::Config(u) && u@ == session_id@ && final(self).spec_subscribers() == old(
                self,
            ).spec_subscribers()),
            !old(self).spec_subscribed(session_id@) ==> (r is Ok
                && final(self).spec_sessions() == old(self).spec_sessions().push(session_id@)
                && final(self).spec_subscribers().len() == old(self).spec_subscribers().len() + 1
                && final(self).spec_subscribers().last().spec_session_id() == session_id@
                && final(self).spec_subscribers().last().spec_last_id() == spec_max_id(
                old(self).spec_store(),
            ) && !final(self).spec_subscribers().last().spec_stopped()),
    {
        if self.contains_session(session_id) {
            return Err(Error::Config(session_id.to_owned()));
        }
        let ghost before = self.spec_subscribers();
        let sub = Subscriber::new(session_id.to_owned(), &self.db);
        self.subscribers.push(sub);
        proof {
            assert(self.spec_sessions() =~= old(self).spec_sessions().push(session_id@));
            assert forall|i: int, j: int|
                0 <= i < j < self.spec_sessions().len() implies self.spec_sessions()[i]
                != self.spec_sessions()[j] by {
                if j < before.len() {
                } else {
                    assert(self.spec_sessions()[j] == session_id@);
                    assert(!old(self).spec_sessions().contains(session_id@));
                    assert(old(self).spec_sessions()[i] == self.spec_sessions()[i]);
                }
            }
        }
        Ok(())
    }

    /// Remove a session's subscriber and stop it; removing an unknown
    /// session is a silent success.
    pub fn unsubscribe(&mut self, session_id: &str) -> (r: Result<(), Error>)
        requires
            old(self).wf(),
        ensures
            r is Ok,
            final(self).wf(),
            final(self).spec_db() == old(self).spec_db(),
            final(self).spec_writer() == old(self).spec_writer(),
            final(self).spec_config() == old(self).spec_config(),
            !final(self).spec_subscribed(session_id@),
            !old(self).spec_subscribed(session_id@) ==> final(self).spec_subscribers() == old(
                self,
            ).spec_subscribers(),
            old(self).spec_subscribed(session_id@) ==> (exists|i: int|
                {
                    &&& 0 <= i < old(self).spec_subscribers().len()
                    &&& (#[trigger] old(self).spec_subscribers()[i]).spec_session_id()
                        == session_id@
                    &&& final(self).spec_subscribers() == old(self).spec_subscribers().remove(i)
                }),
    {
        match self.find_session(session_id) {
            Some(i) => {
                let ghost before = self.spec_subscribers();
                let mut sub = self.subscribers.remove(i);
                sub.stop();
                proof {
                    assert(self.spec_subscribers() =~= before.remove(i as int));
                    assert(self.spec_sessions() =~= old(self).spec_sessions().remove(i as int));
                    assert forall|k: int|
                        0 <= k < self.spec_sessions().len() implies self.spec_sessions()[k]
                        != session_id@ by {
                        if k < i {
                            assert(self.spec_sessions()[k] == old(self).spec_sessions()[k]);
                        } else {
                            assert(self.spec_sessions()[k] == old(self).spec_sessions()[k + 1]);
                        }
                    }
                    if self.spec_subscribed(session_id@) {
                        let k = choose|k: int|
                            0 <= k < self.spec_sessions().len() && self.spec_sessions()[k]
                                == session_id@;
                        assert(false);
                    }
                }
                Ok(())
            },
            None => {
                proof {
                    if self.spec_subscribed(session_id@) {
                        let k = choose|k: int|
                            0 <= k < self.spec_sessions().len() && self.spec_sessions()[k]
                                == session_id@;
                        assert(self.spec_subscribers()[k].spec_session_id() == session_id@);
                        assert(false);
                    }
                }
                Ok(())
            },
        }
    }

    /// Whether a session has a subscriber.
    pub fn is_subscribed(&self, session_id: &str) -> (r: bool)
        requires
            self.wf(),
        ensures
            r == self.spec_subscribed(session_id@),
    {
        self.contains_session(session_id)
    }

    /// The number of active subscriptions.
    pub fn subscription_count(&self) -> (n: usize)
        ensures
            n == self.spec_sessions().len(),
    {
        self.subscribers.len()
    }

    /// Flush: persist every message published before this call. After a
    /// successful flush the writer queue is empty and the store holds all
    /// of them, ids assigned in publish order. Fails only after shutdown.
    pub fn flush(&mut self) -> (r: Result<(), Error>)
        requires
            old(self).wf(),
            old(self).ids_available(0),
        ensures
            final(self).wf(),
            final(self).spec_subscribers() == old(self).spec_subscribers(),
            final(self).spec_config() == old(self).spec_config(),
            final(self).spec_closed() == old(self).spec_closed(),
            final(self).spec_writer().same_shape(&old(self).spec_writer()),
            ((final(self).spec_db()) is Postgres) <==> ((old(self).spec_db()) is Postgres),
            old(self).spec_closed() ==> (r matches Err(e) && e is Shutdown
                && final(self).spec_store() == old(self).spec_store()
                && final(self).spec_pending() == old(self).spec_pending()),
            !old(self).spec_closed() ==> (r is Ok
                && final(self).spec_pending().len() == 0
                && final(self).spec_store() == old(self).spec_store() + with_ids(
                    old(self).spec_pending(),
                    old(self).spec_db().spec_next_id(),
                )
                && final(self).spec_db().spec_next_id() == old(self).spec_db().spec_next_id()
                    + old(self).spec_pending().len()),
    {
        let r = self.writer.flush(&mut self.db);
        proof {
            self.lemma_same_registry(old(self));
        }
        r
    }

    /// Stamp the rows named by `ids` as delivered at the current instant;
    /// a row already stamped keeps its first stamp.
    pub fn mark_delivered(&mut self, ids: &[i64]) -> (r: Result<(), Error>)
        requires
            old(self).wf(),
        ensures
            r is Ok,
            final(self).wf(),
            final(self).spec_subscribers() == old(self).spec_subscribers(),
            final(self).spec_writer() == old(self).spec_writer(),
            final(self).spec_config() == old(self).spec_config(),
            ((final(self).spec_db()) is Postgres) <==> ((old(self).spec_db()) is Postgres),
            exists|t: int| final(self).spec_store() == stamped(old(self).spec_store(), ids@, t),
            final(self).spec_db().spec_next_id() == old(self).spec_db().spec_next_id(),
    {
        self.db.mark_delivered(ids);
        proof {
            self.lemma_same_registry(old(self));
            let t = choose|t: int| self.db@ == stamped(old(self).spec_db()@, ids@, t);
            assert(self.spec_store() == stamped(old(self).spec_store(), ids@, t));
        }
        Ok(())
    }

    /// Run both retention sweeps against the instant `now`: first delete
    /// rows delivered before `now` minus the delivered retention, then
    /// undelivered rows created before `now` minus the undelivered
    /// retention. Returns how many rows each sweep removed.
    pub fn cleanup_at(&mut self, now: i64) -> (r: (u64, u64))
        requires
            old(self).wf(),
        ensures
            final(self).wf(),
            final(self).spec_subscribers() == old(self).spec_subscribers(),
            final(self).spec_writer() == old(self).spec_writer(),
            final(self).spec_config() == old(self).spec_config(),
            ((final(self).spec_db()) is Postgres) <==> ((old(self).spec_db()) is Postgres),
            final(self).spec_db().spec_next_id() == old(self).spec_db().spec_next_id(),
            final(self).spec_store() == swept(
                old(self).spec_store(),
                now as int,
                old(self).spec_config().delivered_retention_ms as int,
                old(self).spec_config().undelivered_retention_ms as int,
            ),
            r.0 as int == old(self).spec_store().len() - swept_delivered(
                old(self).spec_store(),
                now as int,
                old(self).spec_config().delivered_retention_ms as int,
            ).len(),
            r.1 as int == swept_delivered(
                old(self).spec_store(),
                now as int,
                old(self).spec_config().delivered_retention_ms as int,
            ).len() - final(self).spec_store().len(),
            forall|i: int|
                0 <= i < final(self).spec_store().len() ==> !crate::store::expired_delivered(
                    #[trigger] final(self).spec_store()[i],
                    spec_cutoff(now as int, old(self).spec_config().delivered_retention_ms as int),
                ) && !crate::store::expired_undelivered(
                    final(self).spec_store()[i],
                    spec_cutoff(
                        now as int,
                        old(self).spec_config().undelivered_retention_ms as int,
                    ),
                ),
    {
        let cutoff_d = cutoff_before(now, self.config.delivered_retention_ms);
        let cutoff_u = cutoff_before(now, self.config.undelivered_retention_ms);
        let removed_delivered = self.db.cleanup_delivered(cutoff_d);
        let ghost mid = self.spec_store();
        let removed_undelivered = self.db.cleanup_undelivered(cutoff_u);
        proof {
            self.lemma_same_registry(old(self));
            crate::store::lemma_filter_sorted(
                mid,
                |m: MsgView|
                    !crate::store::expired_undelivered(
                        m,
                        spec_cutoff(
                            now as int,
                            old(self).spec_config().undelivered_retention_ms as int,
                        ),
                    ),
            );
            assert forall|i: int|
                0 <= i < self.spec_store().len() implies !crate::store::expired_delivered(
                #[trigger] self.spec_store()[i],
                spec_cutoff(now as int, old(self).spec_config().delivered_retention_ms as int),
            ) by {
                assert(mid.contains(self.spec_store()[i]));
                let k = choose|k: int| 0 <= k < mid.len() && mid[k] == self.spec_store()[i];
            }
        }
        (removed_delivered, removed_undelivered)
    }

    /// Run both retention sweeps against the current instant.
    pub fn cleanup(&mut self) -> (r: Result<(u64, u64), Error>)
        requires
            old(self).wf(),
        ensures
            r is Ok,
            final(self).wf(),
            final(self).spec_subscribers() == old(self).spec_subscribers(),
            final(self).spec_writer() == old(self).spec_writer(),
            final(self).spec_config() == old(self).spec_config(),
            ((final(self).spec_db()) is Postgres) <==> ((old(self).spec_db()) is Postgres),
            final(self).spec_db().spec_next_id() == old(self).spec_db().spec_next_id(),
            exists|now: int|
                final(self).spec_store() == #[trigger] swept(
                    old(self).spec_store(),
                    now,
                    old(self).spec_config().delivered_retention_ms as int,
                    old(self).spec_config().undelivered_retention_ms as int,
                ),
    {
        let now = crate::message::now_millis();
        let r = self.cleanup_at(now);
        Ok(r)
    }

    /// Shut the engine down: stop and drop every subscriber, drain the
    /// writer a last time and close it. Afterwards no callback can fire —
    /// no subscriber exists — and no publish is accepted, so no further
    /// store write occurs. Shutting down twice changes nothing more.
    pub fn shutdown(&mut self) -> (r: Result<(), Error>)
        requires
            old(self).wf(),
            old(self).ids_available(0),
        ensures
            r is Ok,
            final(self).wf(),
            final(self).spec_subscribers().len() == 0,
            final(self).spec_closed(),
            final(self).spec_pending().len() == 0,
            final(self).spec_config() == old(self).spec_config(),
            final(self).spec_writer().same_shape(&old(self).spec_writer()),
            ((final(self).spec_db()) is Postgres) <==> ((old(self).spec_db()) is Postgres),
            final(self).spec_store() == old(self).spec_store() + with_ids(
                old(self).spec_pending(),
                old(self).spec_db().spec_next_id(),
            ),
    {
        while self.subscribers.len() > 0
            invariant
                self.db == old(self).db,
                self.writer == old(self).writer,
                self.config == old(self).config,
            decreases self.subscribers@.len(),
        {
            let sub = self.subscribers.pop();
            match sub {
                Some(mut s) => {
                    s.stop();
                },
                None => {},
            }
        }
        let r = self.writer.shutdown(&mut self.db);
        proof {
            assert(self.spec_subscribers().len() == 0);
            assert(self.spec_sessions().len() == 0);
        }
        r
    }

    /// One delivery step for a session: fetch its pending messages above
    /// the cursor, advance the cursor, and hand the messages back for the
    /// caller to run its callback on, in order. An unknown session is an
    /// error naming it.
    pub fn poll(&mut self, session_id: &str) -> (r: Result<Vec<Message>, Error>)
        requires
            old(self).wf(),
        ensures
            final(self).wf(),
            final(self).spec_db() == old(self).spec_db(),
            final(self).spec_writer() == old(self).spec_writer(),
            final(self).spec_config() == old(self).spec_config(),
            final(self).spec_sessions() == old(self).spec_sessions(),
            !old(self).spec_subscribed(session_id@) ==> (r matches Err(e) && e matches
                Error::SessionNotFound(u) && u@ == session_id@ && final(self).spec_subscribers()
                == old(self).spec_subscribers()),
            old(self).spec_subscribed(session_id@) ==> (exists|i: int|
                {
                    &&& 0 <= i < old(self).spec_subscribers().len()
                    &&& (#[trigger] old(self).spec_subscribers()[i]).spec_session_id()
                        == session_id@
                    &&& final(self).spec_subscribers() == old(self).spec_subscribers().update(
                        i,
                        final(self).spec_subscribers()[i],
                    )
                    &&& (r matches Ok(msgs) && final(self).spec_subscribers()[i].delivered(
                        &old(self).spec_subscribers()[i],
                        &old(self).spec_db(),
                        msgs@,
                        DELIVERY_FETCH_LIMIT as int,
                    ))
                    &&& final(self).spec_subscribers()[i].spec_last_id() >= old(
                        self,
                    ).spec_subscribers()[i].spec_last_id()
                    &&& final(self).spec_subscribers()[i].spec_stopped() == old(
                        self,
                    ).spec_subscribers()[i].spec_stopped()
                }),
    {
        match self.find_session(session_id) {
            None => {
                proof {
                    if self.spec_subscribed(session_id@) {
                        let k = choose|k: int|
                            0 <= k < self.spec_sessions().len() && self.spec_sessions()[k]
                                == session_id@;
                        assert(self.spec_subscribers()[k].spec_session_id() == session_id@);
                        assert(false);
                    }
                }
                Err(Error::SessionNotFound(session_id.to_owned()))
            },
            Some(i) => {
                let ghost before = self.spec_subscribers();
                proof {
                    assert(before[i as int].wf() && !before[i as int].spec_stopped());
                    assert(self.spec_sessions()[i as int] == before[i as int].spec_session_id());
                }
                let mut sub = self.subscribers.remove(i);
                let msgs = sub.poll(&self.db);
                let ghost stepped = sub;
                self.subscribers.insert(i, sub);
                proof {
                    assert(self.spec_subscribers() =~= before.update(i as int, stepped));
                    assert forall|k: int|
                        0 <= k < self.spec_subscribers().len() implies (
                    #[trigger] self.spec_subscribers()[k]).wf()
                        && !self.spec_subscribers()[k].spec_stopped() by {
                        if k == i as int {
                            assert(self.spec_subscribers()[k] == stepped);
                        } else {
                            assert(self.spec_subscribers()[k] == before[k]);
                        }
                    }
                    assert(self.spec_sessions() =~= old(self).spec_sessions());
                    self.lemma_same_sessions_registry(old(self));
                    assert(old(self).spec_subscribers()[i as int].spec_session_id()
                        == session_id@);
                    assert(self.spec_subscribers()[i as int] == stepped);
                    assert(self.spec_subscribers() == old(self).spec_subscribers().update(
                        i as int,
                        self.spec_subscribers()[i as int],
                    ));
                    assert(stepped.delivered(
                        &before[i as int],
                        &old(self).spec_db(),
                        msgs@,
                        DELIVERY_FETCH_LIMIT as int,
                    ));
                }
                Ok(msgs)
            },
        }
    }

    /// Read up to `limit` pending rows of a session with id above
    /// `after_id`, straight from the store.
    pub fn fetch_after(&self, session_id: &str, after_id: i64, limit: usize) -> (r: Vec<Message>)
        requires
            self.wf(),
            1 <= limit,
        ensures
            r@.map_values(|m: Message| m@) == crate::store::take_up_to(
                crate::store::pending_after(self.spec_store(), session_id@, after_id as int),
                limit as int,
            ),
    {
        self.db.fetch_after(session_id, after_id, limit)
    }

    /// The registry part of the invariant carries over between two states
    /// whose subscribers hold the same sessions in the same order and are
    /// all well formed.
    proof fn lemma_same_sessions_registry(&self, other: &Self)
        requires
            self.spec_sessions() == other.spec_sessions(),
            other.sessions_unique(),
            forall|i: int|
                0 <= i < self.spec_subscribers().len() ==> (#[trigger] self.spec_subscribers()[i]).wf(),
        ensures
            self.sessions_unique(),
    {
        assert forall|i: int, j: int|
            0 <= i < j < self.spec_sessions().len() implies self.spec_sessions()[i]
            != self.spec_sessions()[j] by {
            assert(other.spec_sessions()[i] != other.spec_sessions()[j]);
        }
    }

    /// The index of a session's subscriber, if any.
    fn find_session(&self, session_id: &str) -> (r: Option<usize>)
        ensures
            r matches Some(i) ==> 0 <= i < self.spec_subscribers().len()
                && self.spec_sessions()[i as int] == session_id@,
            r is None ==> forall|k: int|
                0 <= k < self.spec_sessions().len() ==> #[trigger] self.spec_sessions()[k]
                    != session_id@,
    {
        let n = self.subscribers.len();
        let mut i: usize = 0;
        while i < n
            invariant
                i <= n,
                n == self.spec_subscribers().len(),
                forall|k: int| 0 <= k < i ==> #[trigger] self.spec_sessions()[k] != session_id@,
            decreases n - i,
        {
            if str_eq(self.subscribers[i].session_id(), session_id) {
                proof {
                    assert(self.spec_sessions()[i as int] == self.spec_subscribers()[i as int].spec_session_id());
                }
                return Some(i);
            }
            proof {
                assert(self.spec_sessions()[i as int] == self.spec_subscribers()[i as int].spec_session_id());
            }
            i += 1;
        }
        None
    }

    /// Whether some subscriber holds this session.
    fn contains_session(&self, session_id: &str) -> (r: bool)
        ensures
            r == self.spec_subscribed(session_id@),
    {
        match self.find_session(session_id) {
            Some(i) => {
                proof {
                    assert(self.spec_sessions().contains(session_id@)) by {
                        assert(self.spec_sessions()[i as int] == session_id@);
                    }
                }
                true
            },
            None => {
                proof {
                    if self.spec_sessions().contains(session_id@) {
                        let k = choose|k: int|
                            0 <= k < self.spec_sessions().len() && self.spec_sessions()[k]
                                == session_id@;
                        assert(false);
                    }
                }
                false
            },
        }
    }
}

} // verus!
