//! The per-session subscriber: the cursor logic of message delivery.
//!
//! A subscriber starts at the store's largest id, so it sees only
//! messages persisted after it subscribed. It advances its cursor to the
//! id of each message it hands out, never backwards, and hands messages
//! out in ascending id order. The push variant reacts to store wakeups
//! whose payload names an id; the polling variant fetches on a cadence.
//! Either way the fetch is the authoritative source; a wakeup is only a
//! hint.

use vstd::prelude::*;
use crate::db::DbPool;
use crate::message::Message;
use crate::store::{msg_matches, pending_after, sorted_by_id, spec_max_id, take_up_to};
use crate::text::{parse_decimal, spec_parse_decimal};

verus! {

/// How many messages one delivery fetch may return.
pub const DELIVERY_FETCH_LIMIT: usize = 100;

/// How many messages the push variant's catch-up fetch may return.
pub const CATCH_UP_FETCH_LIMIT: usize = 1000;

/// A subscriber for a single session.
#[derive(Debug)]
pub struct Subscriber {
    session_id: String,
    last_id: i64,
    push_mode: bool,
    stopped: bool,
}

impl Subscriber {
    /// The session this subscriber delivers.
    pub closed spec fn spec_session_id(&self) -> Seq<char> {
        self.session_id@
    }

    /// The cursor: the largest id already handed out (or the starting id).
    pub closed spec fn spec_last_id(&self) -> int {
        self.last_id as int
    }

    /// Whether the subscriber uses the push path.
    pub closed spec fn spec_push_mode(&self) -> bool {
        self.push_mode
    }

    /// Whether the subscriber has been stopped.
    pub closed spec fn spec_stopped(&self) -> bool {
        self.stopped
    }

    /// The subscriber invariant: the cursor is never negative.
    pub open spec fn wf(&self) -> bool {
        0 <= self.spec_last_id()
    }

    /// The subscriber's identity and mode do not change across a step.
    pub open spec fn same_identity(&self, other: &Self) -> bool {
        &&& self.spec_session_id() == other.spec_session_id()
        &&& self.spec_push_mode() == other.spec_push_mode()
    }

    /// Create a subscriber for a session: the cursor starts at the store's
    /// current largest id, so rows already present are never delivered;
    /// the delivery variant follows the backend's push capability.
    pub fn new(session_id: String, db: &DbPool) -> (s: Self)
        requires
            db.wf(),
        ensures
            s.wf(),
            !s.spec_stopped(),
            s.spec_session_id() == session_id@,
            s.spec_last_id() == spec_max_id(db@),
            s.spec_push_mode() == (db is Postgres),
    {
        let last_id = db.max_id();
        let push_mode = db.is_postgres();
        Subscriber { session_id, last_id, push_mode, stopped: false }
    }

    /// The session id.
    pub fn session_id(&self) -> (r: &str)
        ensures
            r@ == self.spec_session_id(),
    {
        self.session_id.as_str()
    }

    /// Stop the subscriber: no later step delivers anything.
    pub fn stop(&mut self)
        ensures
            final(self).spec_stopped(),
            final(self).same_identity(old(self)),
            final(self).spec_last_id() == old(self).spec_last_id(),
    {
        self.stopped = true;
    }

    /// One polling step: fetch up to [`DELIVERY_FETCH_LIMIT`] pending
    /// messages above the cursor and advance the cursor to the last one.
    /// The caller hands the returned messages to its callback, in order.
    /// A stopped subscriber returns nothing and does not move.
    pub fn poll(&mut self, db: &DbPool) -> (r: Vec<Message>)
        requires
            old(self).wf(),
            db.wf(),
        ensures
            final(self).wf(),
            final(self).same_identity(old(self)),
            final(self).spec_stopped() == old(self).spec_stopped(),
            final(self).spec_last_id() >= old(self).spec_last_id(),
            old(self).spec_stopped() ==> (r@.len() == 0 && final(self).spec_last_id() == old(
                self,
            ).spec_last_id()),
            !old(self).spec_stopped() ==> final(self).delivered(old(self), db, r@, DELIVERY_FETCH_LIMIT as int),
    {
        if self.stopped {
            return Vec::new();
        }
        self.fetch_and_advance(db, DELIVERY_FETCH_LIMIT)
    }

    /// The push variant's catch-up: one fetch of up to
    /// [`CATCH_UP_FETCH_LIMIT`] pending messages, closing the gap between
    /// subscribing and arming the wakeup stream.
    pub fn catch_up(&mut self, db: &DbPool) -> (r: Vec<Message>)
        requires
            old(self).wf(),
            db.wf(),
        ensures
            final(self).wf(),
            final(self).same_identity(old(self)),
            final(self).spec_stopped() == old(self).spec_stopped(),
            final(self).spec_last_id() >= old(self).spec_last_id(),
            old(self).spec_stopped() ==> (r@.len() == 0 && final(self).spec_last_id() == old(
                self,
            ).spec_last_id()),
            !old(self).spec_stopped() ==> final(self).delivered(old(self), db, r@, CATCH_UP_FETCH_LIMIT as int),
    {
        if self.stopped {
            return Vec::new();
        }
        self.fetch_and_advance(db, CATCH_UP_FETCH_LIMIT)
    }

    /// One push step: the wakeup payload is parsed as a decimal id. Only
    /// when it names an id above the cursor is a fetch issued — the fetch,
    /// not the payload, decides what is delivered. An unparsable payload
    /// or a stale id delivers nothing.
    pub fn handle_wakeup(&mut self, db: &DbPool, payload: &[u8]) -> (r: Vec<Message>)
        requires
            old(self).wf(),
            db.wf(),
        ensures
            final(self).wf(),
            final(self).same_identity(old(self)),
            final(self).spec_stopped() == old(self).spec_stopped(),
            final(self).spec_last_id() >= old(self).spec_last_id(),
            (old(self).spec_stopped() || !(spec_parse_decimal(payload@) matches Some(id) && id
                > old(self).spec_last_id())) ==> (r@.len() == 0 && final(self).spec_last_id()
                == old(self).spec_last_id()),
            (!old(self).spec_stopped() && (spec_parse_decimal(payload@) matches Some(id) && id
                > old(self).spec_last_id())) ==> final(self).delivered(
                old(self),
                db,
                r@,
                DELIVERY_FETCH_LIMIT as int,
            ),
    {
        if self.stopped {
            return Vec::new();
        }
        let parsed = parse_decimal(payload);
        match parsed {
            Some(id) => {
                if id > self.last_id {
                    self.fetch_and_advance(db, DELIVERY_FETCH_LIMIT)
                } else {
                    Vec::new()
                }
            },
            None => Vec::new(),
        }
    }

    /// What one delivery step hands out, relating the subscriber after the
    /// step to the one before: exactly the first `limit` pending messages
    /// above the old cursor, in ascending id order, all of this session,
    /// all undelivered, all above the old cursor; the cursor moves to the
    /// last one handed out (and stays put when nothing is pending).
    pub open spec fn delivered(
        &self,
        before: &Self,
        db: &DbPool,
        r: Seq<Message>,
        limit: int,
    ) -> bool {
        &&& r.map_values(|m: Message| m@) == take_up_to(
            pending_after(db@, before.spec_session_id(), before.spec_last_id()),
            limit,
        )
        &&& sorted_by_id(r.map_values(|m: Message| m@))
        &&& forall|k: int|
            0 <= k < r.len() ==> msg_matches(
                #[trigger] r[k]@,
                before.spec_session_id(),
                before.spec_last_id(),
            )
        &&& self.spec_last_id() == if r.len() == 0 {
            before.spec_last_id()
        } else {
            r.last()@.id
        }
    }

    /// Fetch up to `limit` pending messages above the cursor and advance
    /// the cursor to the last of them.
    #[verifier::rlimit(50)]
    fn fetch_and_advance(&mut self, db: &DbPool, limit: usize) -> (r: Vec<Message>)
        requires
            old(self).wf(),
            db.wf(),
            1 <= limit,
            !old(self).spec_stopped(),
        ensures
            final(self).wf(),
            final(self).same_identity(old(self)),
            final(self).spec_stopped() == old(self).spec_stopped(),
            final(self).spec_last_id() >= old(self).spec_last_id(),
            final(self).delivered(old(self), db, r@, limit as int),
    {
        let msgs = db.fetch_after(self.session_id.as_str(), self.last_id, limit);
        proof {
            crate::store::lemma_pending_after_sorted(
                db@,
                self.spec_session_id(),
                self.spec_last_id(),
            );
            let pending = pending_after(db@, self.spec_session_id(), self.spec_last_id());
            let views = msgs@.map_values(|m: Message| m@);
            assert forall|k: int| 0 <= k < views.len() implies views[k] == pending[k] by {
                if pending.len() > limit as int {
                    assert(views[k] == pending.take(limit as int)[k]);
                    assert(pending.take(limit as int)[k] == pending[k]);
                }
            }
            assert forall|k: int| 0 <= k < msgs@.len() implies msg_matches(
                #[trigger] msgs@[k]@,
                self.spec_session_id(),
                self.spec_last_id(),
            ) by {
                assert(views[k] == msgs@[k]@);
                assert(views[k] == pending[k]);
            }
            assert forall|i: int, j: int| 0 <= i < j < views.len() implies views[i].id
                < views[j].id by {
                assert(views[i] == pending[i]);
                assert(views[j] == pending[j]);
            }
            assert(sorted_by_id(views));
            assert(msgs@.len() > 0 ==> views.last() == msgs@[msgs@.len() - 1]@);
        }
        if msgs.len() > 0 {
            let new_last = msgs[msgs.len() - 1].id;
            self.last_id = new_last;
        }
        msgs
    }
}

} // verus!
