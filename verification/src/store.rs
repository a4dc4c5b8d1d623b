//! The verified message store: the logical contract that every backend of
//! the engine implements.
//!
//! Rows are held in insertion order; the store assigns strictly increasing
//! ids, so within a session the id order is the insertion order. Fetches
//! return undelivered rows of one session with ids above a cursor, in
//! ascending id order; delivery stamps a row at most once; retention
//! removes rows older than a cutoff.

use vstd::prelude::*;
use crate::message::{Message, MsgView};
use crate::text::str_eq;

verus! {

/// Ids are strictly increasing along the row order.
pub open spec fn sorted_by_id(msgs: Seq<MsgView>) -> bool {
    forall|i: int, j: int| 0 <= i < j < msgs.len() ==> msgs[i].id < msgs[j].id
}

/// Well-formedness of a store whose next unassigned id is `next_id`:
/// rows are sorted by id and every id lies in `[1, next_id)`.
pub open spec fn store_wf(msgs: Seq<MsgView>, next_id: int) -> bool {
    &&& sorted_by_id(msgs)
    &&& forall|i: int| 0 <= i < msgs.len() ==> 1 <= #[trigger] msgs[i].id < next_id
    &&& 1 <= next_id
}

/// `m` with the given id assigned and its delivery stamp cleared, as the
/// store records a freshly inserted row.
pub open spec fn assign_id(m: MsgView, id: int) -> MsgView {
    MsgView {
        id: id,
        session_id: m.session_id,
        event_type: m.event_type,
        data: m.data,
        created_at: m.created_at,
        delivered_at: None,
    }
}

/// The rows that inserting `msgs` appends when the first assigned id is
/// `base`: ids `base, base + 1, ...` in input order.
pub open spec fn with_ids(msgs: Seq<MsgView>, base: int) -> Seq<MsgView> {
    Seq::new(msgs.len(), |i: int| assign_id(msgs[i], base + i))
}

/// `m` is eligible for a fetch on `session_id` with cursor `after_id`.
pub open spec fn msg_matches(m: MsgView, session_id: Seq<char>, after_id: int) -> bool {
    &&& m.session_id == session_id
    &&& m.delivered_at is None
    &&& m.id > after_id
}

/// The undelivered rows of `session_id` with id above `after_id`, in row
/// order.
pub open spec fn pending_after(msgs: Seq<MsgView>, session_id: Seq<char>, after_id: int) -> Seq<
    MsgView,
> {
    msgs.filter(|m: MsgView| msg_matches(m, session_id, after_id))
}

/// The first `n` elements of `s`, or all of `s` if it is shorter.
pub open spec fn take_up_to(s: Seq<MsgView>, n: int) -> Seq<MsgView> {
    if s.len() <= n {
        s
    } else {
        s.take(n)
    }
}

/// `id` occurs in `ids`.
pub open spec fn id_in(ids: Seq<i64>, id: int) -> bool {
    exists|k: int| 0 <= k < ids.len() && ids[k] as int == id
}

/// `m` after a delivery stamp at instant `t` for the rows named by `ids`:
/// a row already stamped keeps its first stamp.
pub open spec fn stamp(m: MsgView, ids: Seq<i64>, t: int) -> MsgView {
    if id_in(ids, m.id) && m.delivered_at is None {
        MsgView {
            id: m.id,
            session_id: m.session_id,
            event_type: m.event_type,
            data: m.data,
            created_at: m.created_at,
            delivered_at: Some(t),
        }
    } else {
        m
    }
}

/// All rows after a delivery stamp at instant `t` for the rows named by
/// `ids`.
pub open spec fn stamped(msgs: Seq<MsgView>, ids: Seq<i64>, t: int) -> Seq<MsgView> {
    msgs.map_values(|m: MsgView| stamp(m, ids, t))
}

/// `m` was delivered before `cutoff`.
pub open spec fn expired_delivered(m: MsgView, cutoff: int) -> bool {
    m.delivered_at matches Some(t) && t < cutoff
}

/// `m` is undelivered and was created before `cutoff`.
pub open spec fn expired_undelivered(m: MsgView, cutoff: int) -> bool {
    m.delivered_at is None && m.created_at < cutoff
}

/// The largest id in the store, or 0 if the store is empty.
pub open spec fn spec_max_id(msgs: Seq<MsgView>) -> int {
    if msgs.len() == 0 {
        0
    } else {
        msgs.last().id
    }
}

/// One filtering step: extending the prefix `s.take(i)` by `s[i]` extends
/// the filtered sequence by `s[i]` exactly when the predicate holds of it.
pub proof fn lemma_filter_take_step(s: Seq<MsgView>, pred: spec_fn(MsgView) -> bool, i: int)
    requires
        0 <= i < s.len(),
    ensures
        s.take(i + 1).filter(pred) == if pred(s[i]) {
            s.take(i).filter(pred).push(s[i])
        } else {
            s.take(i).filter(pred)
        },
{
    reveal(Seq::filter);
    assert(s.take(i + 1).drop_last() =~= s.take(i));
    assert(s.take(i + 1).last() == s[i]);
}

/// A filtered sequence keeps the id order of a sorted sequence, and every
/// element of it satisfies the predicate and comes from the original.
pub proof fn lemma_filter_sorted(s: Seq<MsgView>, pred: spec_fn(MsgView) -> bool)
    requires
        sorted_by_id(s),
    ensures
        sorted_by_id(s.filter(pred)),
        forall|i: int|
            0 <= i < s.filter(pred).len() ==> pred(#[trigger] s.filter(pred)[i]) && s.contains(
                s.filter(pred)[i],
            ),
    decreases s.len(),
{
    reveal(Seq::filter);
    broadcast use vstd::seq_lib::group_filter_ensures;

    if s.len() > 0 {
        let prefix = s.drop_last();
        assert(sorted_by_id(prefix)) by {
            assert(forall|i: int| 0 <= i < prefix.len() ==> prefix[i] == s[i]);
        }
        lemma_filter_sorted(prefix, pred);
        let sub = prefix.filter(pred);
        assert forall|i: int| 0 <= i < sub.len() implies sub[i].id < s.last().id by {
            assert(prefix.contains(sub[i]));
            let k = choose|k: int| 0 <= k < prefix.len() && prefix[k] == sub[i];
            assert(s[k] == sub[i]);
            assert(s[k].id < s.last().id);
        }
        assert forall|i: int|
            0 <= i < s.filter(pred).len() implies pred(#[trigger] s.filter(pred)[i])
            && s.contains(s.filter(pred)[i]) by {
            if i < sub.len() {
                assert(s.filter(pred)[i] == sub[i]);
                assert(prefix.contains(sub[i]));
                let k = choose|k: int| 0 <= k < prefix.len() && prefix[k] == sub[i];
                assert(s[k] == sub[i]);
            } else {
                assert(s.filter(pred)[i] == s.last());
                assert(s.contains(s.last()));
            }
        }
    }
}

/// Marking the same ids delivered twice yields the state of the first
/// marking, whatever instants the two markings carry: a row stamped by the
/// first call keeps that stamp, and a row the first call left alone is
/// left alone again.
pub proof fn lemma_mark_delivered_idempotent(msgs: Seq<MsgView>, ids: Seq<i64>, t1: int, t2: int)
    ensures
        stamped(stamped(msgs, ids, t1), ids, t2) == stamped(msgs, ids, t1),
{
    let once = stamped(msgs, ids, t1);
    assert forall|i: int| 0 <= i < once.len() implies stamp(#[trigger] once[i], ids, t2)
        == once[i] by {
        assert(once[i] == stamp(msgs[i], ids, t1));
    }
    assert(stamped(once, ids, t2) =~= once);
}
/// Fetch order is id order: the rows pending for a session above a cursor
/// come in strictly ascending id order, each belonging to the session,
/// undelivered, and with id above the cursor.
pub proof fn lemma_pending_after_sorted(msgs: Seq<MsgView>, session_id: Seq<char>, after_id: int)
    requires
        sorted_by_id(msgs),
    ensures
        sorted_by_id(pending_after(msgs, session_id, after_id)),
        forall|i: int|
            0 <= i < pending_after(msgs, session_id, after_id).len() ==> msg_matches(
                #[trigger] pending_after(msgs, session_id, after_id)[i],
                session_id,
                after_id,
            ),
{
    lemma_filter_sorted(msgs, |m: MsgView| msg_matches(m, session_id, after_id));
}

/// Insertion order is id order: within one inserted batch, the row of an
/// earlier message gets a smaller id than the row of a later one, so a
/// message published before another on the same session is fetched first.
pub proof fn lemma_insert_order(msgs: Seq<MsgView>, base: int)
    ensures
        forall|i: int|
            0 <= i < msgs.len() ==> (#[trigger] with_ids(msgs, base)[i]).id == base + i,
        sorted_by_id(with_ids(msgs, base)),
{
}

/// Publish order is delivery order within a session: ids are assigned in
/// publish order at insertion (see [`lemma_insert_order`]), fetches
/// return ascending ids (see [`lemma_pending_after_sorted`]), and so of
/// two fetched messages the one with the smaller id — the one published
/// first — comes first.
pub proof fn lemma_publish_order_kept(
    msgs: Seq<MsgView>,
    session_id: Seq<char>,
    after_id: int,
    p1: int,
    p2: int,
)
    requires
        sorted_by_id(msgs),
        0 <= p1 < pending_after(msgs, session_id, after_id).len(),
        0 <= p2 < pending_after(msgs, session_id, after_id).len(),
        pending_after(msgs, session_id, after_id)[p1].id < pending_after(
            msgs,
            session_id,
            after_id,
        )[p2].id,
    ensures
        p1 < p2,
{
    lemma_pending_after_sorted(msgs, session_id, after_id);
    if p1 > p2 {
        assert(pending_after(msgs, session_id, after_id)[p2].id < pending_after(
            msgs,
            session_id,
            after_id,
        )[p1].id);
    }
}

/// Everything persisted by a flush is readable afterwards: when the
/// writer's queue is written to a well-formed store, each queued message
/// appears as an undelivered row of its session, so a fetch for that
/// session from cursor 0 can observe it.
pub proof fn lemma_flushed_readable(store: Seq<MsgView>, queued: Seq<MsgView>, base: int, k: int)
    requires
        store_wf(store, base),
        0 <= k < queued.len(),
    ensures
        pending_after(store + with_ids(queued, base), queued[k].session_id, 0).contains(
            assign_id(queued[k], base + k),
        ),
{
    let combined = store + with_ids(queued, base);
    let pos = store.len() + k;
    assert(combined[pos as int] == assign_id(queued[k], base + k));
    assert(msg_matches(combined[pos as int], queued[k].session_id, 0));
    combined.lemma_filter_contains(
        |m: MsgView| msg_matches(m, queued[k].session_id, 0),
        pos as int,
    );
}

/// Inserting a batch in two parts appends the same rows as inserting it
/// whole: id assignment distributes over concatenation.
pub proof fn lemma_with_ids_concat(a: Seq<MsgView>, b: Seq<MsgView>, base: int)
    ensures
        with_ids(a + b, base) == with_ids(a, base) + with_ids(b, base + a.len()),
{
    assert(with_ids(a + b, base) =~= with_ids(a, base) + with_ids(b, base + a.len()));
}

/// Whether `id` occurs among `ids`.
fn ids_contain(ids: &[i64], id: i64) -> (r: bool)
    ensures
        r == id_in(ids@, id as int),
{
    let n = ids.len();
    let mut k: usize = 0;
    while k < n
        invariant
            k <= n,
            n == ids@.len(),
            forall|j: int| 0 <= j < k ==> ids@[j] != id,
        decreases n - k,
    {
        if ids[k] == id {
            return true;
        }
        k += 1;
    }
    false
}

/// In-memory message store holding the persisted rows in id order.
#[derive(Debug)]
pub struct MessageStore {
    rows: Vec<Message>,
    next_id: i64,
}

impl View for MessageStore {
    type V = Seq<MsgView>;

    closed spec fn view(&self) -> Seq<MsgView> {
        self.rows@.map_values(|m: Message| m@)
    }
}

impl MessageStore {
    /// The next id the store will assign.
    pub closed spec fn spec_next_id(&self) -> int {
        self.next_id as int
    }

    /// The store invariant: rows sorted by id, ids in `[1, next_id)`.
    pub open spec fn wf(&self) -> bool {
        store_wf(self@, self.spec_next_id())
    }

    /// Create an empty store; the first assigned id will be 1.
    pub fn new() -> (s: Self)
        ensures
            s@ == Seq::<MsgView>::empty(),
            s.spec_next_id() == 1,
            s.wf(),
    {
        let s = MessageStore { rows: Vec::new(), next_id: 1 };
        proof {
            assert(s@ =~= Seq::<MsgView>::empty());
        }
        s
    }

    /// Persist a batch: every message is appended as a fresh undelivered
    /// row, ids assigned in input order. Empty input is a no-op.
    pub fn insert_batch(&mut self, messages: &[Message])
        requires
            old(self).wf(),
            old(self).spec_next_id() + messages@.len() <= i64::MAX,
        ensures
            final(self).wf(),
            final(self)@ == old(self)@ + with_ids(
                messages@.map_values(|m: Message| m@),
                old(self).spec_next_id(),
            ),
            final(self).spec_next_id() == old(self).spec_next_id() + messages@.len(),
    {
        let ghost base = self.next_id as int;
        let ghost orig = self@;
        let ghost incoming = messages@.map_values(|m: Message| m@);
        let n = messages.len();
        let mut i: usize = 0;
        while i < n
            invariant
                i <= n,
                n == messages@.len(),
                incoming == messages@.map_values(|m: Message| m@),
                base + n <= i64::MAX,
                self.next_id as int == base + i,
                self@ == orig + with_ids(incoming.take(i as int), base),
                store_wf(orig, base),
                store_wf(self@, self.next_id as int),
            decreases n - i,
        {
            let m = &messages[i];
            let row = Message {
                id: self.next_id,
                session_id: m.session_id.clone(),
                event_type: m.event_type.clone(),
                data: m.data.clone(),
                created_at: m.created_at,
                delivered_at: None,
            };
            let ghost before = self@;
            self.rows.push(row);
            self.next_id = self.next_id + 1;
            proof {
                assert(self@ =~= before.push(row@));
                assert(row@ == assign_id(incoming[i as int], base + i));
                assert(with_ids(incoming.take(i + 1), base) =~= with_ids(
                    incoming.take(i as int),
                    base,
                ).push(assign_id(incoming[i as int], base + i)));
                assert(self@ =~= orig + with_ids(incoming.take(i + 1), base));
            }
            i += 1;
        }
        proof {
            assert(incoming.take(n as int) =~= incoming);
        }
    }

    /// Return up to `limit` undelivered messages of `session_id` with id
    /// greater than `after_id`, in ascending id order.
    pub fn fetch_after(&self, session_id: &str, after_id: i64, limit: usize) -> (r: Vec<Message>)
        requires
            self.wf(),
            1 <= limit,
        ensures
            r@.map_values(|m: Message| m@) == take_up_to(
                pending_after(self@, session_id@, after_id as int),
                limit as int,
            ),
    {
        let mut out: Vec<Message> = Vec::new();
        let n = self.rows.len();
        let mut i: usize = 0;
        proof {
            reveal(Seq::filter);
            assert(self@.take(0) =~= Seq::<MsgView>::empty());
            assert(out@.map_values(|m: Message| m@) =~= pending_after(
                self@.take(0),
                session_id@,
                after_id as int,
            ));
        }
        while i < n
            invariant
                i <= n,
                n == self.rows@.len(),
                self@ == self.rows@.map_values(|m: Message| m@),
                out@.map_values(|m: Message| m@) == pending_after(
                    self@.take(i as int),
                    session_id@,
                    after_id as int,
                ),
            decreases n - i,
        {
            let m = &self.rows[i];
            let keep = m.delivered_at.is_none() && m.id > after_id && str_eq(
                m.session_id.as_str(),
                session_id,
            );
            let ghost before = out@.map_values(|mm: Message| mm@);
            if keep {
                let copy = m.duplicate();
                out.push(copy);
                proof {
                    assert(out@.map_values(|mm: Message| mm@) =~= before.push(m@));
                }
            }
            proof {
                assert(self@[i as int] == m@);
                lemma_filter_take_step(
                    self@,
                    |mm: MsgView| msg_matches(mm, session_id@, after_id as int),
                    i as int,
                );
            }
            i += 1;
        }
        proof {
            assert(self@.take(n as int) =~= self@);
        }
        let ghost full = out@.map_values(|m: Message| m@);
        if out.len() > limit {
            out.truncate(limit);
            proof {
                assert(out@.map_values(|m: Message| m@) =~= full.take(limit as int));
            }
        }
        proof {
            let pending = pending_after(self@, session_id@, after_id as int);
            assert(out@.map_values(|m: Message| m@) =~= take_up_to(pending, limit as int));
        }
        out
    }

    /// Stamp the rows named by `ids` as delivered at instant `t`; a row
    /// already stamped keeps its first stamp. Empty input is a no-op.
    pub fn mark_delivered_at(&mut self, ids: &[i64], t: i64)
        requires
            old(self).wf(),
        ensures
            final(self).wf(),
            final(self)@ == stamped(old(self)@, ids@, t as int),
            final(self).spec_next_id() == old(self).spec_next_id(),
    {
        let ghost orig = self@;
        let n = self.rows.len();
        let mut kept: Vec<Message> = Vec::new();
        let mut i: usize = 0;
        proof {
            assert(kept@.map_values(|m: Message| m@) =~= stamped(
                orig.take(0),
                ids@,
                t as int,
            ));
        }
        while i < n
            invariant
                i <= n,
                n == self.rows@.len(),
                orig == self.rows@.map_values(|m: Message| m@),
                kept@.map_values(|m: Message| m@) == stamped(orig.take(i as int), ids@, t as int),
            decreases n - i,
        {
            let m = &self.rows[i];
            let ghost before = kept@.map_values(|mm: Message| mm@);
            if m.delivered_at.is_none() && ids_contain(ids, m.id) {
                let row = Message {
                    id: m.id,
                    session_id: m.session_id.clone(),
                    event_type: m.event_type.clone(),
                    data: m.data.clone(),
                    created_at: m.created_at,
                    delivered_at: Some(t),
                };
                kept.push(row);
                proof {
                    assert(orig[i as int] == m@);
                    assert(kept@.map_values(|mm: Message| mm@) =~= before.push(
                        stamp(orig[i as int], ids@, t as int),
                    ));
                }
            } else {
                let copy = m.duplicate();
                kept.push(copy);
                proof {
                    assert(orig[i as int] == m@);
                    assert(stamp(orig[i as int], ids@, t as int) == orig[i as int]);
                    assert(kept@.map_values(|mm: Message| mm@) =~= before.push(
                        stamp(orig[i as int], ids@, t as int),
                    ));
                }
            }
            proof {
                assert(stamped(orig.take(i + 1), ids@, t as int) =~= stamped(
                    orig.take(i as int),
                    ids@,
                    t as int,
                ).push(stamp(orig[i as int], ids@, t as int)));
            }
            i += 1;
        }
        self.rows = kept;
        proof {
            assert(orig.take(n as int) =~= orig);
            assert(self@ == stamped(orig, ids@, t as int));
            assert forall|k: int| 0 <= k < self@.len() implies #[trigger] self@[k].id
                == orig[k].id by {
                assert(self@[k] == stamp(orig[k], ids@, t as int));
            }
        }
    }

    /// Stamp the rows named by `ids` as delivered at the current instant;
    /// a row already stamped keeps its first stamp.
    pub fn mark_delivered(&mut self, ids: &[i64])
        requires
            old(self).wf(),
        ensures
            final(self).wf(),
            exists|t: int| final(self)@ == stamped(old(self)@, ids@, t),
            final(self).spec_next_id() == old(self).spec_next_id(),
    {
        let t = crate::message::now_millis();
        self.mark_delivered_at(ids, t);
        proof {
            assert(self@ == stamped(old(self)@, ids@, t as int));
        }
    }

    /// Delete every row delivered before `cutoff`; return how many were
    /// removed.
    pub fn cleanup_delivered(&mut self, cutoff: i64) -> (removed: u64)
        requires
            old(self).wf(),
        ensures
            final(self).wf(),
            final(self)@ == old(self)@.filter(
                |m: MsgView| !expired_delivered(m, cutoff as int),
            ),
            removed as int == old(self)@.len() - final(self)@.len(),
            final(self).spec_next_id() == old(self).spec_next_id(),
            forall|i: int|
                0 <= i < final(self)@.len() ==> !expired_delivered(
                    #[trigger] final(self)@[i],
                    cutoff as int,
                ),
    {
        let ghost orig = self@;
        let ghost pred = |m: MsgView| !expired_delivered(m, cutoff as int);
        let n = self.rows.len();
        let mut kept: Vec<Message> = Vec::new();
        let mut i: usize = 0;
        proof {
            reveal(Seq::filter);
            assert(orig.take(0) =~= Seq::<MsgView>::empty());
            assert(kept@.map_values(|m: Message| m@) =~= orig.take(0).filter(pred));
        }
        while i < n
            invariant
                i <= n,
                n == self.rows@.len(),
                orig == self.rows@.map_values(|m: Message| m@),
                pred == (|m: MsgView| !expired_delivered(m, cutoff as int)),
                kept@.map_values(|m: Message| m@) == orig.take(i as int).filter(pred),
            decreases n - i,
        {
            let m = &self.rows[i];
            let expired = match m.delivered_at {
                Some(d) => d < cutoff,
                None => false,
            };
            let ghost before = kept@.map_values(|mm: Message| mm@);
            if !expired {
                let copy = m.duplicate();
                kept.push(copy);
                proof {
                    assert(kept@.map_values(|mm: Message| mm@) =~= before.push(m@));
                }
            }
            proof {
                assert(orig[i as int] == m@);
                lemma_filter_take_step(orig, pred, i as int);
            }
            i += 1;
        }
        proof {
            assert(orig.take(n as int) =~= orig);
            orig.lemma_filter_len(pred);
        }
        let removed = (n - kept.len()) as u64;
        self.rows = kept;
        proof {
            lemma_filter_sorted(orig, pred);
            assert forall|k: int| 0 <= k < self@.len() implies 1 <= #[trigger] self@[k].id
                < self.spec_next_id() by {
                assert(orig.contains(self@[k]));
                let j = choose|j: int| 0 <= j < orig.len() && orig[j] == self@[k];
            }
        }
        removed
    }

    /// Delete every undelivered row created before `cutoff`; return how
    /// many were removed.
    pub fn cleanup_undelivered(&mut self, cutoff: i64) -> (removed: u64)
        requires
            old(self).wf(),
        ensures
            final(self).wf(),
            final(self)@ == old(self)@.filter(
                |m: MsgView| !expired_undelivered(m, cutoff as int),
            ),
            removed as int == old(self)@.len() - final(self)@.len(),
            final(self).spec_next_id() == old(self).spec_next_id(),
            forall|i: int|
                0 <= i < final(self)@.len() ==> !expired_undelivered(
                    #[trigger] final(self)@[i],
                    cutoff as int,
                ),
    {
        let ghost orig = self@;
        let ghost pred = |m: MsgView| !expired_undelivered(m, cutoff as int);
        let n = self.rows.len();
        let mut kept: Vec<Message> = Vec::new();
        let mut i: usize = 0;
        proof {
            reveal(Seq::filter);
            assert(orig.take(0) =~= Seq::<MsgView>::empty());
            assert(kept@.map_values(|m: Message| m@) =~= orig.take(0).filter(pred));
        }
        while i < n
            invariant
                i <= n,
                n == self.rows@.len(),
                orig == self.rows@.map_values(|m: Message| m@),
                pred == (|m: MsgView| !expired_undelivered(m, cutoff as int)),
                kept@.map_values(|m: Message| m@) == orig.take(i as int).filter(pred),
            decreases n - i,
        {
            let m = &self.rows[i];
            let expired = m.delivered_at.is_none() && m.created_at < cutoff;
            let ghost before = kept@.map_values(|mm: Message| mm@);
            if !expired {
                let copy = m.duplicate();
                kept.push(copy);
                proof {
                    assert(kept@.map_values(|mm: Message| mm@) =~= before.push(m@));
                }
            }
            proof {
                assert(orig[i as int] == m@);
                lemma_filter_take_step(orig, pred, i as int);
            }
            i += 1;
        }
        proof {
            assert(orig.take(n as int) =~= orig);
            orig.lemma_filter_len(pred);
        }
        let removed = (n - kept.len()) as u64;
        self.rows = kept;
        proof {
            lemma_filter_sorted(orig, pred);
            assert forall|k: int| 0 <= k < self@.len() implies 1 <= #[trigger] self@[k].id
                < self.spec_next_id() by {
                assert(orig.contains(self@[k]));
                let j = choose|j: int| 0 <= j < orig.len() && orig[j] == self@[k];
            }
        }
        removed
    }

    /// The largest id in the store, or 0 if the store is empty.
    pub fn max_id(&self) -> (r: i64)
        requires
            self.wf(),
        ensures
            r as int == spec_max_id(self@),
            0 <= r < self.spec_next_id(),
    {
        if self.rows.len() == 0 {
            0
        } else {
            let r = self.rows[self.rows.len() - 1].id;
            proof {
                assert(self@.last() == self.rows@.map_values(|m: Message| m@).last());
            }
            r
        }
    }
}

} // verus!
