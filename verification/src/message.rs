//! The message record: the sole persisted entity, and batches of it.
//!
//! Wall-clock instants are counts of milliseconds since the Unix epoch, so
//! that retention and ordering are plain integer facts in contracts.

use vstd::prelude::*;

verus! {

/// Mathematical view of a message.
pub ghost struct MsgView {
    pub id: int,
    pub session_id: Seq<char>,
    pub event_type: Seq<char>,
    pub data: Seq<char>,
    pub created_at: int,
    pub delivered_at: Option<int>,
}

/// A message in the pub/sub system.
#[derive(Debug, Clone)]
pub struct Message {
    /// Unique message id, assigned by the store on insert; 0 until then.
    pub id: i64,
    /// Session this message belongs to (an opaque identifier).
    pub session_id: String,
    /// Short event tag, not interpreted by the core.
    pub event_type: String,
    /// Opaque payload text.
    pub data: String,
    /// When the producer constructed the message, in milliseconds since
    /// the Unix epoch.
    pub created_at: i64,
    /// When the message was acknowledged; `None` means undelivered.
    pub delivered_at: Option<i64>,
}

impl View for Message {
    type V = MsgView;

    open spec fn view(&self) -> MsgView {
        MsgView {
            id: self.id as int,
            session_id: self.session_id@,
            event_type: self.event_type@,
            data: self.data@,
            created_at: self.created_at as int,
            delivered_at: match self.delivered_at {
                Some(t) => Some(t as int),
                None => None,
            },
        }
    }
}

/// Relies on chrono::Utc::now: the current wall-clock instant as
/// milliseconds since the Unix epoch. Nothing is promised of the value;
/// the clock may move arbitrarily between calls. (chrono refuses a
/// system clock set before the Unix epoch.)
#[verifier::external_body]
pub(crate) fn now_millis() -> i64 {
    chrono::Utc::now().timestamp_millis()
}

impl Message {
    /// Create a new message stamped with the current instant; the id is
    /// assigned later, by the store.
    pub fn new(session_id: String, event_type: String, data: String) -> (m: Self)
        ensures
            m.id == 0,
            m.session_id == session_id,
            m.event_type == event_type,
            m.data == data,
            m.delivered_at is None,
    {
        Message {
            id: 0,
            session_id,
            event_type,
            data,
            created_at: now_millis(),
            delivered_at: None,
        }
    }

    /// An exact copy of this message. (Verus attaches no contract to the
    /// derived `Clone`, so copies that proofs depend on are made here.)
    pub fn duplicate(&self) -> (m: Self)
        ensures
            m@ == self@,
    {
        Message {
            id: self.id,
            session_id: self.session_id.clone(),
            event_type: self.event_type.clone(),
            data: self.data.clone(),
            created_at: self.created_at,
            delivered_at: self.delivered_at,
        }
    }

    /// Whether this message has been delivered.
    pub fn is_delivered(&self) -> (r: bool)
        ensures
            r == (self.delivered_at is Some),
    {
        self.delivered_at.is_some()
    }

    /// Mark this message as delivered at the current instant.
    pub fn mark_delivered(&mut self)
        ensures
            final(self).delivered_at is Some,
            final(self).id == old(self).id,
            final(self).session_id == old(self).session_id,
            final(self).event_type == old(self).event_type,
            final(self).data == old(self).data,
            final(self).created_at == old(self).created_at,
    {
        self.delivered_at = Some(now_millis());
    }
}

/// A batch of messages accumulated for one store write.
#[derive(Debug)]
pub struct MessageBatch {
    messages: Vec<Message>,
}

impl View for MessageBatch {
    type V = Seq<Message>;

    closed spec fn view(&self) -> Seq<Message> {
        self.messages@
    }
}

impl Default for MessageBatch {
    fn default() -> (b: Self)
        ensures
            b@ == Seq::<Message>::empty(),
    {
        MessageBatch { messages: Vec::new() }
    }
}

impl MessageBatch {
    /// Create a new empty batch.
    pub fn new() -> (b: Self)
        ensures
            b@ == Seq::<Message>::empty(),
    {
        MessageBatch { messages: Vec::new() }
    }

    /// Create an empty batch with pre-allocated capacity.
    pub fn with_capacity(capacity: usize) -> (b: Self)
        ensures
            b@ == Seq::<Message>::empty(),
    {
        MessageBatch { messages: Vec::with_capacity(capacity) }
    }

    /// Add a message to the batch.
    pub fn push(&mut self, message: Message)
        ensures
            final(self)@ == old(self)@.push(message),
    {
        self.messages.push(message);
    }

    /// The number of messages in the batch.
    pub fn len(&self) -> (n: usize)
        ensures
            n == self@.len(),
    {
        self.messages.len()
    }

    /// Whether the batch is empty.
    pub fn is_empty(&self) -> (r: bool)
        ensures
            r == (self@.len() == 0),
    {
        self.messages.is_empty()
    }

    /// Remove every message from the batch.
    pub fn clear(&mut self)
        ensures
            final(self)@ == Seq::<Message>::empty(),
    {
        self.messages.clear();
    }

    /// The messages as a slice.
    pub fn as_slice(&self) -> (s: &[Message])
        ensures
            s@ == self@,
    {
        self.messages.as_slice()
    }

    /// Take ownership of the messages.
    pub fn into_vec(self) -> (v: Vec<Message>)
        ensures
            v@ == self@,
    {
        self.messages
    }
}

} // verus!
