use bytes::{Bytes, BytesMut};
use crate::buf::{
    bytes_as_slice, bytes_clone, bytes_len, bytes_mut_put_bytes, bytes_mut_put_slice,
    bytes_mut_put_u16, bytes_mut_put_u64, bytes_mut_seq, bytes_seq, bytes_slice,
};
use crate::clock::unix_nanos;
use crate::endian::{
    law_u16_be_roundtrip, law_u64_be_roundtrip, read_u16_be, read_u64_be, u16_be,
    u16_from_be, u64_be, u64_from_be,
};
use crate::errors::NsqError;
use vstd::prelude::*;

verus! {

pub const MSG_ID_LENGTH: usize = 16;

/// Timestamp, attempts and identifier: what every stored message starts with.
pub const MIN_VALID_MSG_LEN: usize = 26;

pub type MessageID = [u8; MSG_ID_LENGTH];

#[derive(Debug)]
pub struct Message {
    id: MessageID,
    body: Bytes,
    timestamp: u64,
    attempts: u16,
    delivery_ts: Option<u128>,
    client_id: Option<i64>,
    pri: u128,
    deferred: Option<u64>,
}

/// What a message is, as plain values.
pub struct MessageView {
    /// The sixteen bytes of the identifier.
    pub id: Seq<u8>,
    pub body: Seq<u8>,
    /// Creation time, in nanoseconds since the epoch.
    pub timestamp: u64,
    pub attempts: u16,
    /// When the message was last handed to a consumer.
    pub delivery_ts: Option<u128>,
    /// The consumer that the message was last handed to.
    pub client_id: Option<i64>,
    /// The time at which a delivery in flight times out.
    pub pri: u128,
    /// The delay asked for at publication, in milliseconds.
    pub deferred: Option<u64>,
}

impl MessageView {
    /// The stored form: timestamp, attempts, identifier, body.
    pub open spec fn wire(self) -> Seq<u8> {
        u64_be(self.timestamp) + u16_be(self.attempts) + self.id + self.body
    }

    /// A message as it is right after publication, with no delivery recorded.
    pub open spec fn fresh(id: Seq<u8>, body: Seq<u8>, timestamp: u64, attempts: u16) -> Self {
        MessageView {
            id,
            body,
            timestamp,
            attempts,
            delivery_ts: None,
            client_id: None,
            pri: 0,
            deferred: None,
        }
    }

    /// The identifier has its sixteen bytes.
    pub open spec fn wf(self) -> bool {
        self.id.len() == MSG_ID_LENGTH
    }

    /// Identifier, body, timestamp and attempts agree.
    pub open spec fn same_content(self, other: Self) -> bool {
        &&& self.id == other.id
        &&& self.body == other.body
        &&& self.timestamp == other.timestamp
        &&& self.attempts == other.attempts
    }
}

/// What each of a list of messages is.
pub open spec fn msg_views(s: Seq<Message>) -> Seq<MessageView> {
    Seq::new(s.len(), |i: int| s[i]@)
}

/// The message that stored bytes stand for, if they are long enough to hold one.
pub open spec fn decode_spec(b: Seq<u8>) -> Option<MessageView> {
    if b.len() < MIN_VALID_MSG_LEN {
        None
    } else {
        Some(
            MessageView::fresh(
                b.subrange(10, 26),
                b.subrange(26, b.len() as int),
                u64_from_be(b.subrange(0, 8)),
                u16_from_be(b.subrange(8, 10)),
            ),
        )
    }
}

impl View for Message {
    type V = MessageView;

    closed spec fn view(&self) -> MessageView {
        MessageView {
            id: self.id@,
            body: bytes_seq(self.body),
            timestamp: self.timestamp,
            attempts: self.attempts,
            delivery_ts: self.delivery_ts,
            client_id: self.client_id,
            pri: self.pri,
            deferred: self.deferred,
        }
    }
}

impl Clone for Message {
    fn clone(&self) -> (m: Self)
        ensures
            m@ == self@,
    {
        Message {
            id: self.id,
            body: bytes_clone(&self.body),
            timestamp: self.timestamp,
            attempts: self.attempts,
            delivery_ts: self.delivery_ts,
            client_id: self.client_id,
            pri: self.pri,
            deferred: self.deferred,
        }
    }
}

impl Message {
    /// Every message has an identifier of sixteen bytes.
    pub proof fn lemma_view_wf(&self)
        ensures
            self@.wf(),
            self@.wire().len() == MIN_VALID_MSG_LEN + self@.body.len(),
    {
    }

    /// Appends the stored form of the message to `dst`.
    pub fn put_to(&self, dst: &mut BytesMut)
        ensures
            bytes_mut_seq(*final(dst)) == bytes_mut_seq(*old(dst)) + self@.wire(),
    {
        bytes_mut_put_u64(dst, self.timestamp);
        bytes_mut_put_u16(dst, self.attempts);
        bytes_mut_put_slice(dst, self.id.as_slice());
        bytes_mut_put_bytes(dst, bytes_clone(&self.body));
        assert(bytes_mut_seq(*dst) =~= bytes_mut_seq(*old(dst)) + self@.wire());
    }

    /// Reads a message back from its stored form. Fewer bytes than a timestamp,
    /// attempts and an identifier take are refused.
    pub fn decode(b: Bytes) -> (r: Result<Message, NsqError>)
        ensures
            decode_spec(bytes_seq(b)) is None ==> r matches Err(NsqError::InvalidMsgLength),
            decode_spec(bytes_seq(b)) matches Some(v) ==> r matches Ok(m) && m@ == v,
    {
        let n = bytes_len(&b);
        if n < MIN_VALID_MSG_LEN {
            return Err(NsqError::InvalidMsgLength);
        }
        let s = bytes_as_slice(&b);
        let timestamp = read_u64_be(s, 0);
        let attempts = read_u16_be(s, 8);
        let mut id: MessageID = [0u8; MSG_ID_LENGTH];
        let mut i: usize = 0;
        while i < MSG_ID_LENGTH
            invariant
                i <= MSG_ID_LENGTH,
                s@.len() >= MIN_VALID_MSG_LEN,
                forall|j: int| 0 <= j < i ==> id@[j] == s@[10 + j],
            decreases MSG_ID_LENGTH - i,
        {
            id[i] = s[10 + i];
            i = i + 1;
        }
        assert(id@ =~= s@.subrange(10, 26));
        let body = bytes_slice(&b, MIN_VALID_MSG_LEN, n);
        Ok(
            Message {
                id,
                body,
                timestamp,
                attempts,
                delivery_ts: None,
                client_id: None,
                pri: 0,
                deferred: None,
            },
        )
    }

    /// A message published at `timestamp`, with no attempt and no delivery recorded.
    pub fn new_at(id: MessageID, body: Bytes, timestamp: u64) -> (m: Self)
        ensures
            m@ == MessageView::fresh(id@, bytes_seq(body), timestamp, 0),
    {
        Self {
            id,
            body,
            timestamp,
            attempts: 0,
            delivery_ts: None,
            client_id: None,
            pri: 0,
            deferred: None,
        }
    }

    /// A message published now. The timestamp is what the system clock reads, cut to
    /// 64 bits, and zero where the clock reads earlier than the epoch.
    pub fn new(id: MessageID, body: Bytes) -> (m: Self)
        ensures
            m@ == MessageView::fresh(id@, bytes_seq(body), m@.timestamp, 0),
    {
        let timestamp: u64 = match unix_nanos() {
            Some(nanos) => #[verifier::truncate]
            (nanos as u64),
            None => 0,
        };
        Self::new_at(id, body, timestamp)
    }

    pub fn id(&self) -> (id: MessageID)
        ensures
            id@ == self@.id,
    {
        self.id
    }

    pub fn body(&self) -> (body: &Bytes)
        ensures
            bytes_seq(*body) == self@.body,
    {
        &self.body
    }

    pub fn timestamp(&self) -> (t: u64)
        ensures
            t == self@.timestamp,
    {
        self.timestamp
    }

    pub fn attempts(&self) -> (n: u16)
        ensures
            n == self@.attempts,
    {
        self.attempts
    }

    pub fn is_defered(&self) -> (b: bool)
        ensures
            b == self@.deferred.is_some(),
    {
        self.deferred.is_some()
    }

    /// The length of the stored form. It has to fit the result type.
    pub fn len(&self) -> (n: i32)
        requires
            MIN_VALID_MSG_LEN + self@.body.len() <= i32::MAX,
        ensures
            n == MIN_VALID_MSG_LEN + self@.body.len(),
            n == self@.wire().len(),
    {
        26 + bytes_len(&self.body) as i32
    }

    /// The length of the stored form, where it fits the result type of `len`, and
    /// nothing where the body is too long for that.
    pub fn checked_len(&self) -> (n: Option<i32>)
        ensures
            MIN_VALID_MSG_LEN + self@.body.len() <= i32::MAX ==> n == Some(
                (MIN_VALID_MSG_LEN + self@.body.len()) as i32,
            ),
            MIN_VALID_MSG_LEN + self@.body.len() > i32::MAX ==> n is None,
    {
        if bytes_len(&self.body) as u64 <= (i32::MAX as u64) - 26 {
            Some(self.len())
        } else {
            None
        }
    }

    /// The same message, to be delivered no sooner than `ms` milliseconds after it
    /// is given to a channel.
    pub fn defer(self, ms: u64) -> (m: Self)
        ensures
            m@ == (MessageView { deferred: Some(ms), ..self@ }),
    {
        let mut m = self;
        m.deferred = Some(ms);
        m
    }

    /// The time that the message waits for: the end of its delay while it is
    /// deferred, the end of its consumer's time while it is in flight.
    pub fn pri(&self) -> (t: u128)
        ensures
            t == self@.pri,
    {
        self.pri
    }

    /// The consumer that the message was last handed to.
    pub fn client_id(&self) -> (c: Option<i64>)
        ensures
            c == self@.client_id,
    {
        self.client_id
    }

    /// When the message was last handed to a consumer.
    pub fn delivery_ts(&self) -> (t: Option<u128>)
        ensures
            t == self@.delivery_ts,
    {
        self.delivery_ts
    }

    /// Sets the time that the message waits for.
    pub fn set_pri(&mut self, t: u128)
        ensures
            final(self)@ == (MessageView { pri: t, ..old(self)@ }),
    {
        self.pri = t;
    }

    /// Records that the message is handed to `consumer` at `now`, to be answered
    /// for by `due`.
    pub fn deliver(&mut self, consumer: i64, now: u128, due: u128)
        ensures
            final(self)@ == (MessageView {
                client_id: Some(consumer),
                delivery_ts: Some(now),
                pri: due,
                ..old(self)@
            }),
    {
        self.client_id = Some(consumer);
        self.delivery_ts = Some(now);
        self.pri = due;
    }

    /// Records one more attempt and forgets the last delivery. The count of
    /// attempts stops at its largest value.
    pub fn release(&mut self)
        ensures
            final(self)@ == (MessageView {
                attempts: if old(self)@.attempts == u16::MAX {
                    u16::MAX
                } else {
                    (old(self)@.attempts + 1) as u16
                },
                client_id: None,
                delivery_ts: None,
                pri: 0,
                ..old(self)@
            }),
    {
        if self.attempts < u16::MAX {
            self.attempts = self.attempts + 1;
        }
        self.client_id = None;
        self.delivery_ts = None;
        self.pri = 0;
    }

    /// The delay asked for at publication, in milliseconds; zero where none was.
    pub fn get_defered(&self) -> (ms: u64)
        ensures
            ms == match self@.deferred {
                Some(d) => d,
                None => 0,
            },
    {
        match self.deferred {
            Some(d) => d,
            None => 0,
        }
    }
}

/// A stored message reads back as it was written: identifier, timestamp, attempts
/// and body are those of the message that was stored.
pub proof fn law_wire_roundtrip(m: MessageView)
    requires
        m.id.len() == MSG_ID_LENGTH,
    ensures
        decode_spec(m.wire()) matches Some(d) && d.same_content(m),
        decode_spec(m.wire()) == Some(
            MessageView::fresh(m.id, m.body, m.timestamp, m.attempts),
        ),
{
    let w = m.wire();
    law_u64_be_roundtrip(m.timestamp);
    law_u16_be_roundtrip(m.attempts);
    assert(w.subrange(0, 8) =~= u64_be(m.timestamp));
    assert(w.subrange(8, 10) =~= u16_be(m.attempts));
    assert(w.subrange(10, 26) =~= m.id);
    assert(w.subrange(26, w.len() as int) =~= m.body);
}

/// A message that waits, with the time that it waits for.
#[derive(Debug)]
pub struct MsgItem(pub u128, pub Message);

} // verus!
