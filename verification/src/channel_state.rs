use crate::client_v2::{ClientV2View, State};
use crate::message::MessageView;
use vstd::prelude::*;

verus! {

pub const NANOS_PER_MILLI: u128 = 1000000;

/// The time `ms` milliseconds after `now`, where a clock can still show it.
pub open spec fn deadline_after(now: u128, ms: u64) -> Option<u128> {
    if now + ms * NANOS_PER_MILLI <= u128::MAX {
        Some((now + ms * NANOS_PER_MILLI) as u128)
    } else {
        None
    }
}

/// The time `ms` milliseconds after `now`, or the last time that a clock can show.
pub open spec fn timeout_at(now: u128, ms: u64) -> u128 {
    match deadline_after(now, ms) {
        Some(t) => t,
        None => u128::MAX,
    }
}

/// No two messages of `s` share an identifier.
pub open spec fn distinct(s: Seq<MessageView>) -> bool {
    forall|i: int, j: int| 0 <= i < j < s.len() ==> (#[trigger] s[i]).id != (#[trigger] s[j]).id
}

/// No message of `a` shares its identifier with one of `b`.
pub open spec fn apart(a: Seq<MessageView>, b: Seq<MessageView>) -> bool {
    forall|i: int, j: int|
        0 <= i < a.len() && 0 <= j < b.len() ==> (#[trigger] a[i]).id != (#[trigger] b[j]).id
}

/// Whether `s` holds a message with the identifier `id`.
pub open spec fn has_id(s: Seq<MessageView>, id: Seq<u8>) -> bool {
    exists|i: int| 0 <= i < s.len() && (#[trigger] s[i]).id == id
}

/// Where `s` holds the message with the identifier `id`: the first such place, or
/// the length of `s` where it holds none.
pub open spec fn index_of_id(s: Seq<MessageView>, id: Seq<u8>) -> int
    decreases s.len(),
{
    if s.len() == 0 {
        0
    } else if s[0].id == id {
        0
    } else {
        1 + index_of_id(s.subrange(1, s.len() as int), id)
    }
}

/// Messages in order of their deadlines, the earliest first.
pub open spec fn sorted(s: Seq<MessageView>) -> bool {
    forall|i: int, j: int| 0 <= i < j < s.len() ==> (#[trigger] s[i]).pri <= (#[trigger] s[j]).pri
}

/// Where a message with the deadline `deadline` goes into `s`: behind every message
/// that is due no later.
pub open spec fn slot(s: Seq<MessageView>, deadline: u128) -> int
    decreases s.len(),
{
    if s.len() == 0 {
        0
    } else if s[0].pri > deadline {
        0
    } else {
        1 + slot(s.subrange(1, s.len() as int), deadline)
    }
}

/// The delay that a message asks for, in milliseconds.
pub open spec fn delay_of(m: MessageView) -> u64 {
    match m.deferred {
        Some(ms) => ms,
        None => 0,
    }
}

/// The message as it waits for redelivery: one more attempt, and no delivery
/// recorded any more.
pub open spec fn released(m: MessageView) -> MessageView {
    MessageView {
        attempts: if m.attempts == u16::MAX {
            m.attempts
        } else {
            (m.attempts + 1) as u16
        },
        client_id: None,
        delivery_ts: None,
        pri: 0,
        ..m
    }
}

/// The message as it is handed to `consumer` at `now`, to be answered by `due`.
pub open spec fn delivered(m: MessageView, consumer: i64, now: u128, due: u128) -> MessageView {
    MessageView { client_id: Some(consumer), delivery_ts: Some(now), pri: due, ..m }
}

/// What a channel holds, as plain values.
pub struct ChannelView {
    pub name: Seq<char>,
    /// How many messages the ready buffer takes.
    pub capacity: nat,
    /// How many consumers the channel accepts.
    pub max_consumers: nat,
    /// How long a consumer has to answer for a message, in milliseconds.
    pub msg_timeout: u64,
    pub requeue_count: u64,
    pub msg_count: u64,
    pub timeout_count: u64,
    /// The messages ready for delivery, the next one first.
    pub buffer: Seq<MessageView>,
    /// The messages that wait for their time, the earliest first; `pri` is the time.
    pub deferred: Seq<MessageView>,
    /// The messages handed to consumers and not answered for, in order of delivery;
    /// `pri` is the time by which the answer is due.
    pub in_flight: Seq<MessageView>,
    /// The consumers attached, by their identifiers.
    pub consumers: Map<i64, ClientV2View>,
    /// Whether the channel has begun to close.
    pub exiting: bool,
}

/// What became of a message given to a channel.
pub enum PutOutcome {
    /// It is the last of the ready buffer.
    Queued,
    /// It waits for its time.
    Deferred,
    /// The channel is closing and takes nothing.
    Exiting,
    /// The channel holds a message with this identifier already.
    Duplicate,
    /// The time at which it would be due is later than a clock can show.
    TooLate,
    /// The ready buffer is full: the message is handed back.
    Full,
}

/// What became of a message that a consumer gave back.
pub enum RequeueOutcome {
    /// It is the last of the ready buffer.
    Queued,
    /// It waits for its time.
    Deferred,
    /// The consumer does not hold a message with this identifier.
    NotOwned,
    /// The time at which it would be due is later than a clock can show.
    TooLate,
    /// The ready buffer is full: the message left the channel and is handed back.
    Spilled(MessageView),
}

impl ChannelView {
    pub open spec fn wf(self) -> bool {
        &&& self.buffer.len() <= self.capacity
        &&& self.consumers.dom().finite()
        &&& self.consumers.len() <= self.max_consumers
        &&& forall|id: i64| #[trigger]
            self.consumers.contains_key(id) ==> self.consumers[id].id == id
        &&& forall|i: int| 0 <= i < self.buffer.len() ==> (#[trigger] self.buffer[i]).wf()
        &&& forall|i: int| 0 <= i < self.deferred.len() ==> (#[trigger] self.deferred[i]).wf()
        &&& forall|i: int| 0 <= i < self.in_flight.len() ==> (#[trigger] self.in_flight[i]).wf()
        &&& forall|i: int|
            0 <= i < self.in_flight.len() ==> ((#[trigger] self.in_flight[i]).client_id matches Some(
                c,
            ) && self.consumers.contains_key(c))
        &&& sorted(self.deferred)
        &&& distinct(self.buffer)
        &&& distinct(self.deferred)
        &&& distinct(self.in_flight)
        &&& apart(self.buffer, self.deferred)
        &&& apart(self.buffer, self.in_flight)
        &&& apart(self.deferred, self.in_flight)
    }

    /// Whether the channel holds a message with the identifier `id`, wherever.
    pub open spec fn holds(self, id: Seq<u8>) -> bool {
        has_id(self.buffer, id) || has_id(self.deferred, id) || has_id(self.in_flight, id)
    }

    /// Where `consumer` holds the message `id` in flight, if it does.
    pub open spec fn owned(self, id: Seq<u8>, consumer: i64) -> Option<int> {
        let i = index_of_id(self.in_flight, id);
        if i < self.in_flight.len() && self.in_flight[i].client_id == Some(consumer) {
            Some(i)
        } else {
            None
        }
    }

    /// The channel with `m` waiting until `deadline`.
    pub open spec fn defer(self, m: MessageView, deadline: u128) -> ChannelView {
        ChannelView {
            deferred: self.deferred.insert(
                slot(self.deferred, deadline),
                MessageView { pri: deadline, ..m },
            ),
            ..self
        }
    }

    /// The channel with what `change` does to the counters of `consumer`.
    pub open spec fn with_consumer(self, consumer: i64, state: ClientV2View) -> ChannelView {
        ChannelView { consumers: self.consumers.insert(consumer, state), ..self }
    }

    /// A new consumer attaches. A closing channel takes none; one that is attached
    /// already stays as it is; a full channel takes no further one.
    pub open spec fn add_client(self, c: ClientV2View) -> (ChannelView, Result<(), AddRefusal>) {
        if self.exiting {
            (self, Err(AddRefusal::Exiting))
        } else if self.consumers.contains_key(c.id) {
            (self, Ok(()))
        } else if self.consumers.len() >= self.max_consumers {
            (self, Err(AddRefusal::Full(self.max_consumers)))
        } else {
            (self.with_consumer(c.id, c), Ok(()))
        }
    }

    /// `RDY`: an attached, subscribed consumer states how many more messages it
    /// takes.
    pub open spec fn set_ready(self, consumer: i64, count: u64) -> (ChannelView, bool) {
        if self.consumers.contains_key(consumer) && self.consumers[consumer].state
            == State::Subscribed {
            (
                self.with_consumer(
                    consumer,
                    ClientV2View { ready_count: count, ..self.consumers[consumer] },
                ),
                true,
            )
        } else {
            (self, false)
        }
    }

    /// `CLS`: an attached, subscribed consumer starts to close; it gets no further
    /// message.
    pub open spec fn close_client(self, consumer: i64) -> (ChannelView, bool) {
        if self.consumers.contains_key(consumer) && self.consumers[consumer].state
            == State::Subscribed {
            (self.with_consumer(consumer, self.consumers[consumer].closed()), true)
        } else {
            (self, false)
        }
    }

    /// A message arrives. One with a delay waits until `now` and the delay have
    /// passed; any other goes to the end of the ready buffer, if that has room.
    pub open spec fn put(self, m: MessageView, now: u128) -> (ChannelView, PutOutcome) {
        if self.exiting {
            (self, PutOutcome::Exiting)
        } else if self.holds(m.id) {
            (self, PutOutcome::Duplicate)
        } else {
            match m.deferred {
                Some(ms) => match deadline_after(now, ms) {
                    Some(deadline) => (
                        ChannelView {
                            msg_count: self.msg_count.wrapping_add(1),
                            ..self.defer(m, deadline)
                        },
                        PutOutcome::Deferred,
                    ),
                    None => (self, PutOutcome::TooLate),
                },
                None => if self.buffer.len() >= self.capacity {
                    (self, PutOutcome::Full)
                } else {
                    (
                        ChannelView {
                            buffer: self.buffer.push(m),
                            msg_count: self.msg_count.wrapping_add(1),
                            ..self
                        },
                        PutOutcome::Queued,
                    )
                },
            }
        }
    }

    /// A message is set to wait until its delay has passed, counted from `now`.
    pub open spec fn push_deferred(self, m: MessageView, now: u128) -> (ChannelView, PutOutcome) {
        if self.holds(m.id) {
            (self, PutOutcome::Duplicate)
        } else {
            match deadline_after(now, delay_of(m)) {
                Some(deadline) => (self.defer(m, deadline), PutOutcome::Deferred),
                None => (self, PutOutcome::TooLate),
            }
        }
    }

    /// The waiting message that is due first leaves the channel, if its time has
    /// come by `curr`.
    pub open spec fn pop_deferred(self, curr: u128) -> (ChannelView, Option<MessageView>) {
        if self.deferred.len() > 0 && self.deferred[0].pri <= curr {
            (
                ChannelView {
                    deferred: self.deferred.subrange(1, self.deferred.len() as int),
                    ..self
                },
                Some(self.deferred[0]),
            )
        } else {
            (self, None)
        }
    }

    /// The waiting messages whose time has come by `now` move to the ready buffer,
    /// the earliest first, as far as the buffer has room.
    pub open spec fn promote(self, now: u128) -> ChannelView
        decreases self.deferred.len(),
    {
        if self.deferred.len() > 0 && self.deferred[0].pri <= now && self.buffer.len()
            < self.capacity {
            ChannelView {
                buffer: self.buffer.push(self.deferred[0]),
                deferred: self.deferred.subrange(1, self.deferred.len() as int),
                ..self
            }.promote(now)
        } else {
            self
        }
    }

    /// A consumer asks for a message at `now`. First the waiting messages whose time
    /// has come are promoted. Then, if the consumer is attached and ready and the
    /// buffer holds a message, the first one is handed over: it is in flight from
    /// then on, and the consumer has one credit less.
    pub open spec fn pop(self, consumer: i64, now: u128) -> (ChannelView, Option<MessageView>) {
        let s = self.promote(now);
        if s.consumers.contains_key(consumer) && s.consumers[consumer].ready() && s.buffer.len()
            > 0 {
            let m = delivered(s.buffer[0], consumer, now, timeout_at(now, s.msg_timeout));
            (
                ChannelView {
                    buffer: s.buffer.subrange(1, s.buffer.len() as int),
                    in_flight: s.in_flight.push(m),
                    consumers: s.consumers.insert(consumer, s.consumers[consumer].sent()),
                    ..s
                },
                Some(m),
            )
        } else {
            (s, None)
        }
    }

    /// A consumer acknowledges a message. Only the consumer that holds it can.
    pub open spec fn finish(self, id: Seq<u8>, consumer: i64) -> (ChannelView, bool) {
        match self.owned(id, consumer) {
            Some(i) => (
                ChannelView {
                    in_flight: self.in_flight.remove(i),
                    consumers: self.consumers.insert(consumer, self.consumers[consumer].finished()),
                    ..self
                },
                true,
            ),
            None => (self, false),
        }
    }

    /// A consumer gives a message back at `now`. Without a delay it goes to the end
    /// of the ready buffer or, where that is full, leaves the channel; with a delay
    /// it waits until the delay has passed.
    pub open spec fn requeue(self, id: Seq<u8>, consumer: i64, delay: u64, now: u128) -> (
        ChannelView,
        RequeueOutcome,
    ) {
        match self.owned(id, consumer) {
            None => (self, RequeueOutcome::NotOwned),
            Some(i) => {
                let m = released(self.in_flight[i]);
                let taken = ChannelView {
                    in_flight: self.in_flight.remove(i),
                    consumers: self.consumers.insert(consumer, self.consumers[consumer].requeued()),
                    requeue_count: self.requeue_count.wrapping_add(1),
                    ..self
                };
                if delay == 0 {
                    if self.buffer.len() < self.capacity {
                        (
                            ChannelView { buffer: self.buffer.push(m), ..taken },
                            RequeueOutcome::Queued,
                        )
                    } else {
                        (taken, RequeueOutcome::Spilled(m))
                    }
                } else {
                    match deadline_after(now, delay) {
                        Some(deadline) => (taken.defer(m, deadline), RequeueOutcome::Deferred),
                        None => (self, RequeueOutcome::TooLate),
                    }
                }
            },
        }
    }

    /// A consumer asks for more time for a message that it holds: the answer is due
    /// a full timeout after `now`.
    pub open spec fn touch(self, id: Seq<u8>, consumer: i64, now: u128) -> (ChannelView, bool) {
        match self.owned(id, consumer) {
            Some(i) => (
                ChannelView {
                    in_flight: self.in_flight.update(
                        i,
                        MessageView {
                            pri: timeout_at(now, self.msg_timeout),
                            ..self.in_flight[i]
                        },
                    ),
                    ..self
                },
                true,
            ),
            None => (self, false),
        }
    }

    /// The channel without the `i`-th message in flight, which is released: its
    /// consumer holds one less, and the message goes to the end of the ready
    /// buffer or, where that is full, leaves the channel.
    pub open spec fn release(self, i: int, timed_out: bool) -> (ChannelView, Option<MessageView>) {
        let m = released(self.in_flight[i]);
        let owner = self.in_flight[i].client_id->0;
        let taken = ChannelView {
            in_flight: self.in_flight.remove(i),
            consumers: self.consumers.insert(
                owner,
                if timed_out {
                    self.consumers[owner].timed_out()
                } else {
                    self.consumers[owner].requeued()
                },
            ),
            requeue_count: if timed_out {
                self.requeue_count
            } else {
                self.requeue_count.wrapping_add(1)
            },
            timeout_count: if timed_out {
                self.timeout_count.wrapping_add(1)
            } else {
                self.timeout_count
            },
            ..self
        };
        if self.buffer.len() < self.capacity {
            (ChannelView { buffer: self.buffer.push(m), ..taken }, None)
        } else {
            (taken, Some(m))
        }
    }

    /// Releases, from the `from`-th on and in order of delivery, the messages in
    /// flight whose answer was due by `now`. The second part of the result holds
    /// the messages that left the channel because the buffer was full.
    pub open spec fn sweep_from(self, from: int, now: u128) -> (ChannelView, Seq<MessageView>)
        decreases self.in_flight.len() - from,
    {
        if from < 0 || from >= self.in_flight.len() {
            (self, Seq::empty())
        } else if self.in_flight[from].pri <= now {
            let (s, out) = self.release(from, true);
            let (t, more) = s.sweep_from(from, now);
            (
                t,
                match out {
                    Some(m) => seq![m] + more,
                    None => more,
                },
            )
        } else {
            self.sweep_from(from + 1, now)
        }
    }

    /// Releases every message in flight whose answer was due by `now`.
    pub open spec fn sweep(self, now: u128) -> (ChannelView, Seq<MessageView>) {
        self.sweep_from(0, now)
    }

    /// Releases, from the `from`-th on and in order of delivery, the messages in
    /// flight that `consumer` holds.
    pub open spec fn drop_from(self, from: int, consumer: i64) -> (ChannelView, Seq<MessageView>)
        decreases self.in_flight.len() - from,
    {
        if from < 0 || from >= self.in_flight.len() {
            (self, Seq::empty())
        } else if self.in_flight[from].client_id == Some(consumer) {
            let (s, out) = self.release(from, false);
            let (t, more) = s.drop_from(from, consumer);
            (
                t,
                match out {
                    Some(m) => seq![m] + more,
                    None => more,
                },
            )
        } else {
            self.drop_from(from + 1, consumer)
        }
    }

    /// A consumer leaves: the messages that it holds are released, and it is no
    /// longer attached.
    pub open spec fn remove_client(self, consumer: i64) -> (ChannelView, Seq<MessageView>) {
        let (s, out) = self.drop_from(0, consumer);
        (ChannelView { consumers: s.consumers.remove(consumer), ..s }, out)
    }

    /// The channel begins to close, which it does once: every consumer is told,
    /// and the channel lets go of its messages. They are the second part of the
    /// result, the ready ones first, then those in flight, then the waiting ones,
    /// unless the channel is deleted, which discards them.
    pub open spec fn exit(self, deleted: bool) -> (ChannelView, Option<Seq<MessageView>>) {
        if self.exiting {
            (self, None)
        } else {
            (
                ChannelView {
                    exiting: true,
                    consumers: self.consumers.map_values(|c: ClientV2View| c.closed()),
                    buffer: Seq::empty(),
                    deferred: Seq::empty(),
                    in_flight: Seq::empty(),
                    ..self
                },
                Some(
                    if deleted {
                        Seq::empty()
                    } else {
                        self.buffer + self.in_flight + self.deferred
                    },
                ),
            )
        }
    }
}

/// Why a channel did not take a consumer.
pub enum AddRefusal {
    /// The channel is closing.
    Exiting,
    /// The channel has as many consumers as it accepts, which is this many.
    Full(nat),
}

/// `index_of_id` is the first place of the identifier.
pub proof fn lemma_index_of_id(s: Seq<MessageView>, id: Seq<u8>)
    ensures
        0 <= index_of_id(s, id) <= s.len(),
        index_of_id(s, id) < s.len() ==> s[index_of_id(s, id)].id == id,
        forall|j: int| 0 <= j < index_of_id(s, id) ==> (#[trigger] s[j]).id != id,
        has_id(s, id) <==> index_of_id(s, id) < s.len(),
    decreases s.len(),
{
    if s.len() > 0 && s[0].id != id {
        let t = s.subrange(1, s.len() as int);
        lemma_index_of_id(t, id);
        let k = index_of_id(t, id);
        assert forall|j: int| 0 <= j < 1 + k implies (#[trigger] s[j]).id != id by {
            if j > 0 {
                assert(t[j - 1] == s[j]);
            }
        }
        if k < t.len() {
            assert(t[k] == s[k + 1]);
        }
        if has_id(s, id) {
            let w = choose|i: int| 0 <= i < s.len() && (#[trigger] s[i]).id == id;
            assert(t[w - 1] == s[w]);
        }
    }
}

/// `slot` lies behind the messages due no later and before those due later.
pub proof fn lemma_slot(s: Seq<MessageView>, deadline: u128)
    requires
        sorted(s),
    ensures
        0 <= slot(s, deadline) <= s.len(),
        forall|j: int| 0 <= j < slot(s, deadline) ==> (#[trigger] s[j]).pri <= deadline,
        forall|j: int| slot(s, deadline) <= j < s.len() ==> (#[trigger] s[j]).pri > deadline,
    decreases s.len(),
{
    if s.len() > 0 {
        let t = s.subrange(1, s.len() as int);
        assert forall|i: int, j: int| 0 <= i < j < t.len() implies (#[trigger] t[i]).pri <= (
        #[trigger] t[j]).pri by {
            assert(t[i] == s[i + 1] && t[j] == s[j + 1]);
        }
        if s[0].pri > deadline {
            assert forall|j: int| 0 <= j < s.len() implies (#[trigger] s[j]).pri > deadline by {
                if j > 0 {
                    assert(s[0].pri <= s[j].pri);
                }
            }
        } else {
            lemma_slot(t, deadline);
            let k = slot(t, deadline);
            assert forall|j: int| 0 <= j < 1 + k implies (#[trigger] s[j]).pri <= deadline by {
                if j > 0 {
                    assert(t[j - 1] == s[j]);
                }
            }
            assert forall|j: int| 1 + k <= j < s.len() implies (#[trigger] s[j]).pri
                > deadline by {
                assert(t[j - 1] == s[j]);
            }
        }
    }
}

/// A place behind the messages due no later and before those due later is `slot`.
pub proof fn lemma_slot_is(s: Seq<MessageView>, deadline: u128, at: int)
    requires
        0 <= at <= s.len(),
        forall|j: int| 0 <= j < at ==> (#[trigger] s[j]).pri <= deadline,
        at < s.len() ==> s[at].pri > deadline,
    ensures
        slot(s, deadline) == at,
    decreases s.len(),
{
    if s.len() > 0 && at > 0 {
        let t = s.subrange(1, s.len() as int);
        assert(s[0].pri <= deadline);
        assert forall|j: int| 0 <= j < at - 1 implies (#[trigger] t[j]).pri <= deadline by {
            assert(t[j] == s[j + 1]);
        }
        if at < s.len() {
            assert(t[at - 1] == s[at]);
        }
        lemma_slot_is(t, deadline, at - 1);
    }
}

pub proof fn lemma_add_client_wf(s: ChannelView, c: ClientV2View)
    requires
        s.wf(),
    ensures
        s.add_client(c).0.wf(),
{
    let t = s.add_client(c).0;
    if t != s {
        assert(t.consumers.dom() =~= s.consumers.dom().insert(c.id));
    }
}

pub proof fn lemma_set_ready_wf(s: ChannelView, consumer: i64, count: u64)
    requires
        s.wf(),
    ensures
        s.set_ready(consumer, count).0.wf(),
        s.close_client(consumer).0.wf(),
{
    assert(s.set_ready(consumer, count).0.consumers.dom() =~= s.consumers.dom());
    assert(s.close_client(consumer).0.consumers.dom() =~= s.consumers.dom());
}

pub proof fn lemma_defer_wf(s: ChannelView, m: MessageView, deadline: u128)
    requires
        s.wf(),
        m.wf(),
        !s.holds(m.id),
    ensures
        s.defer(m, deadline).wf(),
        s.defer(m, deadline).holds(m.id),
{
    let k = slot(s.deferred, deadline);
    lemma_slot(s.deferred, deadline);
    let x = MessageView { pri: deadline, ..m };
    let d = s.deferred.insert(k, x);
    let t = s.defer(m, deadline);
    assert(d[k] == x);
    assert(has_id(d, m.id));
    assert forall|i: int| 0 <= i < d.len() implies (#[trigger] d[i]).wf() by {
        if i < k {
            assert(d[i] == s.deferred[i]);
        } else if i > k {
            assert(d[i] == s.deferred[i - 1]);
        }
    }
    assert forall|i: int, j: int| 0 <= i < j < d.len() implies (#[trigger] d[i]).pri <= (
    #[trigger] d[j]).pri && d[i].id != d[j].id by {
        let a = if i < k {
            i
        } else {
            i - 1
        };
        let b = if j < k {
            j
        } else {
            j - 1
        };
        if i != k {
            assert(d[i] == s.deferred[a]);
        }
        if j != k {
            assert(d[j] == s.deferred[b]);
        }
    }
    assert forall|i: int, j: int| 0 <= i < s.buffer.len() && 0 <= j < d.len() implies (
    #[trigger] s.buffer[i]).id != (#[trigger] d[j]).id by {
        if j < k {
            assert(d[j] == s.deferred[j]);
        } else if j > k {
            assert(d[j] == s.deferred[j - 1]);
        }
    }
    assert forall|i: int, j: int| 0 <= i < d.len() && 0 <= j < s.in_flight.len() implies (
    #[trigger] d[i]).id != (#[trigger] s.in_flight[j]).id by {
        if i < k {
            assert(d[i] == s.deferred[i]);
        } else if i > k {
            assert(d[i] == s.deferred[i - 1]);
        }
    }
}

pub proof fn lemma_put_wf(s: ChannelView, m: MessageView, now: u128)
    requires
        s.wf(),
        m.wf(),
    ensures
        s.put(m, now).0.wf(),
{
    let (t, out) = s.put(m, now);
    match out {
        PutOutcome::Deferred => {
            lemma_defer_wf(s, m, deadline_after(now, m.deferred->0)->0);
        },
        PutOutcome::Queued => {},
        _ => {},
    }
}

pub proof fn lemma_pop_deferred_wf(s: ChannelView, curr: u128)
    requires
        s.wf(),
    ensures
        s.pop_deferred(curr).0.wf(),
        s.pop_deferred(curr).1 matches Some(m) ==> m.wf(),
{
    if s.pop_deferred(curr).1 is Some {
        let d = s.deferred.subrange(1, s.deferred.len() as int);
        assert forall|i: int| 0 <= i < d.len() implies (#[trigger] d[i]) == s.deferred[i + 1] by {}
        assert(s.deferred[0].wf());
    }
}

pub proof fn lemma_promote_wf(s: ChannelView, now: u128)
    requires
        s.wf(),
    ensures
        s.promote(now).wf(),
        s.promote(now).consumers == s.consumers,
        s.promote(now).in_flight == s.in_flight,
        s.promote(now).exiting == s.exiting,
        s.promote(now).capacity == s.capacity,
        s.promote(now).msg_timeout == s.msg_timeout,
        s.promote(now).name == s.name,
    decreases s.deferred.len(),
{
    if s.deferred.len() > 0 && s.deferred[0].pri <= now && s.buffer.len() < s.capacity {
        let d = s.deferred.subrange(1, s.deferred.len() as int);
        let t = ChannelView { buffer: s.buffer.push(s.deferred[0]), deferred: d, ..s };
        assert forall|i: int| 0 <= i < d.len() implies (#[trigger] d[i]) == s.deferred[i + 1] by {}
        assert(t.wf());
        lemma_promote_wf(t, now);
    }
}

pub proof fn lemma_pop_wf(s: ChannelView, consumer: i64, now: u128)
    requires
        s.wf(),
    ensures
        s.pop(consumer, now).0.wf(),
        s.pop(consumer, now).0.name == s.name,
{
    lemma_promote_wf(s, now);
    let p = s.promote(now);
    let (t, r) = s.pop(consumer, now);
    if r is Some {
        let b = p.buffer.subrange(1, p.buffer.len() as int);
        assert forall|i: int| 0 <= i < b.len() implies (#[trigger] b[i]) == p.buffer[i + 1] by {}
        assert(t.consumers.dom() =~= p.consumers.dom());
        assert(t.wf());
    }
}

pub proof fn lemma_finish_wf(s: ChannelView, id: Seq<u8>, consumer: i64)
    requires
        s.wf(),
    ensures
        s.finish(id, consumer).0.wf(),
{
    let (t, ok) = s.finish(id, consumer);
    if ok {
        let i = s.owned(id, consumer)->0;
        lemma_index_of_id(s.in_flight, id);
        assert(s.consumers.contains_key(consumer));
        assert(t.consumers.dom() =~= s.consumers.dom());
        lemma_removed(s.in_flight, i);
        assert(t.wf());
    }
}

/// What is left when one message is taken out of a sequence was there before.
pub proof fn lemma_removed(s: Seq<MessageView>, i: int)
    requires
        0 <= i < s.len(),
    ensures
        s.remove(i).len() == s.len() - 1,
        forall|j: int|
            0 <= j < s.len() - 1 ==> (#[trigger] s.remove(i)[j]) == s[if j < i {
                j
            } else {
                j + 1
            }],
        distinct(s) ==> distinct(s.remove(i)) && !has_id(s.remove(i), s[i].id),
{
    let r = s.remove(i);
    if distinct(s) {
        assert forall|a: int, b: int| 0 <= a < b < r.len() implies (#[trigger] r[a]).id != (
        #[trigger] r[b]).id by {
            let a2 = if a < i {
                a
            } else {
                a + 1
            };
            let b2 = if b < i {
                b
            } else {
                b + 1
            };
            assert(r[a] == s[a2] && r[b] == s[b2]);
        }
        if has_id(r, s[i].id) {
            let w = choose|j: int| 0 <= j < r.len() && (#[trigger] r[j]).id == s[i].id;
            let w2 = if w < i {
                w
            } else {
                w + 1
            };
            assert(r[w] == s[w2]);
        }
    }
}

pub proof fn lemma_requeue_wf(s: ChannelView, id: Seq<u8>, consumer: i64, delay: u64, now: u128)
    requires
        s.wf(),
    ensures
        s.requeue(id, consumer, delay, now).0.wf(),
{
    let (t, out) = s.requeue(id, consumer, delay, now);
    if s.owned(id, consumer) is Some && !(out is TooLate) {
        let i = s.owned(id, consumer)->0;
        lemma_index_of_id(s.in_flight, id);
        let m = released(s.in_flight[i]);
        let taken = ChannelView {
            in_flight: s.in_flight.remove(i),
            consumers: s.consumers.insert(consumer, s.consumers[consumer].requeued()),
            requeue_count: s.requeue_count.wrapping_add(1),
            ..s
        };
        assert(taken.consumers.dom() =~= s.consumers.dom());
        lemma_removed(s.in_flight, i);
        assert(taken.wf());
        assert(!taken.holds(m.id));
        if delay != 0 {
            lemma_defer_wf(taken, m, deadline_after(now, delay)->0);
        }
    }
}

pub proof fn lemma_touch_wf(s: ChannelView, id: Seq<u8>, consumer: i64, now: u128)
    requires
        s.wf(),
    ensures
        s.touch(id, consumer, now).0.wf(),
{
    lemma_index_of_id(s.in_flight, id);
}

pub proof fn lemma_release_wf(s: ChannelView, i: int, timed_out: bool)
    requires
        s.wf(),
        0 <= i < s.in_flight.len(),
    ensures
        s.release(i, timed_out).0.wf(),
        s.release(i, timed_out).0.in_flight == s.in_flight.remove(i),
        s.release(i, timed_out).0.consumers.dom() == s.consumers.dom(),
        s.release(i, timed_out).0.capacity == s.capacity,
{
    let (t, out) = s.release(i, timed_out);
    let owner = s.in_flight[i].client_id->0;
    assert(s.consumers.contains_key(owner));
    assert(t.consumers.dom() =~= s.consumers.dom());
    lemma_removed(s.in_flight, i);
}

pub proof fn lemma_sweep_from_wf(s: ChannelView, from: int, now: u128)
    requires
        s.wf(),
    ensures
        s.sweep_from(from, now).0.wf(),
        s.sweep_from(from, now).0.consumers.dom() == s.consumers.dom(),
        s.sweep_from(from, now).0.name == s.name,
    decreases s.in_flight.len() - from,
{
    if 0 <= from < s.in_flight.len() {
        if s.in_flight[from].pri <= now {
            lemma_release_wf(s, from, true);
            lemma_sweep_from_wf(s.release(from, true).0, from, now);
        } else {
            lemma_sweep_from_wf(s, from + 1, now);
        }
    }
}

pub proof fn lemma_sweep_wf(s: ChannelView, now: u128)
    requires
        s.wf(),
    ensures
        s.sweep(now).0.wf(),
        s.sweep(now).0.name == s.name,
{
    lemma_sweep_from_wf(s, 0, now);
}

pub proof fn lemma_drop_from_wf(s: ChannelView, from: int, consumer: i64)
    requires
        s.wf(),
        0 <= from,
        forall|j: int|
            0 <= j < from && j < s.in_flight.len() ==> (#[trigger] s.in_flight[j]).client_id
                != Some(consumer),
    ensures
        s.drop_from(from, consumer).0.wf(),
        s.drop_from(from, consumer).0.consumers.dom() == s.consumers.dom(),
        s.drop_from(from, consumer).0.name == s.name,
        forall|j: int|
            0 <= j < s.drop_from(from, consumer).0.in_flight.len() ==> (
            #[trigger] s.drop_from(from, consumer).0.in_flight[j]).client_id != Some(consumer),
    decreases s.in_flight.len() - from,
{
    if from < s.in_flight.len() {
        if s.in_flight[from].client_id == Some(consumer) {
            lemma_release_wf(s, from, false);
            let t = s.release(from, false).0;
            assert forall|j: int| 0 <= j < from && j < t.in_flight.len() implies (
            #[trigger] t.in_flight[j]).client_id != Some(consumer) by {
                assert(t.in_flight[j] == s.in_flight[j]);
            }
            lemma_drop_from_wf(t, from, consumer);
        } else {
            lemma_drop_from_wf(s, from + 1, consumer);
        }
    }
}

pub proof fn lemma_remove_client_wf(s: ChannelView, consumer: i64)
    requires
        s.wf(),
    ensures
        s.remove_client(consumer).0.wf(),
        s.remove_client(consumer).0.name == s.name,
        !s.remove_client(consumer).0.consumers.contains_key(consumer),
{
    lemma_drop_from_wf(s, 0, consumer);
    let d = s.drop_from(0, consumer).0;
    let t = s.remove_client(consumer).0;
    assert(t.consumers.dom() =~= d.consumers.dom().remove(consumer));
}

pub proof fn lemma_exit_wf(s: ChannelView, deleted: bool)
    requires
        s.wf(),
    ensures
        s.exit(deleted).0.wf(),
{
    let t = s.exit(deleted).0;
    assert(t.consumers.dom() =~= s.consumers.dom());
}

/// Promotion adds to the end of the ready buffer: what was ready stays first.
pub proof fn lemma_promote_keeps_ready(s: ChannelView, now: u128)
    ensures
        s.promote(now).buffer.len() >= s.buffer.len(),
        s.promote(now).buffer.subrange(0, s.buffer.len() as int) == s.buffer,
    decreases s.deferred.len(),
{
    if s.deferred.len() > 0 && s.deferred[0].pri <= now && s.buffer.len() < s.capacity {
        let t = ChannelView {
            buffer: s.buffer.push(s.deferred[0]),
            deferred: s.deferred.subrange(1, s.deferred.len() as int),
            ..s
        };
        lemma_promote_keeps_ready(t, now);
        assert(s.promote(now).buffer.subrange(0, s.buffer.len() as int) =~= t.buffer.subrange(
            0,
            s.buffer.len() as int,
        ));
        assert(t.buffer.subrange(0, s.buffer.len() as int) =~= s.buffer);
    } else {
        assert(s.buffer.subrange(0, s.buffer.len() as int) =~= s.buffer);
    }
}

/// Whether `s` holds the message `id` with a time later than `t`.
pub open spec fn waits_past(s: Seq<MessageView>, id: Seq<u8>, t: u128) -> bool {
    exists|i: int| 0 <= i < s.len() && (#[trigger] s[i]).id == id && s[i].pri > t
}

/// Promotion leaves a message that is due later than `now` waiting.
pub proof fn lemma_promote_keeps_waiting(s: ChannelView, now: u128, id: Seq<u8>)
    requires
        s.wf(),
        waits_past(s.deferred, id, now),
    ensures
        has_id(s.promote(now).deferred, id),
        !has_id(s.promote(now).buffer, id),
    decreases s.deferred.len(),
{
    let i = choose|i: int|
        0 <= i < s.deferred.len() && (#[trigger] s.deferred[i]).id == id && s.deferred[i].pri
            > now;
    if s.deferred.len() > 0 && s.deferred[0].pri <= now && s.buffer.len() < s.capacity {
        let d = s.deferred.subrange(1, s.deferred.len() as int);
        let t = ChannelView { buffer: s.buffer.push(s.deferred[0]), deferred: d, ..s };
        assert forall|j: int| 0 <= j < d.len() implies (#[trigger] d[j]) == s.deferred[j + 1] by {}
        assert(t.wf());
        assert(i > 0);
        assert(d[i - 1] == s.deferred[i]);
        lemma_promote_keeps_waiting(t, now, id);
    } else {
        assert(s.promote(now) == s);
        assert(has_id(s.deferred, id));
        if has_id(s.buffer, id) {
            let b = choose|b: int| 0 <= b < s.buffer.len() && (#[trigger] s.buffer[b]).id == id;
            assert(s.buffer[b].id != s.deferred[i].id);
        }
    }
}

/// The consumers that `cs` lists attach one after the other; the second part of the
/// result says whether every one of them was taken.
pub open spec fn add_all(s: ChannelView, cs: Seq<ClientV2View>) -> (ChannelView, bool)
    decreases cs.len(),
{
    if cs.len() == 0 {
        (s, true)
    } else {
        let (t, ok) = add_all(s, cs.drop_last());
        let (u, r) = t.add_client(cs.last());
        (u, ok && r is Ok)
    }
}

/// A channel takes as many consumers as it accepts, and no more. Consumers with
/// identifiers of their own, no more of them than the channel accepts, are all
/// taken by a channel that has none; when they are as many as it accepts, any
/// further one is refused, and the channel stays as it is.
pub proof fn law_consumer_limit(s: ChannelView, cs: Seq<ClientV2View>, extra: ClientV2View)
    requires
        s.wf(),
        !s.exiting,
        s.consumers == Map::<i64, ClientV2View>::empty(),
        cs.len() <= s.max_consumers,
        forall|i: int, j: int|
            0 <= i < j < cs.len() ==> (#[trigger] cs[i]).id != (#[trigger] cs[j]).id,
        forall|i: int| 0 <= i < cs.len() ==> (#[trigger] cs[i]).id != extra.id,
    ensures
        add_all(s, cs).1,
        add_all(s, cs).0.wf(),
        add_all(s, cs).0.consumers.len() == cs.len(),
        cs.len() == s.max_consumers ==> add_all(s, cs).0.add_client(extra) == (
            add_all(s, cs).0,
            Err::<(), AddRefusal>(AddRefusal::Full(s.max_consumers)),
        ),
{
    lemma_add_all(s, cs);
}

/// What attaching consumers with identifiers of their own comes to.
proof fn lemma_add_all(s: ChannelView, cs: Seq<ClientV2View>)
    requires
        s.wf(),
        !s.exiting,
        s.consumers == Map::<i64, ClientV2View>::empty(),
        cs.len() <= s.max_consumers,
        forall|i: int, j: int|
            0 <= i < j < cs.len() ==> (#[trigger] cs[i]).id != (#[trigger] cs[j]).id,
    ensures
        add_all(s, cs).1,
        add_all(s, cs).0.wf(),
        !add_all(s, cs).0.exiting,
        add_all(s, cs).0.max_consumers == s.max_consumers,
        add_all(s, cs).0.consumers.len() == cs.len(),
        forall|id: i64|
            add_all(s, cs).0.consumers.contains_key(id) <==> exists|i: int|
                0 <= i < cs.len() && (#[trigger] cs[i]).id == id,
    decreases cs.len(),
{
    if cs.len() > 0 {
        let head = cs.drop_last();
        lemma_add_all(s, head);
        let (t, ok) = add_all(s, head);
        let c = cs.last();
        if t.consumers.contains_key(c.id) {
            let i = choose|i: int| 0 <= i < head.len() && (#[trigger] head[i]).id == c.id;
            assert(cs[i].id != cs[cs.len() - 1].id);
        }
        lemma_add_client_wf(t, c);
        let u = t.add_client(c).0;
        assert(u.consumers.dom() =~= t.consumers.dom().insert(c.id));
        assert forall|id: i64| u.consumers.contains_key(id) <==> exists|i: int|
            0 <= i < cs.len() && (#[trigger] cs[i]).id == id by {
            if u.consumers.contains_key(id) {
                if id == c.id {
                    assert(cs[cs.len() - 1].id == id);
                } else {
                    let i = choose|i: int| 0 <= i < head.len() && (#[trigger] head[i]).id == id;
                    assert(cs[i].id == id);
                }
            }
            if exists|i: int| 0 <= i < cs.len() && (#[trigger] cs[i]).id == id {
                let i = choose|i: int| 0 <= i < cs.len() && (#[trigger] cs[i]).id == id;
                if i < head.len() {
                    assert(head[i].id == id);
                }
            }
        }
    }
}

/// A consumer that is attached already is taken again, and nothing changes.
pub proof fn law_add_client_again(s: ChannelView, c: ClientV2View)
    requires
        !s.exiting,
        s.consumers.contains_key(c.id),
    ensures
        s.add_client(c) == (s, Ok::<(), AddRefusal>(())),
{
}

/// First in, first out: a message without a delay that is given to a channel whose
/// ready buffer is empty is the next one that a ready consumer gets, with its
/// identifier, body, timestamp and attempts as they were.
pub proof fn law_put_then_pop(s: ChannelView, m: MessageView, consumer: i64, t1: u128, t2: u128)
    requires
        s.wf(),
        m.wf(),
        !s.exiting,
        !s.holds(m.id),
        m.deferred is None,
        s.buffer.len() == 0,
        s.capacity > 0,
        s.consumers.contains_key(consumer),
        s.consumers[consumer].ready(),
    ensures
        s.put(m, t1).1 is Queued,
        s.put(m, t1).0.pop(consumer, t2).1 matches Some(x) && x.same_content(m),
{
    let s1 = s.put(m, t1).0;
    assert(s1.buffer =~= seq![m]);
    lemma_put_wf(s, m, t1);
    lemma_promote_wf(s1, t2);
    lemma_promote_keeps_ready(s1, t2);
    let p = s1.promote(t2);
    assert(p.buffer.subrange(0, 1)[0] == p.buffer[0]);
}

/// A message with a delay is not handed out before its time: a consumer that asks
/// earlier gets another message or none, and the message goes on waiting.
pub proof fn law_deferred_not_before(
    s: ChannelView,
    m: MessageView,
    consumer: i64,
    t0: u128,
    t: u128,
)
    requires
        s.wf(),
        m.wf(),
        !s.exiting,
        !s.holds(m.id),
        m.deferred is Some,
        deadline_after(t0, m.deferred->0) matches Some(due) && t < due,
    ensures
        s.put(m, t0).1 is Deferred,
        s.put(m, t0).0.pop(consumer, t).1 matches Some(x) ==> x.id != m.id,
        has_id(s.put(m, t0).0.pop(consumer, t).0.deferred, m.id),
{
    let due = deadline_after(t0, m.deferred->0)->0;
    let s1 = s.put(m, t0).0;
    lemma_put_wf(s, m, t0);
    lemma_waits(s, m, due);
    lemma_not_before(s1, m.id, consumer, t);
}

/// A message that `defer` sets to wait is among the waiting ones, with its time.
proof fn lemma_waits(s: ChannelView, m: MessageView, due: u128)
    requires
        s.wf(),
    ensures
        exists|i: int|
            0 <= i < s.defer(m, due).deferred.len() && (#[trigger] s.defer(m, due).deferred[i]).id
                == m.id && s.defer(m, due).deferred[i].pri == due,
{
    lemma_slot(s.deferred, due);
    let k = slot(s.deferred, due);
    assert(s.defer(m, due).deferred[k] == MessageView { pri: due, ..m });
}

/// A waiting message that is due later than `t` is not what a consumer gets at `t`.
proof fn lemma_not_before(s: ChannelView, id: Seq<u8>, consumer: i64, t: u128)
    requires
        s.wf(),
        waits_past(s.deferred, id, t),
    ensures
        s.pop(consumer, t).1 matches Some(x) ==> x.id != id,
        has_id(s.pop(consumer, t).0.deferred, id),
{
    lemma_promote_wf(s, t);
    lemma_promote_keeps_waiting(s, t, id);
    let p = s.promote(t);
    if s.pop(consumer, t).1 is Some {
        assert(p.buffer[0].id != id);
    }
}

/// A message with a delay is handed out once its time has come, the very moment
/// included: where nothing else is ready or waiting, it is what a ready consumer
/// gets then, with its identifier, body, timestamp and attempts as they were.
pub proof fn law_deferred_available(
    s: ChannelView,
    m: MessageView,
    consumer: i64,
    t0: u128,
    t: u128,
)
    requires
        s.wf(),
        m.wf(),
        !s.exiting,
        !s.holds(m.id),
        m.deferred is Some,
        deadline_after(t0, m.deferred->0) matches Some(due) && t >= due,
        s.buffer.len() == 0,
        s.deferred.len() == 0,
        s.capacity > 0,
        s.consumers.contains_key(consumer),
        s.consumers[consumer].ready(),
    ensures
        s.put(m, t0).0.pop(consumer, t).1 matches Some(x) && x.same_content(m),
{
    let due = deadline_after(t0, m.deferred->0)->0;
    let s1 = s.put(m, t0).0;
    assert(s1.deferred.len() == 1);
    assert(s1.deferred[0] == MessageView { pri: due, ..m });
    lemma_available(s1, m, due, consumer, t);
}

/// Where the only message that a channel holds ready or waiting is one whose time
/// has come, it is what a ready consumer gets.
proof fn lemma_available(s1: ChannelView, m: MessageView, due: u128, consumer: i64, t: u128)
    requires
        s1.buffer.len() == 0,
        s1.deferred.len() == 1,
        s1.deferred[0] == (MessageView { pri: due, ..m }),
        t >= due,
        s1.capacity > 0,
        s1.consumers.contains_key(consumer),
        s1.consumers[consumer].ready(),
    ensures
        s1.pop(consumer, t).1 matches Some(x) && x.same_content(m),
{
    let x = MessageView { pri: due, ..m };
    let s2 = ChannelView {
        buffer: s1.buffer.push(x),
        deferred: s1.deferred.subrange(1, 1),
        ..s1
    };
    assert(s2.deferred.len() == 0);
    assert(s2.promote(t) == s2);
    assert(s1.promote(t) == s2);
    assert(s2.buffer[0] == x);
}

/// A message that its consumer gives back without a delay is handed out again:
/// where nothing else is ready, it is the next one that a ready consumer gets, with
/// its identifier, body and timestamp as they were.
pub proof fn law_requeue_then_pop(
    s: ChannelView,
    id: Seq<u8>,
    holder: i64,
    consumer: i64,
    now: u128,
    t: u128,
)
    requires
        s.wf(),
        s.owned(id, holder) is Some,
        s.buffer.len() == 0,
        s.capacity > 0,
        s.consumers.contains_key(consumer),
        s.consumers[consumer].ready(),
    ensures
        s.requeue(id, holder, 0, now).1 is Queued,
        s.requeue(id, holder, 0, now).0.pop(consumer, t).1 matches Some(x) && x.id == id && x.body
            == s.in_flight[s.owned(id, holder)->0].body && x.timestamp
            == s.in_flight[s.owned(id, holder)->0].timestamp,
{
    let i = s.owned(id, holder)->0;
    lemma_index_of_id(s.in_flight, id);
    let s1 = s.requeue(id, holder, 0, now).0;
    let m = released(s.in_flight[i]);
    assert(s1.buffer =~= seq![m]);
    lemma_promote_keeps_ready(s1, t);
    let p = s1.promote(t);
    assert(p.buffer.subrange(0, 1)[0] == p.buffer[0]);
    lemma_requeue_wf(s, id, holder, 0, now);
    lemma_promote_wf(s1, t);
    assert(s1.consumers.contains_key(consumer));
    assert(s1.consumers[consumer].ready());
}

/// A message that its consumer gives back with a delay is not handed out before
/// the delay has passed: a consumer that asks earlier gets another message or
/// none, and the message goes on waiting.
pub proof fn law_requeue_not_before(
    s: ChannelView,
    id: Seq<u8>,
    holder: i64,
    consumer: i64,
    delay: u64,
    now: u128,
    t: u128,
)
    requires
        s.wf(),
        s.owned(id, holder) is Some,
        delay > 0,
        deadline_after(now, delay) matches Some(due) && t < due,
    ensures
        s.requeue(id, holder, delay, now).1 is Deferred,
        s.requeue(id, holder, delay, now).0.pop(consumer, t).1 matches Some(x) ==> x.id != id,
        has_id(s.requeue(id, holder, delay, now).0.pop(consumer, t).0.deferred, id),
{
    let i = s.owned(id, holder)->0;
    lemma_index_of_id(s.in_flight, id);
    let due = deadline_after(now, delay)->0;
    let m = released(s.in_flight[i]);
    let taken = ChannelView {
        in_flight: s.in_flight.remove(i),
        consumers: s.consumers.insert(holder, s.consumers[holder].requeued()),
        requeue_count: s.requeue_count.wrapping_add(1),
        ..s
    };
    lemma_requeue_wf(s, id, holder, delay, now);
    lemma_removed(s.in_flight, i);
    assert(taken.consumers.dom() =~= s.consumers.dom());
    assert(taken.wf());
    lemma_waits(taken, m, due);
    lemma_not_before(s.requeue(id, holder, delay, now).0, id, consumer, t);
}

/// A message that its consumer gave back with a delay is handed out once the delay
/// has passed: where nothing else is ready or waiting, it is what a ready consumer
/// gets then.
pub proof fn law_requeue_available(
    s: ChannelView,
    id: Seq<u8>,
    holder: i64,
    consumer: i64,
    delay: u64,
    now: u128,
    t: u128,
)
    requires
        s.wf(),
        s.owned(id, holder) is Some,
        delay > 0,
        deadline_after(now, delay) matches Some(due) && t >= due,
        s.buffer.len() == 0,
        s.deferred.len() == 0,
        s.capacity > 0,
        s.consumers.contains_key(consumer),
        s.consumers[consumer].ready(),
    ensures
        s.requeue(id, holder, delay, now).0.pop(consumer, t).1 matches Some(x) && x.id == id,
{
    let i = s.owned(id, holder)->0;
    lemma_index_of_id(s.in_flight, id);
    let due = deadline_after(now, delay)->0;
    let m = released(s.in_flight[i]);
    let s1 = s.requeue(id, holder, delay, now).0;
    assert(s1.consumers.contains_key(consumer));
    assert(s1.consumers[consumer].ready());
    assert(s1.deferred.len() == 1);
    assert(s1.deferred[0] == MessageView { pri: due, ..m });
    lemma_available(s1, m, due, consumer, t);
}

/// An acknowledgement by a consumer that does not hold the message changes
/// nothing: whatever is in flight stays in flight.
pub proof fn law_finish_not_owned(s: ChannelView, id: Seq<u8>, consumer: i64)
    requires
        s.owned(id, consumer) is None,
    ensures
        s.finish(id, consumer) == (s, false),
{
}

/// An acknowledgement takes the acknowledged message out of the channel for good
/// and leaves everything else as it is: every other message in flight with its
/// consumer, its delivery time and its deadline, the ready and the waiting
/// messages, and every other consumer. The consumer that acknowledged has one more
/// message finished and holds one less.
pub proof fn law_finish_owned(s: ChannelView, id: Seq<u8>, consumer: i64)
    requires
        s.wf(),
        s.owned(id, consumer) is Some,
    ensures
        s.finish(id, consumer).1,
        !s.finish(id, consumer).0.holds(id),
        s.finish(id, consumer).0.in_flight == s.in_flight.remove(s.owned(id, consumer)->0),
        forall|j: int|
            0 <= j < s.in_flight.len() && (#[trigger] s.in_flight[j]).id != id ==> s.finish(
                id,
                consumer,
            ).0.in_flight.contains(s.in_flight[j]),
        s.finish(id, consumer).0.buffer == s.buffer,
        s.finish(id, consumer).0.deferred == s.deferred,
        s.consumers.contains_key(consumer),
        s.finish(id, consumer).0.consumers[consumer].finish_count
            == s.consumers[consumer].finish_count.wrapping_add(1),
        s.finish(id, consumer).0.consumers[consumer].in_flight_count
            == s.consumers[consumer].in_flight_count.wrapping_sub(1),
        s.finish(id, consumer).0.consumers[consumer].ready_count
            == s.consumers[consumer].ready_count,
        forall|other: i64|
            other != consumer && #[trigger] s.consumers.contains_key(other) ==> s.finish(
                id,
                consumer,
            ).0.consumers[other] == s.consumers[other],
{
    let i = s.owned(id, consumer)->0;
    lemma_index_of_id(s.in_flight, id);
    lemma_removed(s.in_flight, i);
    law_one_place(s, id);
    assert(has_id(s.in_flight, id));
    let r = s.in_flight.remove(i);
    assert forall|j: int| 0 <= j < s.in_flight.len() && (#[trigger] s.in_flight[j]).id
        != id implies r.contains(s.in_flight[j]) by {
        let k = if j < i {
            j
        } else {
            j - 1
        };
        assert(r[k] == s.in_flight[j]);
    }
}

/// One credit, one message: a consumer that has credit for one message and gets
/// one gets no second one, whenever it asks, until it states new credit; the
/// message that it got is in flight, and in its name.
pub proof fn law_one_message_per_credit(s: ChannelView, consumer: i64, t1: u128, t2: u128)
    requires
        s.wf(),
        s.consumers.contains_key(consumer),
        s.consumers[consumer].ready_count == 1,
        s.pop(consumer, t1).1 is Some,
    ensures
        s.pop(consumer, t1).0.pop(consumer, t2).1 is None,
        s.pop(consumer, t1).0.in_flight.last() == s.pop(consumer, t1).1->0,
        s.pop(consumer, t1).1->0.client_id == Some(consumer),
        s.pop(consumer, t1).0.owned(s.pop(consumer, t1).1->0.id, consumer) is Some,
{
    lemma_promote_wf(s, t1);
    lemma_pop_wf(s, consumer, t1);
    let s1 = s.pop(consumer, t1).0;
    let m = s.pop(consumer, t1).1->0;
    lemma_promote_wf(s1, t2);
    assert(s1.consumers[consumer].ready_count == 0);
    lemma_index_of_id(s1.in_flight, m.id);
    let k = s1.in_flight.len() - 1;
    assert(s1.in_flight[k] == m);
    let i = index_of_id(s1.in_flight, m.id);
    if i < k {
        assert(s1.in_flight[i].id != s1.in_flight[k].id);
    }
}

/// A message is in one place at a time: ready, or waiting, or in flight.
pub proof fn law_one_place(s: ChannelView, id: Seq<u8>)
    requires
        s.wf(),
    ensures
        !(has_id(s.buffer, id) && has_id(s.deferred, id)),
        !(has_id(s.buffer, id) && has_id(s.in_flight, id)),
        !(has_id(s.deferred, id) && has_id(s.in_flight, id)),
{
    if has_id(s.buffer, id) && has_id(s.deferred, id) {
        let i = choose|i: int| 0 <= i < s.buffer.len() && (#[trigger] s.buffer[i]).id == id;
        let j = choose|j: int| 0 <= j < s.deferred.len() && (#[trigger] s.deferred[j]).id == id;
        assert(s.buffer[i].id != s.deferred[j].id);
    }
    if has_id(s.buffer, id) && has_id(s.in_flight, id) {
        let i = choose|i: int| 0 <= i < s.buffer.len() && (#[trigger] s.buffer[i]).id == id;
        let j = choose|j: int| 0 <= j < s.in_flight.len() && (#[trigger] s.in_flight[j]).id == id;
        assert(s.buffer[i].id != s.in_flight[j].id);
    }
    if has_id(s.deferred, id) && has_id(s.in_flight, id) {
        let i = choose|i: int| 0 <= i < s.deferred.len() && (#[trigger] s.deferred[i]).id == id;
        let j = choose|j: int| 0 <= j < s.in_flight.len() && (#[trigger] s.in_flight[j]).id == id;
        assert(s.deferred[i].id != s.in_flight[j].id);
    }
}

/// Delivery never exceeds the credit: a consumer gets a message only while it has
/// credit, each message uses up one, and the credit does not go below zero.
pub proof fn law_credit(s: ChannelView, consumer: i64, now: u128)
    requires
        s.wf(),
    ensures
        s.pop(consumer, now).1 is Some ==> {
            &&& s.consumers.contains_key(consumer)
            &&& s.consumers[consumer].ready_count > 0
            &&& s.pop(consumer, now).0.consumers[consumer].ready_count
                == s.consumers[consumer].ready_count - 1
        },
        s.pop(consumer, now).1 is None ==> s.pop(consumer, now).0.consumers == s.consumers,
{
    lemma_promote_wf(s, now);
}

/// A closing channel takes neither messages nor consumers, and stays as it is.
pub proof fn law_closing_refuses(s: ChannelView, m: MessageView, c: ClientV2View, now: u128)
    requires
        s.exiting,
    ensures
        s.put(m, now) == (s, PutOutcome::Exiting),
        s.add_client(c) == (s, Err::<(), AddRefusal>(AddRefusal::Exiting)),
        s.exit(false).1 is None,
        s.exit(true).1 is None,
{
}

/// A consumer that leaves holds nothing any more, and nothing that it held is
/// lost: each message that it held in flight is ready again or is handed back.
pub proof fn law_leaving_loses_nothing(s: ChannelView, consumer: i64, id: Seq<u8>)
    requires
        s.wf(),
    ensures
        forall|j: int|
            0 <= j < s.remove_client(consumer).0.in_flight.len() ==> (
            #[trigger] s.remove_client(consumer).0.in_flight[j]).client_id != Some(consumer),
        s.owned(id, consumer) is Some ==> has_id(s.remove_client(consumer).0.buffer, id) || has_id(
            s.remove_client(consumer).1,
            id,
        ),
{
    lemma_drop_from_wf(s, 0, consumer);
    if s.owned(id, consumer) is Some {
        lemma_index_of_id(s.in_flight, id);
        lemma_drop_keeps(s, 0, consumer, id);
    }
}

/// Whether `consumer` holds the message `id` among those of `s` from the `from`-th
/// on.
pub open spec fn held_from(s: Seq<MessageView>, from: int, consumer: i64, id: Seq<u8>) -> bool {
    exists|j: int|
        from <= j < s.len() && (#[trigger] s[j]).id == id && s[j].client_id == Some(consumer)
}

/// Releasing the messages of a consumer from the `from`-th on puts each of them
/// into the ready buffer or among those handed back.
proof fn lemma_drop_keeps(s: ChannelView, from: int, consumer: i64, id: Seq<u8>)
    requires
        s.wf(),
        0 <= from,
        held_from(s.in_flight, from, consumer, id),
    ensures
        has_id(s.drop_from(from, consumer).0.buffer, id) || has_id(
            s.drop_from(from, consumer).1,
            id,
        ),
    decreases s.in_flight.len() - from,
{
    let j = choose|j: int|
        from <= j < s.in_flight.len() && (#[trigger] s.in_flight[j]).id == id
            && s.in_flight[j].client_id == Some(consumer);
    if s.in_flight[from].client_id == Some(consumer) {
        let (t, out) = s.release(from, false);
        let (u, more) = t.drop_from(from, consumer);
        lemma_release_wf(s, from, false);
        if j == from {
            let m = released(s.in_flight[from]);
            match out {
                Some(x) => {
                    let all = seq![x] + more;
                    assert(all[0].id == id);
                },
                None => {
                    assert(t.buffer[t.buffer.len() - 1].id == id);
                    lemma_drop_keeps_ready(t, from, consumer, id);
                },
            }
        } else {
            assert(t.in_flight[j - 1] == s.in_flight[j]);
            lemma_drop_keeps(t, from, consumer, id);
            if has_id(more, id) {
                let w = choose|w: int| 0 <= w < more.len() && (#[trigger] more[w]).id == id;
                match out {
                    Some(x) => {
                        let all = seq![x] + more;
                        assert(all[w + 1].id == id);
                    },
                    None => {},
                }
            }
        }
    } else {
        lemma_drop_keeps(s, from + 1, consumer, id);
    }
}

/// Releasing messages takes nothing out of the ready buffer.
proof fn lemma_drop_keeps_ready(s: ChannelView, from: int, consumer: i64, id: Seq<u8>)
    requires
        s.wf(),
        0 <= from,
        has_id(s.buffer, id),
    ensures
        has_id(s.drop_from(from, consumer).0.buffer, id),
    decreases s.in_flight.len() - from,
{
    if from < s.in_flight.len() {
        if s.in_flight[from].client_id == Some(consumer) {
            let t = s.release(from, false).0;
            lemma_release_wf(s, from, false);
            let w = choose|w: int| 0 <= w < s.buffer.len() && (#[trigger] s.buffer[w]).id == id;
            assert(t.buffer[w].id == id);
            lemma_drop_keeps_ready(t, from, consumer, id);
        } else {
            lemma_drop_keeps_ready(s, from + 1, consumer, id);
        }
    }
}

} // verus!
