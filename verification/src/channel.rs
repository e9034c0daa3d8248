use crate::channel_state::{
    deadline_after, delivered, has_id, index_of_id, lemma_add_client_wf, lemma_index_of_id,
    lemma_promote_wf, lemma_put_wf, lemma_slot_is, released, slot, timeout_at, AddRefusal,
    ChannelView, PutOutcome, RequeueOutcome, NANOS_PER_MILLI,
};
use crate::client_v2::{bad_state, Client, ClientV2View, SubscriberV2};
use crate::clock::{nanos_or_epoch, unix_nanos};
use crate::errors::{fatal, fault, Fault, NsqError};
use crate::message::{msg_views, Message, MessageID, MessageView, MsgItem};
use crate::options::Options;
use crate::protocol::frame_v2::{FrameSub, FrameSubView};
use crate::protocol::line::bytes_eq;
use dashmap::DashMap;
use std::collections::VecDeque;
use vstd::prelude::*;

verus! {

#[verifier::external_type_specification]
#[verifier::external_body]
#[verifier::reject_recursive_types(K)]
#[verifier::reject_recursive_types(V)]
#[verifier::reject_recursive_types(S)]
pub struct ExDashMap<K, V, S>(DashMap<K, V, S>);

/// The consumers attached to a channel, by their identifiers.
pub type Registry = DashMap<i64, Client>;

/// The consumers that a registry holds, each under its identifier and as what its
/// counters and state are.
pub uninterp spec fn clients_map(m: Registry) -> Map<i64, ClientV2View>;

/// No consumers at all.
pub open spec fn no_clients() -> Map<i64, ClientV2View> {
    Map::empty()
}

/// `DashMap::new`: a registry that holds nothing.
#[verifier::external_body]
fn clients_new() -> (m: Registry)
    ensures
        clients_map(m) == no_clients(),
{
    DashMap::new()
}

/// `DashMap::contains_key`: whether the registry holds an entry under `id`.
#[verifier::external_body]
fn clients_contains_key(m: &Registry, id: i64) -> (b: bool)
    ensures
        b == clients_map(*m).contains_key(id),
{
    m.contains_key(&id)
}

/// `DashMap::len`: the number of entries.
#[verifier::external_body]
fn clients_len(m: &Registry) -> (n: usize)
    ensures
        n == clients_map(*m).len(),
{
    m.len()
}

/// `DashMap::insert`: puts `c` under `id`, in place of what was there, if anything
/// was, which is returned.
#[verifier::external_body]
fn clients_insert(m: &mut Registry, id: i64, c: Client) -> (was: Option<Client>)
    ensures
        clients_map(*final(m)) == clients_map(*old(m)).insert(id, c@),
        was is Some <==> clients_map(*old(m)).contains_key(id),
        was matches Some(w) ==> w@ == clients_map(*old(m))[id],
{
    m.insert(id, c)
}

/// `DashMap::remove`: takes the entry under `id` out, if there is one, and returns
/// it.
#[verifier::external_body]
fn clients_remove(m: &mut Registry, id: i64) -> (was: Option<(i64, Client)>)
    ensures
        clients_map(*final(m)) == clients_map(*old(m)).remove(id),
        was is Some <==> clients_map(*old(m)).contains_key(id),
        was matches Some(w) ==> w.0 == id && w.1@ == clients_map(*old(m))[id],
{
    m.remove(&id)
}

/// `DashMap::alter_all` with `Client::closed`: every entry is marked as closing.
#[verifier::external_body]
fn clients_close_all(m: &mut Registry)
    ensures
        clients_map(*final(m)) == clients_map(*old(m)).map_values(|c: ClientV2View| c.closed()),
{
    m.alter_all(|_, c| c.closed())
}

/// Whether two message identifiers are the same.
pub fn same_id(a: &MessageID, b: &MessageID) -> (same: bool)
    ensures
        same == (a@ == b@),
{
    bytes_eq(a.as_slice(), b.as_slice())
}

/// What each of a list of waiting messages is.
pub open spec fn item_views(s: Seq<MsgItem>) -> Seq<MessageView> {
    Seq::new(s.len(), |i: int| s[i].1@)
}

/// A consumer group of a topic: the messages ready for it, those that wait for
/// their time, those handed out and not answered for, and its consumers.
pub struct Channel {
    name: String,
    mem_queue_size: usize,
    max_channel_subscribers: usize,
    msg_timeout: u64,
    requeue_count: u64,
    msg_count: u64,
    timeout_count: u64,
    buffer: VecDeque<Message>,
    exit_flag: bool,
    clients: Registry,
    defered_pq: Vec<MsgItem>,
    in_flight: Vec<Message>,
}

impl View for Channel {
    type V = ChannelView;

    closed spec fn view(&self) -> ChannelView {
        ChannelView {
            name: self.name@,
            capacity: self.mem_queue_size as nat,
            max_consumers: self.max_channel_subscribers as nat,
            msg_timeout: self.msg_timeout,
            requeue_count: self.requeue_count,
            msg_count: self.msg_count,
            timeout_count: self.timeout_count,
            buffer: msg_views(self.buffer@),
            deferred: item_views(self.defered_pq@),
            in_flight: msg_views(self.in_flight@),
            consumers: clients_map(self.clients),
            exiting: self.exit_flag,
        }
    }
}

pub open spec fn duplicate_id() -> Fault {
    fault("E_INVALID", "Message ID already queued")
}

pub open spec fn defer_too_large() -> Fault {
    fault("E_INVALID", "The defer time is too large")
}

/// What a channel answers when it is given a message: it took the message; or it
/// is closing; or it hands the message back because its buffer is full; or it
/// refuses the message for its identifier or its delay.
pub open spec fn put_answer(r: Result<(), NsqError>, out: PutOutcome, m: MessageView) -> bool {
    match out {
        PutOutcome::Queued => r is Ok,
        PutOutcome::Deferred => r is Ok,
        PutOutcome::Exiting => r matches Err(NsqError::Exiting),
        PutOutcome::Duplicate => r matches Err(e) && e.is_fault(duplicate_id()),
        PutOutcome::TooLate => r matches Err(e) && e.is_fault(defer_too_large()),
        PutOutcome::Full => r matches Err(NsqError::AsyncChannelSendError(back)) && back@ == m,
    }
}

pub open spec fn fin_failed() -> Fault {
    fault("E_FIN_FAILED", "FIN failed: message is not in flight for this consumer")
}

pub open spec fn req_failed() -> Fault {
    fault("E_REQ_FAILED", "REQ failed: message is not in flight for this consumer")
}

pub open spec fn touch_failed() -> Fault {
    fault("E_TOUCH_FAILED", "TOUCH failed: message is not in flight for this consumer")
}

/// What a channel answers to `TOUCH`: it succeeds for the consumer that holds the
/// message in flight, and tells any other that it does not.
pub open spec fn touch_answer(r: Result<(), NsqError>, held: bool) -> bool {
    if held {
        r is Ok
    } else {
        r matches Err(e) && e.is_fault(touch_failed())
    }
}

/// What a channel answers when a consumer gives a message back: it keeps the
/// message; or the consumer does not hold the message; or the delay is too long;
/// or it hands the message back because its buffer is full.
pub open spec fn requeue_answer(r: Result<(), NsqError>, out: RequeueOutcome) -> bool {
    match out {
        RequeueOutcome::Queued => r is Ok,
        RequeueOutcome::Deferred => r is Ok,
        RequeueOutcome::NotOwned => r matches Err(e) && e.is_fault(req_failed()),
        RequeueOutcome::TooLate => r matches Err(e) && e.is_fault(defer_too_large()),
        RequeueOutcome::Spilled(m) => r matches Err(NsqError::AsyncChannelSendError(back)) && back@
            == m,
    }
}

/// What carrying out a consumer's command comes to.
pub enum Handled {
    Done,
    /// The consumer is told why not.
    Failed(Fault),
    /// The message left the channel for want of room and is handed back.
    Spilled(MessageView),
}

/// What a command of a subscribed consumer does to its channel: `RDY` sets the
/// consumer's credit, `FIN` acknowledges a message, `REQ` gives one back, `TOUCH`
/// asks for more time, `CLS` starts to close the consumer, `NOP` does nothing.
pub open spec fn handle_spec(s: ChannelView, consumer: i64, frame: FrameSubView, now: u128) -> (
    ChannelView,
    Handled,
) {
    match frame {
        FrameSubView::NOP => (s, Handled::Done),
        FrameSubView::RDY(n) => (
            s.set_ready(consumer, n).0,
            if s.set_ready(consumer, n).1 {
                Handled::Done
            } else {
                Handled::Failed(bad_state("cannot RDY in current state"))
            },
        ),
        FrameSubView::FIN(id) => (
            s.finish(id, consumer).0,
            if s.finish(id, consumer).1 {
                Handled::Done
            } else {
                Handled::Failed(fin_failed())
            },
        ),
        FrameSubView::REQ(id, ms) => (
            s.requeue(id, consumer, ms, now).0,
            match s.requeue(id, consumer, ms, now).1 {
                RequeueOutcome::Queued => Handled::Done,
                RequeueOutcome::Deferred => Handled::Done,
                RequeueOutcome::NotOwned => Handled::Failed(req_failed()),
                RequeueOutcome::TooLate => Handled::Failed(defer_too_large()),
                RequeueOutcome::Spilled(m) => Handled::Spilled(m),
            },
        ),
        FrameSubView::TOUCH(id) => (
            s.touch(id, consumer, now).0,
            if s.touch(id, consumer, now).1 {
                Handled::Done
            } else {
                Handled::Failed(touch_failed())
            },
        ),
        FrameSubView::CLS => (
            s.close_client(consumer).0,
            if s.close_client(consumer).1 {
                Handled::Done
            } else {
                Handled::Failed(bad_state("cannot CLS in current state"))
            },
        ),
    }
}

pub open spec fn handled_answer(r: Result<(), NsqError>, out: Handled) -> bool {
    match out {
        Handled::Done => r is Ok,
        Handled::Failed(f) => r matches Err(e) && e.is_fault(f),
        Handled::Spilled(m) => r matches Err(NsqError::AsyncChannelSendError(back)) && back@ == m,
    }
}

/// What a topic sends to its channels.
#[derive(Debug)]
pub enum TopicEvent {
    /// A message was published.
    Message(Message),
    /// The channel was too slow and missed this many messages.
    Lagged(u64),
    /// The topic is closed.
    Closed,
}

/// What is to be done after a channel has taken what its topic sent.
#[derive(Debug)]
pub enum ServeAction {
    /// Go on to wait for the topic.
    Continue,
    /// The buffer is full: the message is to be kept elsewhere.
    Spill(Message),
    /// The channel did not take the message.
    Refused(NsqError),
    /// The channel is closed; these messages are to be kept elsewhere.
    Stop(Vec<Message>),
}

/// What taking an event of the topic at `now` comes to. A message is given to the
/// channel: where the channel keeps it, the channel goes on; where its buffer is
/// full, the message is to be kept elsewhere; where it refuses the message, the
/// reason is returned. A notice of missed messages changes nothing. The end of the
/// topic closes the channel, whose messages are to be kept elsewhere.
pub open spec fn served(
    before: ChannelView,
    after: ChannelView,
    event: TopicEvent,
    action: ServeAction,
    now: u128,
) -> bool {
    match event {
        TopicEvent::Message(m) => {
            &&& after == before.put(m@, now).0
            &&& match before.put(m@, now).1 {
                PutOutcome::Queued => action is Continue,
                PutOutcome::Deferred => action is Continue,
                PutOutcome::Full => action matches ServeAction::Spill(back) && back@ == m@,
                out => action matches ServeAction::Refused(e) && put_answer(Err(e), out, m@),
            }
        },
        TopicEvent::Lagged(_) => after == before && action is Continue,
        TopicEvent::Closed => {
            &&& after == before.exit(false).0
            &&& action matches ServeAction::Stop(v)
            &&& msg_views(v@) == match before.exit(false).1 {
                Some(f) => f,
                None => Seq::empty(),
            }
        },
    }
}

/// What is recorded for a consumer when a message that it held is settled.
pub enum Note {
    Finished,
    Requeued,
    TimedOut,
}

impl Note {
    pub open spec fn of(self, c: ClientV2View) -> ClientV2View {
        match self {
            Note::Finished => c.finished(),
            Note::Requeued => c.requeued(),
            Note::TimedOut => c.timed_out(),
        }
    }
}

/// What a channel answers when a consumer wants to attach.
pub open spec fn add_answer(r: Result<(), NsqError>, out: Result<(), AddRefusal>) -> bool {
    match out {
        Ok(()) => r is Ok,
        Err(AddRefusal::Exiting) => r matches Err(NsqError::Exiting),
        Err(AddRefusal::Full(max)) => r matches Err(NsqError::MaxSubscriberReached(n)) && n == max,
    }
}

impl Channel {
    /// What the channel needs to hold of itself, beyond what its view shows.
    pub closed spec fn inv(&self) -> bool {
        &&& self@.wf()
        &&& forall|i: int|
            0 <= i < self.defered_pq@.len() ==> (#[trigger] self.defered_pq@[i]).0
                == self.defered_pq@[i].1@.pri
    }

    /// A channel in good order shows a state in good order.
    pub proof fn lemma_inv(&self)
        requires
            self.inv(),
        ensures
            self@.wf(),
    {
    }

    /// A channel that holds nothing, with the limits that `opts` sets.
    pub fn new(name: String, opts: &Options) -> (c: Self)
        ensures
            c.inv(),
            c@ == (ChannelView {
                name: name@,
                capacity: opts.mem_queue_size as nat,
                max_consumers: opts.max_channel_subscribers as nat,
                msg_timeout: opts.msg_timeout,
                requeue_count: 0,
                msg_count: 0,
                timeout_count: 0,
                buffer: Seq::empty(),
                deferred: Seq::empty(),
                in_flight: Seq::empty(),
                consumers: Map::empty(),
                exiting: false,
            }),
    {
        let c = Self {
            name,
            mem_queue_size: opts.mem_queue_size,
            max_channel_subscribers: opts.max_channel_subscribers,
            msg_timeout: opts.msg_timeout,
            requeue_count: 0,
            msg_count: 0,
            timeout_count: 0,
            buffer: VecDeque::new(),
            exit_flag: false,
            clients: clients_new(),
            defered_pq: Vec::new(),
            in_flight: Vec::new(),
        };
        assert(c@.buffer =~= Seq::empty());
        assert(c@.deferred =~= Seq::empty());
        assert(c@.in_flight =~= Seq::empty());
        c
    }

    pub fn exiting(&self) -> (b: bool)
        ensures
            b == self@.exiting,
    {
        self.exit_flag
    }

    /// Attaches a consumer. A consumer that is attached already stays as it is,
    /// and the call succeeds; a channel that has as many consumers as it accepts
    /// refuses a further one; a closing channel refuses any.
    pub fn add_client(&mut self, c: Client) -> (r: Result<(), NsqError>)
        requires
            old(self).inv(),
        ensures
            final(self).inv(),
            final(self)@.name == old(self)@.name,
            final(self)@ == old(self)@.add_client(c@).0,
            add_answer(r, old(self)@.add_client(c@).1),
    {
        proof {
            lemma_add_client_wf(self@, c@);
        }
        if self.exiting() {
            return Err(NsqError::Exiting);
        }
        let id = c.id();
        if clients_contains_key(&self.clients, id) {
            return Ok(());
        }
        let max = self.max_channel_subscribers;
        if clients_len(&self.clients) >= max {
            return Err(NsqError::MaxSubscriberReached(max));
        }
        clients_insert(&mut self.clients, id, Client::SubV2(SubscriberV2::new(c)));
        Ok(())
    }

    /// `RDY`: `consumer` states how many more messages it takes; any count is
    /// taken. A consumer that is not attached or has not subscribed is told so, and
    /// nothing changes.
    pub fn set_ready(&mut self, consumer: i64, count: u64) -> (r: Result<(), NsqError>)
        requires
            old(self).inv(),
        ensures
            final(self).inv(),
            final(self)@.name == old(self)@.name,
            final(self)@ == old(self)@.set_ready(consumer, count).0,
            old(self)@.set_ready(consumer, count).1 ==> r is Ok,
            !old(self)@.set_ready(consumer, count).1 ==> (r matches Err(e) && e.is_fault(
                bad_state("cannot RDY in current state"),
            )),
    {
        proof {
            crate::channel_state::lemma_set_ready_wf(self@, consumer, count);
        }
        let ghost held = self@;
        match clients_remove(&mut self.clients, consumer) {
            Some(entry) => {
                let mut client = entry.1;
                let r = client.set_ready(count);
                clients_insert(&mut self.clients, consumer, client);
                proof {
                    if r is Ok {
                        assert(clients_map(self.clients) =~= held.consumers.insert(
                            consumer,
                            ClientV2View { ready_count: count, ..held.consumers[consumer] },
                        ));
                    } else {
                        assert(clients_map(self.clients) =~= held.consumers);
                    }
                }
                r
            },
            None => {
                assert(clients_map(self.clients) =~= held.consumers);
                Err(fatal("E_INVALID", "cannot RDY in current state"))
            },
        }
    }

    /// `CLS`: `consumer` starts to close and gets no further message. A consumer
    /// that is not attached or has not subscribed is told so, and nothing changes.
    pub fn close_client(&mut self, consumer: i64) -> (r: Result<(), NsqError>)
        requires
            old(self).inv(),
        ensures
            final(self).inv(),
            final(self)@.name == old(self)@.name,
            final(self)@ == old(self)@.close_client(consumer).0,
            old(self)@.close_client(consumer).1 ==> r is Ok,
            !old(self)@.close_client(consumer).1 ==> (r matches Err(e) && e.is_fault(
                bad_state("cannot CLS in current state"),
            )),
    {
        proof {
            crate::channel_state::lemma_set_ready_wf(self@, consumer, 0);
        }
        let ghost held = self@;
        match clients_remove(&mut self.clients, consumer) {
            Some(entry) => {
                let mut client = entry.1;
                let r = client.start_close();
                clients_insert(&mut self.clients, consumer, client);
                proof {
                    if r is Ok {
                        assert(clients_map(self.clients) =~= held.consumers.insert(
                            consumer,
                            held.consumers[consumer].closed(),
                        ));
                    } else {
                        assert(clients_map(self.clients) =~= held.consumers);
                    }
                }
                r
            },
            None => {
                assert(clients_map(self.clients) =~= held.consumers);
                Err(fatal("E_INVALID", "cannot CLS in current state"))
            },
        }
    }

    /// The name of the channel.
    pub fn name(&self) -> (n: &String)
        ensures
            n@ == self@.name,
    {
        &self.name
    }

    /// The number of messages ready for delivery.
    pub fn depth(&self) -> (n: usize)
        ensures
            n == self@.buffer.len(),
    {
        self.buffer.len()
    }

    /// The number of messages that wait for their time.
    pub fn deferred_count(&self) -> (n: usize)
        ensures
            n == self@.deferred.len(),
    {
        self.defered_pq.len()
    }

    /// The number of messages handed out and not answered for.
    pub fn in_flight_count(&self) -> (n: usize)
        ensures
            n == self@.in_flight.len(),
    {
        self.in_flight.len()
    }

    /// Whether the message `id` is handed out and not answered for.
    pub fn is_in_flight(&self, id: &MessageID) -> (b: bool)
        ensures
            b == has_id(self@.in_flight, id@),
    {
        let i = self.find_in_flight(id);
        proof {
            lemma_index_of_id(self@.in_flight, id@);
        }
        i < self.in_flight.len()
    }

    /// The number of consumers attached.
    pub fn client_count(&self) -> (n: usize)
        ensures
            n == self@.consumers.len(),
    {
        clients_len(&self.clients)
    }

    /// Whether `consumer` is attached.
    pub fn has_client(&self, consumer: i64) -> (b: bool)
        ensures
            b == self@.consumers.contains_key(consumer),
    {
        clients_contains_key(&self.clients, consumer)
    }

    /// How many messages the channel has taken.
    pub fn msg_count(&self) -> (n: u64)
        ensures
            n == self@.msg_count,
    {
        self.msg_count
    }

    /// How many messages consumers have given back.
    pub fn requeue_count(&self) -> (n: u64)
        ensures
            n == self@.requeue_count,
    {
        self.requeue_count
    }

    /// How many deliveries have timed out.
    pub fn timeout_count(&self) -> (n: u64)
        ensures
            n == self@.timeout_count,
    {
        self.timeout_count
    }

    /// Whether the channel holds a message with the identifier `id`, wherever.
    fn holds_id(&self, id: &MessageID) -> (b: bool)
        ensures
            b == self@.holds(id@),
    {
        let mut i: usize = 0;
        while i < self.buffer.len()
            invariant
                i <= self.buffer@.len(),
                forall|j: int| 0 <= j < i ==> (#[trigger] msg_views(self.buffer@)[j]).id != id@,
            decreases self.buffer@.len() - i,
        {
            if same_id(&self.buffer[i].id(), id) {
                assert(msg_views(self.buffer@)[i as int].id == id@);
                return true;
            }
            i = i + 1;
        }
        let mut i: usize = 0;
        while i < self.defered_pq.len()
            invariant
                i <= self.defered_pq@.len(),
                !has_id(msg_views(self.buffer@), id@),
                forall|j: int|
                    0 <= j < i ==> (#[trigger] item_views(self.defered_pq@)[j]).id != id@,
            decreases self.defered_pq@.len() - i,
        {
            if same_id(&self.defered_pq[i].1.id(), id) {
                assert(item_views(self.defered_pq@)[i as int].id == id@);
                return true;
            }
            i = i + 1;
        }
        let mut i: usize = 0;
        while i < self.in_flight.len()
            invariant
                i <= self.in_flight@.len(),
                !has_id(msg_views(self.buffer@), id@),
                !has_id(item_views(self.defered_pq@), id@),
                forall|j: int| 0 <= j < i ==> (#[trigger] msg_views(self.in_flight@)[j]).id != id@,
            decreases self.in_flight@.len() - i,
        {
            if same_id(&self.in_flight[i].id(), id) {
                assert(msg_views(self.in_flight@)[i as int].id == id@);
                return true;
            }
            i = i + 1;
        }
        false
    }

    /// Sets `msg` to wait until `deadline`, behind the messages due no later.
    fn insert_deferred(&mut self, msg: Message, deadline: u128)
        requires
            old(self).inv(),
            !old(self)@.holds(msg@.id),
        ensures
            final(self).inv(),
            final(self)@ == old(self)@.defer(msg@, deadline),
    {
        let mut msg = msg;
        let ghost m0 = msg@;
        msg.set_pri(deadline);
        proof {
            msg.lemma_view_wf();
            crate::channel_state::lemma_defer_wf(self@, m0, deadline);
        }
        let mut k: usize = 0;
        while k < self.defered_pq.len() && self.defered_pq[k].0 <= deadline
            invariant
                *self == *old(self),
                self.inv(),
                k <= self.defered_pq@.len(),
                forall|j: int| 0 <= j < k ==> (#[trigger] item_views(self.defered_pq@)[j]).pri
                    <= deadline,
            decreases self.defered_pq@.len() - k,
        {
            k = k + 1;
        }
        proof {
            if k < self.defered_pq@.len() {
                assert(item_views(self.defered_pq@)[k as int].pri > deadline);
            }
            lemma_slot_is(item_views(self.defered_pq@), deadline, k as int);
        }
        let ghost before = item_views(self.defered_pq@);
        self.defered_pq.insert(k, MsgItem(deadline, msg));
        assert(item_views(self.defered_pq@) =~= before.insert(k as int, msg@));
        assert(msg@ == (MessageView { pri: deadline, ..m0 }));
    }

    /// Sets a message to wait until its delay has passed, counted from `now`.
    /// A message whose identifier the channel holds already is refused, and so is
    /// one whose time no clock can show.
    pub fn push_defered_msg_at(&mut self, msg: Message, now: u128) -> (r: Result<(), NsqError>)
        requires
            old(self).inv(),
        ensures
            final(self).inv(),
            final(self)@ == old(self)@.push_deferred(msg@, now).0,
            put_answer(r, old(self)@.push_deferred(msg@, now).1, msg@),
    {
        if self.holds_id(&msg.id()) {
            return Err(fatal("E_INVALID", "Message ID already queued"));
        }
        match deadline(now, msg.get_defered()) {
            Some(t) => {
                self.insert_deferred(msg, t);
                Ok(())
            },
            None => Err(fatal("E_INVALID", "The defer time is too large")),
        }
    }

    /// Sets a message to wait until its delay has passed, counted from what the
    /// system clock reads now.
    pub fn push_defered_msg(&mut self, msg: Message) -> (r: Result<(), NsqError>)
        requires
            old(self).inv(),
        ensures
            final(self).inv(),
            exists|now: u128|
                {
                    &&& final(self)@ == (#[trigger] old(self)@.push_deferred(msg@, now)).0
                    &&& put_answer(r, old(self)@.push_deferred(msg@, now).1, msg@)
                },
    {
        let now = clock_now();
        self.push_defered_msg_at(msg, now)
    }

    /// Takes the waiting message that is due first out of the channel, if its time
    /// has come by `curr`.
    pub fn pop_defered_msg(&mut self, curr: u128) -> (r: Option<Message>)
        requires
            old(self).inv(),
        ensures
            final(self).inv(),
            final(self)@ == old(self)@.pop_deferred(curr).0,
            match old(self)@.pop_deferred(curr).1 {
                Some(v) => r matches Some(m) && m@ == v,
                None => r is None,
            },
    {
        proof {
            crate::channel_state::lemma_pop_deferred_wf(self@, curr);
        }
        if self.defered_pq.len() > 0 && self.defered_pq[0].0 <= curr {
            let ghost before = item_views(self.defered_pq@);
            let item = self.defered_pq.remove(0);
            assert(item_views(self.defered_pq@) =~= before.subrange(1, before.len() as int));
            assert(before[0] == item.1@);
            Some(item.1)
        } else {
            None
        }
    }

    /// Gives the channel a message at `now`. A message with a delay waits until
    /// the delay has passed; any other becomes the last of the ready buffer. A
    /// closing channel takes nothing; a full buffer has the message handed back.
    pub fn put_message_at(&mut self, msg: Message, now: u128) -> (r: Result<(), NsqError>)
        requires
            old(self).inv(),
        ensures
            final(self).inv(),
            final(self)@.name == old(self)@.name,
            final(self)@ == old(self)@.put(msg@, now).0,
            put_answer(r, old(self)@.put(msg@, now).1, msg@),
    {
        proof {
            msg.lemma_view_wf();
            lemma_put_wf(self@, msg@, now);
        }
        if self.exit_flag {
            return Err(NsqError::Exiting);
        }
        if self.holds_id(&msg.id()) {
            return Err(fatal("E_INVALID", "Message ID already queued"));
        }
        if msg.is_defered() {
            match deadline(now, msg.get_defered()) {
                Some(t) => {
                    self.insert_deferred(msg, t);
                    self.msg_count = self.msg_count.wrapping_add(1);
                    Ok(())
                },
                None => Err(fatal("E_INVALID", "The defer time is too large")),
            }
        } else {
            if self.buffer.len() >= self.mem_queue_size {
                return Err(NsqError::AsyncChannelSendError(msg));
            }
            let ghost before = msg_views(self.buffer@);
            let ghost m = msg@;
            self.buffer.push_back(msg);
            self.msg_count = self.msg_count.wrapping_add(1);
            assert(msg_views(self.buffer@) =~= before.push(m));
            Ok(())
        }
    }

    /// Gives the channel a message now, by the system clock.
    pub fn put_message(&mut self, msg: Message) -> (r: Result<(), NsqError>)
        requires
            old(self).inv(),
        ensures
            final(self).inv(),
            exists|now: u128|
                {
                    &&& final(self)@ == (#[trigger] old(self)@.put(msg@, now)).0
                    &&& put_answer(r, old(self)@.put(msg@, now).1, msg@)
                },
    {
        let now = clock_now();
        self.put_message_at(msg, now)
    }

    /// Moves the waiting messages whose time has come by `now` to the ready buffer,
    /// as far as it has room.
    fn promote(&mut self, now: u128)
        requires
            old(self).inv(),
        ensures
            final(self).inv(),
            final(self)@ == old(self)@.promote(now),
    {
        proof {
            lemma_promote_wf(self@, now);
        }
        while self.defered_pq.len() > 0 && self.defered_pq[0].0 <= now && self.buffer.len()
            < self.mem_queue_size
            invariant
                self.inv(),
                self@.promote(now) == old(self)@.promote(now),
            decreases self.defered_pq@.len(),
        {
            let ghost before = self@;
            let ghost items = item_views(self.defered_pq@);
            let ghost ready = msg_views(self.buffer@);
            let item = self.defered_pq.remove(0);
            self.buffer.push_back(item.1);
            proof {
                assert(item_views(self.defered_pq@) =~= items.subrange(1, items.len() as int));
                assert(msg_views(self.buffer@) =~= ready.push(items[0]));
                let step = ChannelView {
                    buffer: before.buffer.push(before.deferred[0]),
                    deferred: before.deferred.subrange(1, before.deferred.len() as int),
                    ..before
                };
                assert(self@ == step);
                assert forall|i: int| 0 <= i < step.deferred.len() implies (
                #[trigger] step.deferred[i]) == before.deferred[i + 1] by {}
                assert(step.wf());
            }
        }
    }

    /// Hands the next ready message to `consumer` at `now`, if the consumer is
    /// attached and ready and there is a message. The message is in flight from then
    /// on, to be answered for within the message timeout, and the consumer has one
    /// credit less. Before that, the waiting messages whose time has come are moved
    /// to the ready buffer.
    pub fn pop_ready_message_at(&mut self, consumer: i64, now: u128) -> (r: Option<Message>)
        requires
            old(self).inv(),
        ensures
            final(self).inv(),
            final(self)@.name == old(self)@.name,
            final(self)@ == old(self)@.pop(consumer, now).0,
            match old(self)@.pop(consumer, now).1 {
                Some(v) => r matches Some(m) && m@ == v,
                None => r is None,
            },
    {
        proof {
            crate::channel_state::lemma_pop_wf(self@, consumer, now);
        }
        self.promote(now);
        if self.buffer.len() == 0 {
            return None;
        }
        let ghost held = self@;
        let mut client = match clients_remove(&mut self.clients, consumer) {
            Some(entry) => entry.1,
            None => {
                assert(clients_map(self.clients) =~= held.consumers);
                return None;
            },
        };
        if !client.is_ready() {
            clients_insert(&mut self.clients, consumer, client);
            assert(clients_map(self.clients) =~= held.consumers);
            return None;
        }
        client.sending_msg();
        clients_insert(&mut self.clients, consumer, client);
        assert(clients_map(self.clients) =~= held.consumers.insert(
            consumer,
            held.consumers[consumer].sent(),
        ));
        let ghost ready = msg_views(self.buffer@);
        let ghost flying = msg_views(self.in_flight@);
        let mut msg = match self.buffer.pop_front() {
            Some(m) => m,
            None => {
                return None;
            },
        };
        let due = match deadline(now, self.msg_timeout) {
            Some(t) => t,
            None => u128::MAX,
        };
        msg.deliver(consumer, now, due);
        let out = msg.clone();
        self.in_flight.push(msg);
        proof {
            assert(msg_views(self.buffer@) =~= ready.subrange(1, ready.len() as int));
            assert(msg_views(self.in_flight@) =~= flying.push(out@));
            assert(out@ == delivered(ready[0], consumer, now, timeout_at(now, held.msg_timeout)));
        }
        Some(out)
    }

    /// Hands the next ready message to `consumer` now, by the system clock.
    pub fn pop_ready_message(&mut self, consumer: i64) -> (r: Option<Message>)
        requires
            old(self).inv(),
        ensures
            final(self).inv(),
            exists|now: u128|
                {
                    &&& final(self)@ == (#[trigger] old(self)@.pop(consumer, now)).0
                    &&& match old(self)@.pop(consumer, now).1 {
                        Some(v) => r matches Some(m) && m@ == v,
                        None => r is None,
                    }
                },
    {
        let now = clock_now();
        self.pop_ready_message_at(consumer, now)
    }

    /// Where the messages in flight hold the identifier `id`.
    fn find_in_flight(&self, id: &MessageID) -> (i: usize)
        ensures
            i == index_of_id(msg_views(self.in_flight@), id@),
            i <= self.in_flight@.len(),
    {
        let mut i: usize = 0;
        while i < self.in_flight.len() && !same_id(&self.in_flight[i].id(), id)
            invariant
                i <= self.in_flight@.len(),
                forall|j: int| 0 <= j < i ==> (#[trigger] msg_views(self.in_flight@)[j]).id != id@,
            decreases self.in_flight@.len() - i,
        {
            i = i + 1;
        }
        proof {
            lemma_index_of_id(msg_views(self.in_flight@), id@);
            let k = index_of_id(msg_views(self.in_flight@), id@);
            if i < self.in_flight@.len() {
                assert(msg_views(self.in_flight@)[i as int].id == id@);
            }
            if k < i {
                assert(msg_views(self.in_flight@)[k].id != id@);
            }
        }
        i
    }

    /// Where `consumer` holds the message `id` in flight, if it does.
    fn find_owned(&self, id: &MessageID, consumer: i64) -> (r: Option<usize>)
        ensures
            r matches Some(i) ==> i < self.in_flight@.len() && self@.owned(id@, consumer) == Some(
                i as int,
            ),
            r is None ==> self@.owned(id@, consumer) is None,
    {
        let i = self.find_in_flight(id);
        if i < self.in_flight.len() {
            match self.in_flight[i].client_id() {
                Some(c) => if c == consumer {
                    Some(i)
                } else {
                    None
                },
                None => None,
            }
        } else {
            None
        }
    }

    /// Applies `change` to the counters of `consumer`.
    fn note(&mut self, consumer: i64, change: Note)
        requires
            old(self).inv(),
            old(self)@.consumers.contains_key(consumer),
        ensures
            final(self)@ == old(self)@.with_consumer(
                consumer,
                change.of(old(self)@.consumers[consumer]),
            ),
            final(self).inv(),
    {
        let ghost held = self@;
        match clients_remove(&mut self.clients, consumer) {
            Some(entry) => {
                let mut client = entry.1;
                match change {
                    Note::Finished => client.finished_msg(),
                    Note::Requeued => client.requeue_msg(),
                    Note::TimedOut => client.timed_out_msg(),
                }
                clients_insert(&mut self.clients, consumer, client);
            },
            None => {},
        }
        assert(clients_map(self.clients) =~= held.consumers.insert(
            consumer,
            change.of(held.consumers[consumer]),
        ));
        assert(self@.consumers.dom() =~= held.consumers.dom());
    }

    /// `FIN`: `consumer` acknowledges the message `id`, which leaves the channel.
    /// A consumer that does not hold the message in flight is told so, and nothing
    /// changes.
    pub fn finish(&mut self, id: MessageID, consumer: i64) -> (r: Result<(), NsqError>)
        requires
            old(self).inv(),
        ensures
            final(self).inv(),
            final(self)@.name == old(self)@.name,
            final(self)@ == old(self)@.finish(id@, consumer).0,
            old(self)@.finish(id@, consumer).1 ==> r is Ok,
            !old(self)@.finish(id@, consumer).1 ==> (r matches Err(e) && e.is_fault(fin_failed())),
    {
        proof {
            crate::channel_state::lemma_finish_wf(self@, id@, consumer);
        }
        match self.find_owned(&id, consumer) {
            Some(i) => {
                let ghost flying = msg_views(self.in_flight@);
                self.in_flight.remove(i);
                assert(msg_views(self.in_flight@) =~= flying.remove(i as int));
                proof {
                    crate::channel_state::lemma_removed(flying, i as int);
                    assert(self.inv());
                }
                self.note(consumer, Note::Finished);
                Ok(())
            },
            None => Err(
                fatal("E_FIN_FAILED", "FIN failed: message is not in flight for this consumer"),
            ),
        }
    }

    /// `TOUCH`: `consumer` asks for more time for the message `id`: the answer is
    /// due a full message timeout after `now`. A consumer that does not hold the
    /// message in flight is told so, and nothing changes.
    pub fn touch_at(&mut self, id: MessageID, consumer: i64, now: u128) -> (r: Result<
        (),
        NsqError,
    >)
        requires
            old(self).inv(),
        ensures
            final(self).inv(),
            final(self)@.name == old(self)@.name,
            final(self)@ == old(self)@.touch(id@, consumer, now).0,
            touch_answer(r, old(self)@.owned(id@, consumer) is Some),
    {
        proof {
            crate::channel_state::lemma_touch_wf(self@, id@, consumer, now);
        }
        match self.find_owned(&id, consumer) {
            Some(i) => {
                let due = match deadline(now, self.msg_timeout) {
                    Some(t) => t,
                    None => u128::MAX,
                };
                let ghost flying = msg_views(self.in_flight@);
                let mut msg = self.in_flight.remove(i);
                msg.set_pri(due);
                self.in_flight.insert(i, msg);
                assert(msg_views(self.in_flight@) =~= flying.update(
                    i as int,
                    MessageView { pri: due, ..flying[i as int] },
                ));
                Ok(())
            },
            None => Err(
                fatal("E_TOUCH_FAILED", "TOUCH failed: message is not in flight for this consumer"),
            ),
        }
    }

    /// `TOUCH`, counted from what the system clock reads now. Whether it succeeds
    /// does not depend on the clock: the consumer has to hold the message in flight,
    /// and is told so where it does not.
    pub fn touch(&mut self, id: MessageID, consumer: i64) -> (r: Result<(), NsqError>)
        requires
            old(self).inv(),
        ensures
            final(self).inv(),
            final(self)@.name == old(self)@.name,
            touch_answer(r, old(self)@.owned(id@, consumer) is Some),
            old(self)@.owned(id@, consumer) is None ==> final(self)@ == old(self)@,
            exists|now: u128| final(self)@ == (#[trigger] old(self)@.touch(id@, consumer, now)).0,
    {
        let now = clock_now();
        self.touch_at(id, consumer, now)
    }

    /// `REQ`: `consumer` gives the message `id` back at `now`. Without a delay the
    /// message becomes the last of the ready buffer or, where that is full, leaves
    /// the channel and is handed back; with a delay it waits until the delay has
    /// passed. A consumer that does not hold the message in flight is told so, and
    /// nothing changes.
    pub fn requeue_at(&mut self, id: MessageID, consumer: i64, delay: u64, now: u128) -> (r:
        Result<(), NsqError>)
        requires
            old(self).inv(),
        ensures
            final(self).inv(),
            final(self)@.name == old(self)@.name,
            final(self)@ == old(self)@.requeue(id@, consumer, delay, now).0,
            requeue_answer(r, old(self)@.requeue(id@, consumer, delay, now).1),
    {
        proof {
            crate::channel_state::lemma_requeue_wf(self@, id@, consumer, delay, now);
        }
        let i = match self.find_owned(&id, consumer) {
            Some(i) => i,
            None => {
                return Err(
                    fatal("E_REQ_FAILED", "REQ failed: message is not in flight for this consumer"),
                );
            },
        };
        let due = if delay == 0 {
            0
        } else {
            match deadline(now, delay) {
                Some(t) => t,
                None => {
                    return Err(fatal("E_INVALID", "The defer time is too large"));
                },
            }
        };
        let ghost flying = msg_views(self.in_flight@);
        let mut msg = self.in_flight.remove(i);
        msg.release();
        proof {
            assert(msg_views(self.in_flight@) =~= flying.remove(i as int));
            crate::channel_state::lemma_removed(flying, i as int);
            lemma_index_of_id(flying, id@);
            assert(self.inv());
            assert(flying[i as int].wf());
            assert(msg@ == released(flying[i as int]));
        }
        self.note(consumer, Note::Requeued);
        self.requeue_count = self.requeue_count.wrapping_add(1);
        if delay == 0 {
            if self.buffer.len() < self.mem_queue_size {
                let ghost ready = msg_views(self.buffer@);
                let ghost m = msg@;
                self.buffer.push_back(msg);
                assert(msg_views(self.buffer@) =~= ready.push(m));
                Ok(())
            } else {
                Err(NsqError::AsyncChannelSendError(msg))
            }
        } else {
            assert(!self@.holds(msg@.id));
            self.insert_deferred(msg, due);
            Ok(())
        }
    }

    /// `REQ`, counted from what the system clock reads now.
    pub fn requeue(&mut self, id: MessageID, consumer: i64, delay: u64) -> (r: Result<
        (),
        NsqError,
    >)
        requires
            old(self).inv(),
        ensures
            final(self).inv(),
            exists|now: u128|
                {
                    &&& final(self)@ == (#[trigger] old(self)@.requeue(id@, consumer, delay, now)).0
                    &&& requeue_answer(r, old(self)@.requeue(id@, consumer, delay, now).1)
                },
    {
        let now = clock_now();
        self.requeue_at(id, consumer, delay, now)
    }

    /// Releases the `i`-th message in flight: its consumer holds one less, and the
    /// message becomes the last of the ready buffer or, where that is full, leaves
    /// the channel and is returned.
    fn release_at(&mut self, i: usize, timed_out: bool) -> (r: Option<Message>)
        requires
            old(self).inv(),
            i < old(self)@.in_flight.len(),
        ensures
            final(self).inv(),
            final(self)@ == old(self)@.release(i as int, timed_out).0,
            match old(self)@.release(i as int, timed_out).1 {
                Some(v) => r matches Some(m) && m@ == v,
                None => r is None,
            },
    {
        proof {
            crate::channel_state::lemma_release_wf(self@, i as int, timed_out);
        }
        let ghost held = self@;
        let ghost flying = msg_views(self.in_flight@);
        let mut msg = self.in_flight.remove(i);
        let owner = match msg.client_id() {
            Some(c) => c,
            None => 0,
        };
        msg.release();
        proof {
            assert(msg_views(self.in_flight@) =~= flying.remove(i as int));
            crate::channel_state::lemma_removed(flying, i as int);
            assert(flying[i as int].client_id is Some);
            assert(held.consumers.contains_key(owner));
            assert(self.inv());
            assert(msg@ == released(flying[i as int]));
        }
        if timed_out {
            self.note(owner, Note::TimedOut);
            self.timeout_count = self.timeout_count.wrapping_add(1);
        } else {
            self.note(owner, Note::Requeued);
            self.requeue_count = self.requeue_count.wrapping_add(1);
        }
        if self.buffer.len() < self.mem_queue_size {
            let ghost ready = msg_views(self.buffer@);
            let ghost m = msg@;
            self.buffer.push_back(msg);
            assert(msg_views(self.buffer@) =~= ready.push(m));
            None
        } else {
            Some(msg)
        }
    }

    /// The timeout sweep: releases every message in flight whose answer was due by
    /// `now`, in order of delivery. Each becomes the last of the ready buffer; those
    /// for which the buffer has no room leave the channel and are returned.
    pub fn sweep_at(&mut self, now: u128) -> (spilled: Vec<Message>)
        requires
            old(self).inv(),
        ensures
            final(self).inv(),
            final(self)@.name == old(self)@.name,
            final(self)@ == old(self)@.sweep(now).0,
            msg_views(spilled@) == old(self)@.sweep(now).1,
    {
        proof {
            crate::channel_state::lemma_sweep_wf(self@, now);
        }
        let mut spilled: Vec<Message> = Vec::new();
        let mut i: usize = 0;
        assert(msg_views(spilled@) + old(self)@.sweep(now).1 =~= old(self)@.sweep(now).1);
        while i < self.in_flight.len()
            invariant
                self.inv(),
                old(self)@.sweep(now).0 == self@.sweep_from(i as int, now).0,
                old(self)@.sweep(now).1 == msg_views(spilled@) + self@.sweep_from(i as int, now).1,
            decreases self.in_flight@.len() - i,
        {
            let ghost before = self@;
            let ghost had = msg_views(spilled@);
            assert(before.in_flight[i as int] == self.in_flight@[i as int]@);
            if self.in_flight[i].pri() <= now {
                match self.release_at(i, true) {
                    Some(m) => {
                        let ghost v = m@;
                        spilled.push(m);
                        proof {
                            let rest = self@.sweep_from(i as int, now).1;
                            assert(msg_views(spilled@) =~= had.push(v));
                            assert(had + (seq![v] + rest) =~= had.push(v) + rest);
                        }
                    },
                    None => {},
                }
            } else {
                i = i + 1;
            }
        }
        proof {
            assert(msg_views(spilled@) + Seq::<MessageView>::empty() =~= msg_views(spilled@));
        }
        spilled
    }

    /// The timeout sweep, by what the system clock reads now.
    pub fn sweep(&mut self) -> (spilled: Vec<Message>)
        requires
            old(self).inv(),
        ensures
            final(self).inv(),
            exists|now: u128|
                {
                    &&& final(self)@ == (#[trigger] old(self)@.sweep(now)).0
                    &&& msg_views(spilled@) == old(self)@.sweep(now).1
                },
    {
        let now = clock_now();
        self.sweep_at(now)
    }

    /// A consumer leaves. The messages that it holds in flight are released, in
    /// order of delivery: each becomes the last of the ready buffer; those for which
    /// the buffer has no room leave the channel and are returned.
    pub fn remove_client(&mut self, consumer: i64) -> (spilled: Vec<Message>)
        requires
            old(self).inv(),
        ensures
            final(self).inv(),
            final(self)@.name == old(self)@.name,
            final(self)@ == old(self)@.remove_client(consumer).0,
            msg_views(spilled@) == old(self)@.remove_client(consumer).1,
    {
        proof {
            crate::channel_state::lemma_remove_client_wf(self@, consumer);
            crate::channel_state::lemma_sweep_wf(self@, 0);
        }
        let mut spilled: Vec<Message> = Vec::new();
        let mut i: usize = 0;
        assert(msg_views(spilled@) + old(self)@.drop_from(0, consumer).1 =~= old(self)@.drop_from(
            0,
            consumer,
        ).1);
        while i < self.in_flight.len()
            invariant
                self.inv(),
                old(self)@.drop_from(0, consumer).0 == self@.drop_from(i as int, consumer).0,
                old(self)@.drop_from(0, consumer).1 == msg_views(spilled@) + self@.drop_from(
                    i as int,
                    consumer,
                ).1,
            decreases self.in_flight@.len() - i,
        {
            let ghost had = msg_views(spilled@);
            assert(self@.in_flight[i as int] == self.in_flight@[i as int]@);
            let mine = match self.in_flight[i].client_id() {
                Some(c) => c == consumer,
                None => false,
            };
            if mine {
                match self.release_at(i, false) {
                    Some(m) => {
                        let ghost v = m@;
                        spilled.push(m);
                        proof {
                            let rest = self@.drop_from(i as int, consumer).1;
                            assert(msg_views(spilled@) =~= had.push(v));
                            assert(had + (seq![v] + rest) =~= had.push(v) + rest);
                        }
                    },
                    None => {},
                }
            } else {
                i = i + 1;
            }
        }
        proof {
            assert(msg_views(spilled@) + Seq::<MessageView>::empty() =~= msg_views(spilled@));
        }
        clients_remove(&mut self.clients, consumer);
        spilled
    }

    /// Begins to close the channel, which can be done once: a second call fails.
    /// Every consumer is marked as closing, and the channel lets go of its
    /// messages. Unless the channel is deleted, they are returned, to be kept
    /// elsewhere: the ready ones first, then those in flight, then the waiting ones.
    pub fn exit(&mut self, deleted: bool) -> (r: Result<Vec<Message>, NsqError>)
        requires
            old(self).inv(),
        ensures
            final(self).inv(),
            final(self)@.name == old(self)@.name,
            final(self)@ == old(self)@.exit(deleted).0,
            match old(self)@.exit(deleted).1 {
                Some(flushed) => r matches Ok(v) && msg_views(v@) == flushed,
                None => r matches Err(NsqError::Exiting),
            },
    {
        proof {
            crate::channel_state::lemma_exit_wf(self@, deleted);
        }
        if self.exit_flag {
            return Err(NsqError::Exiting);
        }
        self.exit_flag = true;
        clients_close_all(&mut self.clients);
        let ghost ready = msg_views(self.buffer@);
        let ghost flying = msg_views(self.in_flight@);
        let mut buffer: VecDeque<Message> = VecDeque::new();
        let mut in_flight: Vec<Message> = Vec::new();
        let mut defered_pq: Vec<MsgItem> = Vec::new();
        std::mem::swap(&mut self.buffer, &mut buffer);
        std::mem::swap(&mut self.in_flight, &mut in_flight);
        std::mem::swap(&mut self.defered_pq, &mut defered_pq);
        proof {
            assert(msg_views(self.buffer@) =~= Seq::<MessageView>::empty());
            assert(msg_views(self.in_flight@) =~= Seq::<MessageView>::empty());
            assert(item_views(self.defered_pq@) =~= Seq::<MessageView>::empty());
        }
        let mut out: Vec<Message> = Vec::new();
        assert(msg_views(out@) =~= Seq::<MessageView>::empty());
        drain_ready(buffer, &mut out);
        out.append(&mut in_flight);
        assert(msg_views(out@) =~= ready + flying);
        drain_waiting(defered_pq, &mut out);
        if deleted {
            let none: Vec<Message> = Vec::new();
            assert(msg_views(none@) =~= Seq::<MessageView>::empty());
            Ok(none)
        } else {
            Ok(out)
        }
    }

    /// Closes the channel for good, keeping its messages: what `exit` returns where
    /// the channel is not closing yet, and nothing where it is.
    pub fn close(&mut self) -> (flushed: Vec<Message>)
        requires
            old(self).inv(),
        ensures
            final(self).inv(),
            final(self)@.name == old(self)@.name,
            final(self)@ == old(self)@.exit(false).0,
            msg_views(flushed@) == match old(self)@.exit(false).1 {
                Some(v) => v,
                None => Seq::empty(),
            },
    {
        match self.exit(false) {
            Ok(v) => v,
            Err(_) => {
                let none: Vec<Message> = Vec::new();
                assert(msg_views(none@) =~= Seq::<MessageView>::empty());
                none
            },
        }
    }

    /// Carries out a command of the subscribed consumer `consumer` at `now`.
    pub fn handle(&mut self, consumer: i64, frame: FrameSub, now: u128) -> (r: Result<
        (),
        NsqError,
    >)
        requires
            old(self).inv(),
        ensures
            final(self).inv(),
            final(self)@.name == old(self)@.name,
            final(self)@ == handle_spec(old(self)@, consumer, frame@, now).0,
            handled_answer(r, handle_spec(old(self)@, consumer, frame@, now).1),
    {
        match frame {
            FrameSub::NOP => Ok(()),
            FrameSub::RDY(count) => self.set_ready(consumer, count),
            FrameSub::FIN(id) => self.finish(id, consumer),
            FrameSub::REQ(id, delay) => self.requeue_at(id, consumer, delay, now),
            FrameSub::TOUCH(id) => self.touch_at(id, consumer, now),
            FrameSub::CLS => self.close_client(consumer),
        }
    }

    /// Takes what the topic sends at `now`: a message is given to the channel; a
    /// notice that messages were missed changes nothing; the end of the topic
    /// closes the channel.
    pub fn serve_at(&mut self, event: TopicEvent, now: u128) -> (action: ServeAction)
        requires
            old(self).inv(),
        ensures
            final(self).inv(),
            final(self)@.name == old(self)@.name,
            served(old(self)@, final(self)@, event, action, now),
    {
        match event {
            TopicEvent::Message(msg) => match self.put_message_at(msg, now) {
                Ok(()) => ServeAction::Continue,
                Err(NsqError::AsyncChannelSendError(back)) => ServeAction::Spill(back),
                Err(e) => ServeAction::Refused(e),
            },
            TopicEvent::Lagged(_) => ServeAction::Continue,
            TopicEvent::Closed => ServeAction::Stop(self.close()),
        }
    }

    /// Takes what the topic sends now, by the system clock.
    pub fn serve(&mut self, event: TopicEvent) -> (action: ServeAction)
        requires
            old(self).inv(),
        ensures
            final(self).inv(),
            final(self)@.name == old(self)@.name,
            exists|now: u128| #[trigger] served(old(self)@, final(self)@, event, action, now),
    {
        let now = clock_now();
        self.serve_at(event, now)
    }
}

/// Moves the messages of `ready` to the end of `out`, in their order.
fn drain_ready(ready: VecDeque<Message>, out: &mut Vec<Message>)
    ensures
        msg_views(final(out)@) == msg_views(old(out)@) + msg_views(ready@),
{
    let mut ready = ready;
    let ghost all = msg_views(ready@);
    let ghost base = msg_views(out@);
    assert(base + all.subrange(0, 0) =~= base);
    while ready.len() > 0
        invariant
            ready@.len() <= all.len(),
            msg_views(ready@) == all.subrange(all.len() - ready@.len(), all.len() as int),
            msg_views(out@) == base + all.subrange(0, all.len() - ready@.len()),
        decreases ready@.len(),
    {
        let ghost had = msg_views(out@);
        let ghost left = msg_views(ready@);
        let ghost k = all.len() - ready@.len();
        match ready.pop_front() {
            Some(m) => {
                assert(m@ == left[0]);
                out.push(m);
                proof {
                    assert(msg_views(out@) =~= had.push(all[k]));
                    assert(left[0] == all[k]);
                    assert forall|j: int| 0 <= j < ready@.len() implies (#[trigger] msg_views(
                        ready@,
                    )[j]) == all[k + 1 + j] by {
                        assert(msg_views(ready@)[j] == left[j + 1]);
                    }
                    assert(msg_views(ready@) =~= all.subrange(k + 1, all.len() as int));
                    assert(base + all.subrange(0, k + 1) =~= (base + all.subrange(0, k)).push(
                        all[k],
                    ));
                }
            },
            None => {},
        }
    }
    proof {
        assert(all.subrange(0, all.len() as int) =~= all);
    }
}

/// Moves the messages of `waiting` to the end of `out`, in their order.
fn drain_waiting(waiting: Vec<MsgItem>, out: &mut Vec<Message>)
    ensures
        msg_views(final(out)@) == msg_views(old(out)@) + item_views(waiting@),
{
    let mut waiting = waiting;
    let ghost all = item_views(waiting@);
    let ghost base = msg_views(out@);
    let mut turned: Vec<Message> = Vec::new();
    while waiting.len() > 0
        invariant
            waiting@.len() + turned@.len() == all.len(),
            item_views(waiting@) == all.subrange(0, waiting@.len() as int),
            forall|j: int|
                0 <= j < turned@.len() ==> (#[trigger] msg_views(turned@)[j]) == all[all.len() - 1
                    - j],
        decreases waiting@.len(),
    {
        let ghost left = item_views(waiting@);
        let ghost t = msg_views(turned@);
        match waiting.pop() {
            Some(item) => {
                assert(item.1@ == left[left.len() - 1]);
                turned.push(item.1);
                proof {
                    assert(item_views(waiting@) =~= all.subrange(0, waiting@.len() as int));
                    assert(msg_views(turned@) =~= t.push(left[left.len() - 1]));
                    assert forall|j: int| 0 <= j < turned@.len() implies (#[trigger] msg_views(
                        turned@,
                    )[j]) == all[all.len() - 1 - j] by {
                        if j < t.len() {
                            assert(msg_views(turned@)[j] == t[j]);
                        }
                    }
                }
            },
            None => {},
        }
    }
    assert(base + all.subrange(0, 0) =~= base);
    while turned.len() > 0
        invariant
            turned@.len() <= all.len(),
            forall|j: int|
                0 <= j < turned@.len() ==> (#[trigger] msg_views(turned@)[j]) == all[all.len() - 1
                    - j],
            msg_views(out@) == base + all.subrange(0, all.len() - turned@.len()),
        decreases turned@.len(),
    {
        let ghost had = msg_views(out@);
        let ghost k = all.len() - turned@.len();
        let ghost t = msg_views(turned@);
        match turned.pop() {
            Some(m) => {
                assert(m@ == t[t.len() - 1]);
                out.push(m);
                proof {
                    assert(msg_views(out@) =~= had.push(all[k]));
                    assert(base + all.subrange(0, k + 1) =~= (base + all.subrange(0, k)).push(
                        all[k],
                    ));
                    assert forall|j: int| 0 <= j < turned@.len() implies (#[trigger] msg_views(
                        turned@,
                    )[j]) == all[all.len() - 1 - j] by {
                        assert(msg_views(turned@)[j] == t[j]);
                    }
                }
            },
            None => {},
        }
    }
    proof {
        assert(all.subrange(0, all.len() as int) =~= all);
    }
}

/// What the system clock reads, in nanoseconds since the epoch; zero where it reads
/// earlier than that. Nothing is known of the reading beforehand; which time a
/// reading stands for is what `nanos_or_epoch` says.
pub(crate) fn clock_now() -> u128 {
    nanos_or_epoch(unix_nanos())
}

/// The time `ms` milliseconds after `now`, where a clock can still show it.
pub fn deadline(now: u128, ms: u64) -> (t: Option<u128>)
    ensures
        t == deadline_after(now, ms),
{
    now.checked_add(ms as u128 * NANOS_PER_MILLI)
}

} // verus!
