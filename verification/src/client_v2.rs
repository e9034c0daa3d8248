use crate::errors::{fatal, fault, Fault, NsqError};
use crate::options::Options;
use vstd::prelude::*;

verus! {

pub const DEFAULT_BUF_SIZE: i32 = 16384;

/// Where a connection stands in its life.
#[derive(Debug, Clone, Copy, PartialEq, Eq, Structural)]
pub enum State {
    Init,
    Disconnected,
    Connected,
    Subscribed,
    Closing,
}

/// What the broker keeps of one connection: its counters and where it stands.
#[derive(Debug)]
pub struct ClientV2 {
    id: i64,
    ready_count: u64,
    in_flight_count: i64,
    message_count: u64,
    finish_count: u64,
    requeue_count: u64,
    pub_counts: Vec<(String, u64)>,
    output_buffer_size: i32,
    output_buffer_timeout: u64,
    heartbeat_interval: u64,
    msg_timeout: u64,
    state: State,
    connect_time: u128,
    client_addr: String,
}

pub struct ClientV2View {
    pub id: i64,
    /// How many more messages the consumer is ready to take.
    pub ready_count: u64,
    /// How many messages the consumer holds unanswered.
    pub in_flight_count: i64,
    pub message_count: u64,
    pub finish_count: u64,
    pub requeue_count: u64,
    /// The topics published to, each with the number of messages.
    pub pub_counts: Seq<(Seq<char>, u64)>,
    pub output_buffer_size: i32,
    pub output_buffer_timeout: u64,
    pub heartbeat_interval: u64,
    pub msg_timeout: u64,
    pub state: State,
    pub connect_time: u128,
    pub client_addr: Seq<char>,
}

/// The number of messages published to `topic`, as `counts` records it.
pub open spec fn count_for(counts: Seq<(Seq<char>, u64)>, topic: Seq<char>) -> u64
    decreases counts.len(),
{
    if counts.len() == 0 {
        0
    } else if counts[0].0 == topic {
        counts[0].1
    } else {
        count_for(counts.subrange(1, counts.len() as int), topic)
    }
}

/// The record with `count` more messages published to `topic`: added to the entry
/// of the topic or, where it has none, put in a new entry at the end.
pub open spec fn bump_count(counts: Seq<(Seq<char>, u64)>, topic: Seq<char>, count: u64) -> Seq<
    (Seq<char>, u64),
>
    decreases counts.len(),
{
    if counts.len() == 0 {
        seq![(topic, count)]
    } else if counts[0].0 == topic {
        counts.update(0, (topic, counts[0].1.wrapping_add(count)))
    } else {
        seq![counts[0]] + bump_count(counts.subrange(1, counts.len() as int), topic, count)
    }
}

/// What each entry of a record of publications is.
pub open spec fn count_views(counts: Seq<(String, u64)>) -> Seq<(Seq<char>, u64)> {
    Seq::new(counts.len(), |i: int| (counts[i].0@, counts[i].1))
}

pub open spec fn bad_state(what: &str) -> Fault {
    fault("E_INVALID", what)
}

impl ClientV2View {
    /// After a message was handed to the consumer: one credit is used up.
    pub open spec fn sent(self) -> Self {
        ClientV2View {
            ready_count: (self.ready_count - 1) as u64,
            in_flight_count: self.in_flight_count.wrapping_add(1),
            message_count: self.message_count.wrapping_add(1),
            ..self
        }
    }

    /// After the consumer acknowledged a message.
    pub open spec fn finished(self) -> Self {
        ClientV2View {
            finish_count: self.finish_count.wrapping_add(1),
            in_flight_count: self.in_flight_count.wrapping_sub(1),
            ..self
        }
    }

    /// After the consumer gave a message back.
    pub open spec fn requeued(self) -> Self {
        ClientV2View {
            requeue_count: self.requeue_count.wrapping_add(1),
            in_flight_count: self.in_flight_count.wrapping_sub(1),
            ..self
        }
    }

    /// After `count` messages were published to `topic`.
    pub open spec fn published(self, topic: Seq<char>, count: u64) -> Self {
        ClientV2View { pub_counts: bump_count(self.pub_counts, topic, count), ..self }
    }

    /// After a message that the consumer held has timed out.
    pub open spec fn timed_out(self) -> Self {
        ClientV2View { in_flight_count: self.in_flight_count.wrapping_sub(1), ..self }
    }

    pub open spec fn closed(self) -> Self {
        ClientV2View { state: State::Closing, ..self }
    }

    /// Whether a message may be handed to the consumer.
    pub open spec fn ready(self) -> bool {
        self.state == State::Subscribed && self.ready_count > 0
    }
}

impl View for ClientV2 {
    type V = ClientV2View;

    closed spec fn view(&self) -> ClientV2View {
        ClientV2View {
            id: self.id,
            ready_count: self.ready_count,
            in_flight_count: self.in_flight_count,
            message_count: self.message_count,
            finish_count: self.finish_count,
            requeue_count: self.requeue_count,
            pub_counts: count_views(self.pub_counts@),
            output_buffer_size: self.output_buffer_size,
            output_buffer_timeout: self.output_buffer_timeout,
            heartbeat_interval: self.heartbeat_interval,
            msg_timeout: self.msg_timeout,
            state: self.state,
            connect_time: self.connect_time,
            client_addr: self.client_addr@,
        }
    }
}

/// What a step of the connection's life comes to: where it is allowed the
/// connection is as `to` says; where it is not, nothing changes and the client is
/// told `what`.
pub open spec fn stepped(
    before: ClientV2,
    after: ClientV2,
    r: Result<(), NsqError>,
    allowed: bool,
    to: ClientV2View,
    what: &str,
) -> bool {
    if allowed {
        &&& r is Ok
        &&& after@ == to
    } else {
        &&& after == before
        &&& r matches Err(e)
        &&& e.is_fault(bad_state(what))
    }
}

/// What a step of a consumer's life comes to, in terms of what the consumer is:
/// where the step is allowed the consumer is as `to` says; where it is not,
/// nothing changes and the client is told `what`.
pub open spec fn stepped_to(
    before: ClientV2View,
    after: ClientV2View,
    r: Result<(), NsqError>,
    allowed: bool,
    to: ClientV2View,
    what: &str,
) -> bool {
    if allowed {
        &&& r is Ok
        &&& after == to
    } else {
        &&& after == before
        &&& r matches Err(e)
        &&& e.is_fault(bad_state(what))
    }
}

impl Clone for ClientV2 {
    /// A second record of the same connection, with the same counters and state.
    fn clone(&self) -> (c: Self)
        ensures
            c@ == self@,
    {
        let mut pub_counts: Vec<(String, u64)> = Vec::new();
        let mut i: usize = 0;
        while i < self.pub_counts.len()
            invariant
                i <= self.pub_counts.len(),
                pub_counts@ == self.pub_counts@.subrange(0, i as int),
            decreases self.pub_counts.len() - i,
        {
            pub_counts.push((self.pub_counts[i].0.clone(), self.pub_counts[i].1));
            assert(pub_counts@ =~= self.pub_counts@.subrange(0, i + 1));
            i = i + 1;
        }
        assert(pub_counts@ =~= self.pub_counts@);
        ClientV2 {
            id: self.id,
            ready_count: self.ready_count,
            in_flight_count: self.in_flight_count,
            message_count: self.message_count,
            finish_count: self.finish_count,
            requeue_count: self.requeue_count,
            pub_counts,
            output_buffer_size: self.output_buffer_size,
            output_buffer_timeout: self.output_buffer_timeout,
            heartbeat_interval: self.heartbeat_interval,
            msg_timeout: self.msg_timeout,
            state: self.state,
            connect_time: self.connect_time,
            client_addr: self.client_addr.clone(),
        }
    }
}

impl ClientV2 {
    /// The state of a connection accepted at `now` from `addr`. A heartbeat is due
    /// every half of the client timeout.
    pub fn new(id: i64, addr: String, opts: &Options, now: u128) -> (c: Self)
        ensures
            c@ == (ClientV2View {
                id,
                ready_count: 0,
                in_flight_count: 0,
                message_count: 0,
                finish_count: 0,
                requeue_count: 0,
                pub_counts: Seq::empty(),
                output_buffer_size: DEFAULT_BUF_SIZE,
                output_buffer_timeout: opts.output_buffer_timeout,
                heartbeat_interval: opts.client_timeout / 2,
                msg_timeout: opts.msg_timeout,
                state: State::Init,
                connect_time: now,
                client_addr: addr@,
            }),
    {
        let c = Self {
            id,
            ready_count: 0,
            in_flight_count: 0,
            message_count: 0,
            finish_count: 0,
            requeue_count: 0,
            pub_counts: Vec::new(),
            output_buffer_size: DEFAULT_BUF_SIZE,
            output_buffer_timeout: opts.output_buffer_timeout,
            heartbeat_interval: opts.client_timeout / 2,
            msg_timeout: opts.msg_timeout,
            state: State::Init,
            connect_time: now,
            client_addr: addr,
        };
        assert(c@.pub_counts =~= Seq::empty());
        c
    }

    pub fn id(&self) -> (id: i64)
        ensures
            id == self@.id,
    {
        self.id
    }

    pub fn addr(&self) -> (a: String)
        ensures
            a@ == self@.client_addr,
    {
        self.client_addr.clone()
    }

    pub fn state(&self) -> (s: State)
        ensures
            s == self@.state,
    {
        self.state
    }

    pub fn ready_count(&self) -> (n: u64)
        ensures
            n == self@.ready_count,
    {
        self.ready_count
    }

    pub fn in_flight_count(&self) -> (n: i64)
        ensures
            n == self@.in_flight_count,
    {
        self.in_flight_count
    }

    pub fn message_count(&self) -> (n: u64)
        ensures
            n == self@.message_count,
    {
        self.message_count
    }

    pub fn finish_count(&self) -> (n: u64)
        ensures
            n == self@.finish_count,
    {
        self.finish_count
    }

    pub fn requeue_count(&self) -> (n: u64)
        ensures
            n == self@.requeue_count,
    {
        self.requeue_count
    }

    pub fn heartbeat_interval(&self) -> (ms: u64)
        ensures
            ms == self@.heartbeat_interval,
    {
        self.heartbeat_interval
    }

    pub fn msg_timeout(&self) -> (ms: u64)
        ensures
            ms == self@.msg_timeout,
    {
        self.msg_timeout
    }

    /// How many bytes are gathered before they are written to the connection.
    pub fn output_buffer_size(&self) -> (n: i32)
        ensures
            n == self@.output_buffer_size,
    {
        self.output_buffer_size
    }

    /// How long bytes are gathered before they are written, in milliseconds.
    pub fn output_buffer_timeout(&self) -> (ms: u64)
        ensures
            ms == self@.output_buffer_timeout,
    {
        self.output_buffer_timeout
    }

    /// When the connection was accepted, in nanoseconds since the epoch.
    pub fn connect_time(&self) -> (t: u128)
        ensures
            t == self@.connect_time,
    {
        self.connect_time
    }

    /// How often `topic` was published to over this connection.
    pub fn pub_count(&self, topic: &str) -> (n: u64)
        ensures
            n == count_for(self@.pub_counts, topic@),
    {
        let wanted = topic.to_owned();
        let ghost all = count_views(self.pub_counts@);
        let mut i: usize = 0;
        assert(all.subrange(0, all.len() as int) =~= all);
        while i < self.pub_counts.len()
            invariant
                i <= self.pub_counts.len(),
                wanted@ == topic@,
                all == count_views(self.pub_counts@),
                count_for(all, topic@) == count_for(
                    all.subrange(i as int, all.len() as int),
                    topic@,
                ),
            decreases self.pub_counts.len() - i,
        {
            let ghost rest = all.subrange(i as int, all.len() as int);
            assert(rest[0] == all[i as int]);
            assert(rest.subrange(1, rest.len() as int) =~= all.subrange(i + 1, all.len() as int));
            if self.pub_counts[i].0 == wanted {
                return self.pub_counts[i].1;
            }
            i = i + 1;
        }
        assert(all.subrange(i as int, all.len() as int).len() == 0);
        0
    }

    /// Whether a message may be handed to the consumer: it has subscribed and has
    /// credit left.
    pub fn is_ready(&self) -> (b: bool)
        ensures
            b == self@.ready(),
    {
        self.state == State::Subscribed && self.ready_count > 0
    }

    /// Records that the consumer acknowledged a message. This is the count alone:
    /// whether the consumer holds the message is for its channel to find, which
    /// counts only where it does.
    pub fn finished_msg(&mut self)
        ensures
            final(self)@ == old(self)@.finished(),
    {
        self.finish_count = self.finish_count.wrapping_add(1);
        self.in_flight_count = self.in_flight_count.wrapping_sub(1);
    }

    /// Records that `count` messages were published to `topic`.
    pub fn published_msg(&mut self, topic: &str, count: u64)
        ensures
            final(self)@ == old(self)@.published(topic@, count),
    {
        let wanted = topic.to_owned();
        let ghost all = count_views(self.pub_counts@);
        let mut i: usize = 0;
        while i < self.pub_counts.len()
            invariant
                i <= self.pub_counts.len(),
                *self == *old(self),
                wanted@ == topic@,
                all == count_views(self.pub_counts@),
                forall|j: int| 0 <= j < i ==> (#[trigger] all[j]).0 != topic@,
            decreases self.pub_counts.len() - i,
        {
            if self.pub_counts[i].0 == wanted {
                let name = self.pub_counts[i].0.clone();
                let n = self.pub_counts[i].1.wrapping_add(count);
                self.pub_counts.set(i, (name, n));
                proof {
                    assert(all[i as int].0 == topic@);
                    assert(count_views(self.pub_counts@) =~= all.update(
                        i as int,
                        (topic@, all[i as int].1.wrapping_add(count)),
                    ));
                    lemma_bump_at(all, i as int, topic@, count);
                }
                return ;
            }
            i = i + 1;
        }
        self.pub_counts.push((wanted, count));
        proof {
            assert(count_views(self.pub_counts@) =~= all.push((topic@, count)));
            lemma_bump_new(all, topic@, count);
        }
    }

    /// Records that the consumer gave a message back.
    pub fn requeue_msg(&mut self)
        ensures
            final(self)@ == old(self)@.requeued(),
    {
        self.requeue_count = self.requeue_count.wrapping_add(1);
        self.in_flight_count = self.in_flight_count.wrapping_sub(1);
    }

    /// Records that a message is handed to the consumer, which uses up one credit.
    /// Without credit nothing may be handed over.
    pub fn sending_msg(&mut self)
        requires
            old(self)@.ready_count > 0,
        ensures
            final(self)@ == old(self)@.sent(),
    {
        self.ready_count = self.ready_count - 1;
        self.in_flight_count = self.in_flight_count.wrapping_add(1);
        self.message_count = self.message_count.wrapping_add(1);
    }

    /// Records that a message that the consumer held has timed out.
    pub fn timed_out_msg(&mut self)
        ensures
            final(self)@ == old(self)@.timed_out(),
    {
        self.in_flight_count = self.in_flight_count.wrapping_sub(1);
    }

    /// Marks the connection as closing; from there it does not come back.
    pub fn close(&mut self)
        ensures
            final(self)@ == old(self)@.closed(),
    {
        self.state = State::Closing;
    }

    /// The handshake: a new connection becomes a connected one. It is optional,
    /// and refused once the connection has gone further.
    pub fn identify(&mut self) -> (r: Result<(), NsqError>)
        ensures
            stepped(
                *old(self),
                *final(self),
                r,
                old(self)@.state == State::Init,
                (ClientV2View { state: State::Connected, ..old(self)@ }),
                "cannot IDENTIFY in current state",
            ),
    {
        match self.state {
            State::Init => {
                self.state = State::Connected;
                Ok(())
            },
            _ => Err(fatal("E_INVALID", "cannot IDENTIFY in current state")),
        }
    }

    /// `SUB`: a new or connected connection becomes a subscribed one. A connection
    /// subscribes once only.
    pub fn subscribe(&mut self) -> (r: Result<(), NsqError>)
        ensures
            stepped(
                *old(self),
                *final(self),
                r,
                old(self)@.state == State::Init || old(self)@.state == State::Connected,
                (ClientV2View { state: State::Subscribed, ..old(self)@ }),
                "cannot SUB in current state",
            ),
    {
        match self.state {
            State::Init | State::Connected => {
                self.state = State::Subscribed;
                Ok(())
            },
            _ => Err(fatal("E_INVALID", "cannot SUB in current state")),
        }
    }

    /// `RDY`: a subscribed consumer states how many more messages it takes; any
    /// count is taken.
    pub fn set_ready(&mut self, count: u64) -> (r: Result<(), NsqError>)
        ensures
            stepped(
                *old(self),
                *final(self),
                r,
                old(self)@.state == State::Subscribed,
                (ClientV2View { ready_count: count, ..old(self)@ }),
                "cannot RDY in current state",
            ),
    {
        if self.state == State::Subscribed {
            self.ready_count = count;
            Ok(())
        } else {
            Err(fatal("E_INVALID", "cannot RDY in current state"))
        }
    }

    /// `CLS`: a subscribed consumer starts to close.
    pub fn start_close(&mut self) -> (r: Result<(), NsqError>)
        ensures
            stepped(
                *old(self),
                *final(self),
                r,
                old(self)@.state == State::Subscribed,
                old(self)@.closed(),
                "cannot CLS in current state",
            ),
    {
        if self.state == State::Subscribed {
            self.state = State::Closing;
            Ok(())
        } else {
            Err(fatal("E_INVALID", "cannot CLS in current state"))
        }
    }
}

/// Where the first entry of `topic` is the `i`-th, `bump_count` updates that one.
proof fn lemma_bump_at(counts: Seq<(Seq<char>, u64)>, i: int, topic: Seq<char>, count: u64)
    requires
        0 <= i < counts.len(),
        counts[i].0 == topic,
        forall|j: int| 0 <= j < i ==> (#[trigger] counts[j]).0 != topic,
    ensures
        bump_count(counts, topic, count) == counts.update(
            i,
            (topic, counts[i].1.wrapping_add(count)),
        ),
    decreases counts.len(),
{
    if i > 0 {
        let rest = counts.subrange(1, counts.len() as int);
        assert(counts[0].0 != topic);
        assert forall|j: int| 0 <= j < i - 1 implies (#[trigger] rest[j]).0 != topic by {
            assert(rest[j] == counts[j + 1]);
        }
        lemma_bump_at(rest, i - 1, topic, count);
        assert(seq![counts[0]] + rest.update(i - 1, (topic, rest[i - 1].1.wrapping_add(count)))
            =~= counts.update(i, (topic, counts[i].1.wrapping_add(count))));
    }
}

/// Where `topic` has no entry, `bump_count` puts one at the end.
proof fn lemma_bump_new(counts: Seq<(Seq<char>, u64)>, topic: Seq<char>, count: u64)
    requires
        forall|j: int| 0 <= j < counts.len() ==> (#[trigger] counts[j]).0 != topic,
    ensures
        bump_count(counts, topic, count) == counts.push((topic, count)),
    decreases counts.len(),
{
    if counts.len() > 0 {
        let rest = counts.subrange(1, counts.len() as int);
        assert(counts[0].0 != topic);
        assert forall|j: int| 0 <= j < rest.len() implies (#[trigger] rest[j]).0 != topic by {
            assert(rest[j] == counts[j + 1]);
        }
        lemma_bump_new(rest, topic, count);
        assert(seq![counts[0]] + rest.push((topic, count)) =~= counts.push((topic, count)));
    } else {
        assert(seq![(topic, count)] =~= counts.push((topic, count)));
    }
}

/// Publications are counted by topic: `count` more for the topic published to,
/// and as many as before for every other.
pub proof fn law_publications_counted(
    counts: Seq<(Seq<char>, u64)>,
    topic: Seq<char>,
    count: u64,
    other: Seq<char>,
)
    ensures
        count_for(bump_count(counts, topic, count), topic) == count_for(
            counts,
            topic,
        ).wrapping_add(count),
        other != topic ==> count_for(bump_count(counts, topic, count), other) == count_for(
            counts,
            other,
        ),
    decreases counts.len(),
{
    if counts.len() == 0 {
        let one = seq![(topic, count)];
        assert(one.subrange(1, 1).len() == 0);
        assert(0u64.wrapping_add(count) == count);
        assert(count_for(one, topic) == count);
        if other != topic {
            assert(count_for(one.subrange(1, 1), other) == 0);
            assert(count_for(one, other) == 0);
        }
    } else if counts[0].0 == topic {
        let up = counts.update(0, (topic, counts[0].1.wrapping_add(count)));
        assert(up.subrange(1, up.len() as int) =~= counts.subrange(1, counts.len() as int));
        assert(up[0].0 == topic);
    } else {
        let rest = counts.subrange(1, counts.len() as int);
        law_publications_counted(rest, topic, count, other);
        let up = seq![counts[0]] + bump_count(rest, topic, count);
        assert(up.subrange(1, up.len() as int) =~= bump_count(rest, topic, count));
        assert(up[0] == counts[0]);
    }
}

/// A connection that has subscribed to a channel.
#[derive(Debug)]
pub struct SubscriberV2 {
    client: ClientV2,
}

impl View for SubscriberV2 {
    type V = ClientV2View;

    closed spec fn view(&self) -> ClientV2View {
        self.client@
    }
}

/// A connection, before or after it has subscribed.
#[derive(Debug)]
pub enum Client {
    V2(ClientV2),
    SubV2(SubscriberV2),
}

impl View for Client {
    type V = ClientV2View;

    open spec fn view(&self) -> ClientV2View {
        match *self {
            Client::V2(c) => c@,
            Client::SubV2(c) => c@,
        }
    }
}

impl SubscriberV2 {
    /// The subscriber that the connection `c` becomes; its counters stay.
    pub fn new(c: Client) -> (s: Self)
        ensures
            s@ == c@,
    {
        match c {
            Client::V2(client) => SubscriberV2 { client },
            Client::SubV2(s) => s,
        }
    }

    pub fn id(&self) -> (id: i64)
        ensures
            id == self@.id,
    {
        self.client.id()
    }

    pub fn close(&mut self)
        ensures
            final(self)@ == old(self)@.closed(),
    {
        self.client.close()
    }

    /// The state of the connection.
    pub fn client(&self) -> (c: &ClientV2)
        ensures
            c@ == self@,
    {
        &self.client
    }

    /// Whether a message may be handed to the consumer.
    pub fn is_ready(&self) -> (b: bool)
        ensures
            b == self@.ready(),
    {
        self.client.is_ready()
    }

    pub fn sending_msg(&mut self)
        requires
            old(self)@.ready_count > 0,
        ensures
            final(self)@ == old(self)@.sent(),
    {
        self.client.sending_msg()
    }

    pub fn finished_msg(&mut self)
        ensures
            final(self)@ == old(self)@.finished(),
    {
        self.client.finished_msg()
    }

    pub fn requeue_msg(&mut self)
        ensures
            final(self)@ == old(self)@.requeued(),
    {
        self.client.requeue_msg()
    }

    pub fn timed_out_msg(&mut self)
        ensures
            final(self)@ == old(self)@.timed_out(),
    {
        self.client.timed_out_msg()
    }

    /// `RDY`: the consumer states how many more messages it takes.
    pub fn set_ready(&mut self, count: u64) -> (r: Result<(), NsqError>)
        ensures
            stepped_to(
                old(self)@,
                final(self)@,
                r,
                old(self)@.state == State::Subscribed,
                (ClientV2View { ready_count: count, ..old(self)@ }),
                "cannot RDY in current state",
            ),
    {
        self.client.set_ready(count)
    }

    /// `CLS`: the consumer starts to close.
    pub fn start_close(&mut self) -> (r: Result<(), NsqError>)
        ensures
            stepped_to(
                old(self)@,
                final(self)@,
                r,
                old(self)@.state == State::Subscribed,
                old(self)@.closed(),
                "cannot CLS in current state",
            ),
    {
        self.client.start_close()
    }
}

impl Client {
    pub fn id(&self) -> (id: i64)
        ensures
            id == self@.id,
    {
        match self {
            Client::V2(c) => c.id(),
            Client::SubV2(c) => c.id(),
        }
    }

    /// Marks the connection as closing.
    pub fn close(&mut self)
        ensures
            final(self)@ == old(self)@.closed(),
    {
        match self {
            Client::V2(c) => c.close(),
            Client::SubV2(c) => c.close(),
        }
    }

    /// Whether a message may be handed to the consumer.
    pub fn is_ready(&self) -> (b: bool)
        ensures
            b == self@.ready(),
    {
        match self {
            Client::V2(c) => c.is_ready(),
            Client::SubV2(c) => c.is_ready(),
        }
    }

    pub fn sending_msg(&mut self)
        requires
            old(self)@.ready_count > 0,
        ensures
            final(self)@ == old(self)@.sent(),
    {
        match self {
            Client::V2(c) => c.sending_msg(),
            Client::SubV2(c) => c.sending_msg(),
        }
    }

    pub fn finished_msg(&mut self)
        ensures
            final(self)@ == old(self)@.finished(),
    {
        match self {
            Client::V2(c) => c.finished_msg(),
            Client::SubV2(c) => c.finished_msg(),
        }
    }

    pub fn requeue_msg(&mut self)
        ensures
            final(self)@ == old(self)@.requeued(),
    {
        match self {
            Client::V2(c) => c.requeue_msg(),
            Client::SubV2(c) => c.requeue_msg(),
        }
    }

    pub fn timed_out_msg(&mut self)
        ensures
            final(self)@ == old(self)@.timed_out(),
    {
        match self {
            Client::V2(c) => c.timed_out_msg(),
            Client::SubV2(c) => c.timed_out_msg(),
        }
    }

    /// `RDY`: the consumer states how many more messages it takes.
    pub fn set_ready(&mut self, count: u64) -> (r: Result<(), NsqError>)
        ensures
            stepped_to(
                old(self)@,
                final(self)@,
                r,
                old(self)@.state == State::Subscribed,
                (ClientV2View { ready_count: count, ..old(self)@ }),
                "cannot RDY in current state",
            ),
    {
        match self {
            Client::V2(c) => c.set_ready(count),
            Client::SubV2(c) => c.set_ready(count),
        }
    }

    /// `CLS`: the consumer starts to close.
    pub fn start_close(&mut self) -> (r: Result<(), NsqError>)
        ensures
            stepped_to(
                old(self)@,
                final(self)@,
                r,
                old(self)@.state == State::Subscribed,
                old(self)@.closed(),
                "cannot CLS in current state",
            ),
    {
        match self {
            Client::V2(c) => c.start_close(),
            Client::SubV2(c) => c.start_close(),
        }
    }

    /// The same connection, marked as closing.
    pub fn closed(self) -> (c: Self)
        ensures
            c@ == self@.closed(),
    {
        let mut c = self;
        c.close();
        c
    }
}

} // verus!
