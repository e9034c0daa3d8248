use crate::channel::{add_answer, handled_answer, Channel, Handled};
use crate::channel_state::AddRefusal;
use crate::client_v2::{Client, ClientV2View};
use crate::errors::{fatal, fault, Fault, NsqError};
use bytes::Bytes;
use crate::buf::bytes_seq;
use crate::clock::unix_nanos;
use crate::endian::u64_be;
use crate::guid::{guid_to_hex, hex_lower, GuidError, GuidFactory, GuidView};
use crate::message::{msg_views, Message, MessageView};
use crate::options::Options;
use crate::protocol::frame_v2::{FrameSub, FrameSubView, TopicName};
use crate::topic::{lists, published, swept, SweepingView, Topic, TopicView};
use dashmap::DashMap;
use vstd::prelude::*;

verus! {

/// The topics of a broker, by their names.
pub type TopicMap = DashMap<String, Topic>;

/// The topics that a map holds, each under its name.
pub uninterp spec fn topics_map(m: TopicMap) -> Map<Seq<char>, Topic>;

/// No topics at all.
pub open spec fn no_topics() -> Map<Seq<char>, Topic> {
    Map::empty()
}

/// `DashMap::new`: a map that holds nothing.
#[verifier::external_body]
fn topics_new() -> (m: TopicMap)
    ensures
        topics_map(m) == no_topics(),
{
    DashMap::new()
}

/// `DashMap::contains_key`: whether the map holds an entry under `name`.
#[verifier::external_body]
fn topics_contains_key(m: &TopicMap, name: &str) -> (b: bool)
    ensures
        b == topics_map(*m).contains_key(name@),
{
    m.contains_key(name)
}

/// `DashMap::insert`: puts `t` under `name`, in place of what was there, if
/// anything was, which is returned.
#[verifier::external_body]
fn topics_insert(m: &mut TopicMap, name: String, t: Topic) -> (was: Option<Topic>)
    ensures
        topics_map(*final(m)) == topics_map(*old(m)).insert(name@, t),
        was is Some <==> topics_map(*old(m)).contains_key(name@),
        was matches Some(w) ==> w == topics_map(*old(m))[name@],
{
    m.insert(name, t)
}

/// `DashMap::remove`: takes the entry under `name` out, if there is one, and
/// returns it.
#[verifier::external_body]
fn topics_remove(m: &mut TopicMap, name: &str) -> (was: Option<(String, Topic)>)
    ensures
        topics_map(*final(m)) == topics_map(*old(m)).remove(name@),
        was is Some <==> topics_map(*old(m)).contains_key(name@),
        was matches Some(w) ==> w.0@ == name@ && w.1 == topics_map(*old(m))[name@],
{
    m.remove(name)
}

/// `DashMap::iter`, with the key of each entry copied out: the names under which
/// the map holds entries, each once, in no order to rely on.
#[verifier::external_body]
fn topics_keys(m: &TopicMap) -> (names: Vec<String>)
    ensures
        lists(names@, topics_map(*m).dom()),
{
    m.iter().map(|e| e.key().clone()).collect()
}

/// The broker: the topics, and what is needed to name connections and messages.
pub struct NSQD {
    client_id_seq: i64,
    is_exiting: bool,
    start_time: u128,
    topic_map: TopicMap,
    opts: Options,
    guid: GuidFactory,
}

/// What a broker tells about a channel or a topic that it made or dropped.
pub enum NotifyType {
    Channel(Channel),
    Topic(Topic),
}

pub struct NsqdView {
    /// The topics, by their names.
    pub topics: Map<Seq<char>, TopicView>,
    /// Whether the broker has been stopped.
    pub exiting: bool,
    /// The identifier given to the last connection.
    pub client_id_seq: i64,
    /// When the broker was started, in nanoseconds since the epoch.
    pub start_time: u128,
    pub opts: Options,
}

/// A topic as it is made when its name is first used.
pub open spec fn fresh_topic(name: Seq<char>, opts: Options) -> TopicView {
    TopicView { name, channels: Map::empty(), exiting: false, opts }
}

pub open spec fn unknown_topic() -> Fault {
    fault("E_INVALID", "unknown topic")
}

impl NsqdView {
    /// Every topic is in good order, is held under its own name and makes its
    /// channels with the broker's settings.
    pub open spec fn wf(self) -> bool {
        forall|k: Seq<char>| #[trigger]
            self.topics.contains_key(k) ==> self.topics[k].wf() && self.topics[k].name == k
                && self.topics[k].opts == self.opts
    }

    /// The topic `name`, as it is or as it is made when there is none.
    pub open spec fn topic_or_new(self, name: Seq<char>) -> TopicView {
        if self.topics.contains_key(name) {
            self.topics[name]
        } else {
            fresh_topic(name, self.opts)
        }
    }

    /// A message is published to the topic `topic` at `now`. The topic is made if
    /// there is none of that name. A stopped broker takes nothing.
    pub open spec fn publish(self, topic: Seq<char>, m: MessageView, now: u128) -> NsqdView {
        if self.exiting {
            self
        } else {
            NsqdView {
                topics: self.topics.insert(topic, self.topic_or_new(topic).put(m, now)),
                ..self
            }
        }
    }

    /// A consumer subscribes to the channel `channel` of the topic `topic`. Topic
    /// and channel are made if there are none of these names. A stopped broker
    /// refuses.
    pub open spec fn subscribe(self, topic: Seq<char>, channel: Seq<char>, c: ClientV2View) -> (
        NsqdView,
        Result<(), AddRefusal>,
    ) {
        if self.exiting {
            (self, Err(AddRefusal::Exiting))
        } else {
            let step = self.topic_or_new(topic).subscribe(channel, c);
            (NsqdView { topics: self.topics.insert(topic, step.0), ..self }, step.1)
        }
    }

    /// A consumer of a channel sends a command at `now`. The second part of the
    /// result is `None` where there is no such topic or no such channel.
    pub open spec fn handle(
        self,
        topic: Seq<char>,
        channel: Seq<char>,
        consumer: i64,
        frame: FrameSubView,
        now: u128,
    ) -> (NsqdView, Option<Handled>) {
        if self.topics.contains_key(topic) {
            let step = self.topics[topic].handle(channel, consumer, frame, now);
            (NsqdView { topics: self.topics.insert(topic, step.0), ..self }, step.1)
        } else {
            (self, None)
        }
    }

    /// A consumer of a channel asks for a message at `now`.
    pub open spec fn pop(self, topic: Seq<char>, channel: Seq<char>, consumer: i64, now: u128) -> (
        NsqdView,
        Option<MessageView>,
    ) {
        if self.topics.contains_key(topic) {
            let step = self.topics[topic].pop(channel, consumer, now);
            (NsqdView { topics: self.topics.insert(topic, step.0), ..self }, step.1)
        } else {
            (self, None)
        }
    }

    /// A consumer leaves its channel. The second part of the result holds the
    /// released messages that the channel could not take back.
    pub open spec fn remove_client(self, topic: Seq<char>, channel: Seq<char>, consumer: i64) -> (
        NsqdView,
        Seq<MessageView>,
    ) {
        if self.topics.contains_key(topic) {
            let step = self.topics[topic].remove_client(channel, consumer);
            (NsqdView { topics: self.topics.insert(topic, step.0), ..self }, step.1)
        } else {
            (self, Seq::empty())
        }
    }

    /// The timeout sweep of every channel of the topic `topic` at `now`.
    pub open spec fn sweep(self, topic: Seq<char>, now: u128) -> NsqdView {
        if self.topics.contains_key(topic) {
            NsqdView { topics: self.topics.insert(topic, self.topics[topic].sweep(now)), ..self }
        } else {
            self
        }
    }

    /// The broker is stopped: every topic is closed.
    pub open spec fn stop(self) -> NsqdView {
        NsqdView {
            exiting: true,
            topics: self.topics.map_values(|t: TopicView| t.close()),
            ..self
        }
    }
}

/// What publishing `msg` to the topic `topic` at `now` comes to: the broker is as
/// `publish` has it; a stopped broker answers that it is closing; any other gives
/// the answer of the topic.
pub open spec fn sent(
    before: NsqdView,
    after: NsqdView,
    r: Result<Vec<(String, Vec<Message>)>, NsqError>,
    topic: Seq<char>,
    msg: MessageView,
    now: u128,
) -> bool {
    &&& after == before.publish(topic, msg, now)
    &&& if before.exiting {
        r matches Err(NsqError::Exiting)
    } else {
        published(before.topic_or_new(topic), after.topics[topic], r, msg, now)
    }
}

/// What making a message of `body` at the clock reading `nanos` comes to.
pub open spec fn created(
    before: GuidView,
    after: GuidView,
    r: Result<Message, GuidError>,
    body: Seq<u8>,
    nanos: u128,
) -> bool {
    &&& after == before.issue(nanos).0
    &&& match before.issue(nanos).1 {
        Ok(id) => r matches Ok(m) && m@ == MessageView::fresh(
            hex_lower(u64_be(id as u64)),
            body,
            nanos as u64,
            0,
        ),
        Err(e) => r == Err::<Message, GuidError>(e),
    }
}

/// Whether `out` holds, for every topic of `before` once, what its channels held
/// when it was closed.
pub open spec fn flushed(
    out: Seq<(String, Vec<(String, Vec<Message>)>)>,
    before: Map<Seq<char>, TopicView>,
) -> bool {
    &&& forall|i: int, j: int|
        0 <= i < j < out.len() ==> (#[trigger] out[i]).0@ != (#[trigger] out[j]).0@
    &&& forall|i: int|
        0 <= i < out.len() ==> before.contains_key((#[trigger] out[i]).0@) && swept(
            out[i].1@,
            before[out[i].0@].channels,
            SweepingView::Close,
            0,
        )
    &&& forall|k: Seq<char>|
        before.contains_key(k) ==> exists|i: int| 0 <= i < out.len() && (#[trigger] out[i]).0@ == k
}

impl View for NSQD {
    type V = NsqdView;

    closed spec fn view(&self) -> NsqdView {
        NsqdView {
            topics: topics_map(self.topic_map).map_values(|t: Topic| t@),
            exiting: self.is_exiting,
            client_id_seq: self.client_id_seq,
            start_time: self.start_time,
            opts: self.opts,
        }
    }
}

impl NSQD {
    /// Every topic is in good order, is held under its own name and makes its
    /// channels with the broker's settings; so is the source of identifiers.
    pub closed spec fn inv(&self) -> bool {
        &&& self.guid@.wf()
        &&& forall|k: Seq<char>| #[trigger]
            topics_map(self.topic_map).contains_key(k) ==> topics_map(self.topic_map)[k].inv()
                && topics_map(self.topic_map)[k]@.name == k && topics_map(self.topic_map)[k]@.opts
                == self.opts
    }

    /// A broker in good order shows a state in good order.
    pub proof fn lemma_inv(&self)
        requires
            self.inv(),
        ensures
            self@.wf(),
    {
        assert forall|k: Seq<char>| #[trigger]
            self@.topics.contains_key(k) implies self@.topics[k].wf() && self@.topics[k].name
            == k && self@.topics[k].opts == self@.opts by {
            assert(topics_map(self.topic_map).contains_key(k));
            topics_map(self.topic_map)[k].lemma_inv();
        }
    }

    /// A broker without topics, started at `now`.
    pub fn new(opts: Options, now: u128) -> (n: Self)
        ensures
            n.inv(),
            n@ == (NsqdView {
                topics: Map::empty(),
                exiting: false,
                client_id_seq: 0,
                start_time: now,
                opts,
            }),
    {
        let n = NSQD {
            client_id_seq: 0,
            is_exiting: false,
            start_time: now,
            topic_map: topics_new(),
            opts,
            guid: GuidFactory::new(opts.id as i64),
        };
        assert(n@.topics =~= Map::empty());
        n
    }

    pub fn get_opts(&self) -> (o: &Options)
        ensures
            *o == self@.opts,
    {
        &self.opts
    }

    pub fn exiting(&self) -> (b: bool)
        ensures
            b == self@.exiting,
    {
        self.is_exiting
    }

    /// When the broker was started, in nanoseconds since the epoch.
    pub fn start_time(&self) -> (t: u128)
        ensures
            t == self@.start_time,
    {
        self.start_time
    }

    /// The identifier for the next connection: one more than the last.
    pub fn next_client_id(&mut self) -> (id: i64)
        requires
            old(self).inv(),
        ensures
            final(self).inv(),
            final(self).guid_state() == old(self).guid_state(),
            id == old(self)@.client_id_seq.wrapping_add(1),
            final(self)@ == (NsqdView { client_id_seq: id, ..old(self)@ }),
    {
        self.client_id_seq = self.client_id_seq.wrapping_add(1);
        self.client_id_seq
    }

    /// What the source of message identifiers remembers.
    pub closed spec fn guid_state(&self) -> GuidView {
        self.guid@
    }

    /// Makes a message of `body`, published at `nanos` by the clock: it gets the
    /// next identifier, in hexadecimal, and `nanos` as its timestamp, cut to 64
    /// bits. Where no identifier can be issued, the reason is returned.
    pub fn create_message_at(&mut self, body: Bytes, nanos: u128) -> (r: Result<Message, GuidError>)
        requires
            old(self).inv(),
        ensures
            final(self).inv(),
            final(self)@ == old(self)@,
            created(old(self).guid_state(), final(self).guid_state(), r, bytes_seq(body), nanos),
    {
        match self.guid.next_guid_at(nanos) {
            Ok(id) => Ok(
                Message::new_at(guid_to_hex(id), body, #[verifier::truncate] (nanos as u64)),
            ),
            Err(e) => Err(e),
        }
    }

    /// Makes a message of `body`, published now by the system clock.
    pub fn create_message(&mut self, body: Bytes) -> (r: Result<Message, GuidError>)
        requires
            old(self).inv(),
        ensures
            final(self).inv(),
            final(self)@ == old(self)@,
            (r == Err::<Message, GuidError>(GuidError::TimeBackwards) && final(self).guid_state()
                == old(self).guid_state()) || exists|nanos: u128| #[trigger]
                created(
                    old(self).guid_state(),
                    final(self).guid_state(),
                    r,
                    bytes_seq(body),
                    nanos,
                ),
    {
        match unix_nanos() {
            Some(nanos) => self.create_message_at(body, nanos),
            None => Err(GuidError::TimeBackwards),
        }
    }

    /// Whether the broker has a topic of this name.
    pub fn has_topic(&self, name: &str) -> (b: bool)
        ensures
            b == self@.topics.contains_key(name@),
    {
        topics_contains_key(&self.topic_map, name)
    }

    /// Whether the topic `topic` has a channel `channel`.
    pub fn has_channel(&mut self, topic: &str, channel: &str) -> (b: bool)
        requires
            old(self).inv(),
        ensures
            final(self).inv(),
            final(self).guid_state() == old(self).guid_state(),
            final(self)@ == old(self)@,
            b == (old(self)@.topics.contains_key(topic@)
                && old(self)@.topics[topic@].channels.contains_key(channel@)),
    {
        let ghost held = topics_map(self.topic_map);
        match self.take(topic) {
            Some(tp) => {
                let b = tp.has_channel(channel);
                self.put_back(tp);
                assert(topics_map(self.topic_map) =~= held);
                b
            },
            None => {
                assert(topics_map(self.topic_map) =~= held);
                false
            },
        }
    }

    /// The names of the topics, each once, in no order to rely on.
    pub fn topic_names(&self) -> (names: Vec<String>)
        ensures
            lists(names@, self@.topics.dom()),
    {
        let names = topics_keys(&self.topic_map);
        assert(self@.topics.dom() =~= topics_map(self.topic_map).dom());
        names
    }

    /// Takes the topic `name` out of the broker.
    fn take(&mut self, name: &str) -> (t: Option<Topic>)
        requires
            old(self).inv(),
        ensures
            final(self).inv(),
            final(self).client_id_seq == old(self).client_id_seq,
            final(self).is_exiting == old(self).is_exiting,
            final(self).opts == old(self).opts,
            final(self).guid == old(self).guid,
            final(self).start_time == old(self).start_time,
            topics_map(final(self).topic_map) == topics_map(old(self).topic_map).remove(name@),
            t is Some <==> old(self)@.topics.contains_key(name@),
            t matches Some(tp) ==> tp == topics_map(old(self).topic_map)[name@] && tp.inv()
                && tp@.name == name@ && tp@.opts == old(self).opts,
    {
        match topics_remove(&mut self.topic_map, name) {
            Some(entry) => Some(entry.1),
            None => None,
        }
    }

    /// Puts a topic into the broker, under its name.
    fn put_back(&mut self, t: Topic)
        requires
            old(self).inv(),
            t.inv(),
            t@.opts == old(self).opts,
        ensures
            final(self).inv(),
            final(self).client_id_seq == old(self).client_id_seq,
            final(self).is_exiting == old(self).is_exiting,
            final(self).opts == old(self).opts,
            final(self).guid == old(self).guid,
            final(self).start_time == old(self).start_time,
            topics_map(final(self).topic_map) == topics_map(old(self).topic_map).insert(
                t@.name,
                t,
            ),
    {
        let name = t.name().clone();
        topics_insert(&mut self.topic_map, name, t);
    }

    /// Takes the topic `name` out of the broker, or makes it.
    fn take_or_new(&mut self, name: &String) -> (t: Topic)
        requires
            old(self).inv(),
        ensures
            final(self).inv(),
            final(self).client_id_seq == old(self).client_id_seq,
            final(self).is_exiting == old(self).is_exiting,
            final(self).opts == old(self).opts,
            final(self).guid == old(self).guid,
            final(self).start_time == old(self).start_time,
            topics_map(final(self).topic_map) == topics_map(old(self).topic_map).remove(name@),
            t.inv(),
            t@ == old(self)@.topic_or_new(name@),
    {
        match self.take(name.as_str()) {
            Some(t) => t,
            None => Topic::new(name.clone(), self.opts),
        }
    }

    /// Publishes a message to the topic `topic_name` at `now`. The topic is made
    /// if there is none of that name. A stopped broker refuses. Otherwise the
    /// answer is that of the topic.
    pub fn publish_msg_at(&mut self, topic_name: TopicName, msg: Message, now: u128) -> (r: Result<
        Vec<(String, Vec<Message>)>,
        NsqError,
    >)
        requires
            old(self).inv(),
        ensures
            final(self).inv(),
            final(self).guid_state() == old(self).guid_state(),
            sent(old(self)@, final(self)@, r, topic_name@, msg@, now),
    {
        if self.is_exiting {
            return Err(NsqError::Exiting);
        }
        let mut tp = self.take_or_new(&topic_name);
        let r = tp.put_msg_at(msg, now);
        self.put_back(tp);
        assert(self@.topics =~= old(self)@.topics.insert(topic_name@, tp@));
        r
    }

    /// Publishes a message to the topic `topic_name` now, by the system clock.
    pub fn publish_msg(&mut self, topic_name: TopicName, msg: Message) -> (r: Result<
        Vec<(String, Vec<Message>)>,
        NsqError,
    >)
        requires
            old(self).inv(),
        ensures
            final(self).inv(),
            final(self).guid_state() == old(self).guid_state(),
            exists|now: u128| #[trigger] sent(old(self)@, final(self)@, r, topic_name@, msg@, now),
    {
        let now = crate::channel::clock_now();
        self.publish_msg_at(topic_name, msg, now)
    }

    /// Subscribes `client` to the channel `channel` of the topic `topic`. Topic
    /// and channel are made if there are none of these names. A stopped broker
    /// refuses.
    pub fn subscribe(&mut self, topic: String, channel: String, client: Client) -> (r: Result<
        (),
        NsqError,
    >)
        requires
            old(self).inv(),
        ensures
            final(self).inv(),
            final(self).guid_state() == old(self).guid_state(),
            final(self)@ == old(self)@.subscribe(topic@, channel@, client@).0,
            add_answer(r, old(self)@.subscribe(topic@, channel@, client@).1),
    {
        if self.is_exiting {
            return Err(NsqError::Exiting);
        }
        let mut tp = self.take_or_new(&topic);
        let r = tp.subscribe(channel, client);
        self.put_back(tp);
        assert(self@.topics =~= old(self)@.topics.insert(topic@, tp@));
        r
    }

    /// Carries out a command of the consumer `consumer` of the channel `channel` of
    /// the topic `topic` at `now`. Where there is no such topic or no such channel,
    /// the consumer is told so.
    pub fn handle(
        &mut self,
        topic: &str,
        channel: &str,
        consumer: i64,
        frame: FrameSub,
        now: u128,
    ) -> (r: Result<(), NsqError>)
        requires
            old(self).inv(),
        ensures
            final(self).inv(),
            final(self).guid_state() == old(self).guid_state(),
            final(self)@ == old(self)@.handle(topic@, channel@, consumer, frame@, now).0,
            match old(self)@.handle(topic@, channel@, consumer, frame@, now).1 {
                Some(out) => handled_answer(r, out),
                None => r matches Err(e) && e.is_fault(
                    if old(self)@.topics.contains_key(topic@) {
                        crate::topic::unknown_channel()
                    } else {
                        unknown_topic()
                    },
                ),
            },
    {
        let ghost held = topics_map(self.topic_map);
        match self.take(topic) {
            Some(tp) => {
                let mut tp = tp;
                let r = tp.handle(channel, consumer, frame, now);
                self.put_back(tp);
                assert(self@.topics =~= old(self)@.topics.insert(topic@, tp@));
                r
            },
            None => {
                assert(topics_map(self.topic_map) =~= held);
                Err(fatal("E_INVALID", "unknown topic"))
            },
        }
    }

    /// Hands the next ready message of the channel to `consumer` at `now`, as the
    /// channel does. Where there is no such topic or channel, nothing is handed out.
    pub fn pop_ready_message_at(&mut self, topic: &str, channel: &str, consumer: i64, now: u128)
        -> (r: Option<Message>)
        requires
            old(self).inv(),
        ensures
            final(self).inv(),
            final(self).guid_state() == old(self).guid_state(),
            final(self)@ == old(self)@.pop(topic@, channel@, consumer, now).0,
            match old(self)@.pop(topic@, channel@, consumer, now).1 {
                Some(v) => r matches Some(m) && m@ == v,
                None => r is None,
            },
    {
        let ghost held = topics_map(self.topic_map);
        match self.take(topic) {
            Some(tp) => {
                let mut tp = tp;
                let r = tp.pop_ready_message_at(channel, consumer, now);
                self.put_back(tp);
                assert(self@.topics =~= old(self)@.topics.insert(topic@, tp@));
                r
            },
            None => {
                assert(topics_map(self.topic_map) =~= held);
                None
            },
        }
    }

    /// The consumer `consumer` leaves its channel: what it holds in flight is
    /// released. The result holds the released messages that the channel could not
    /// take back for want of room.
    pub fn remove_client(&mut self, topic: &str, channel: &str, consumer: i64) -> (spilled: Vec<
        Message,
    >)
        requires
            old(self).inv(),
        ensures
            final(self).inv(),
            final(self).guid_state() == old(self).guid_state(),
            final(self)@ == old(self)@.remove_client(topic@, channel@, consumer).0,
            msg_views(spilled@) == old(self)@.remove_client(topic@, channel@, consumer).1,
    {
        let ghost held = topics_map(self.topic_map);
        match self.take(topic) {
            Some(tp) => {
                let mut tp = tp;
                let spilled = tp.remove_client(channel, consumer);
                self.put_back(tp);
                assert(self@.topics =~= old(self)@.topics.insert(topic@, tp@));
                spilled
            },
            None => {
                assert(topics_map(self.topic_map) =~= held);
                let none: Vec<Message> = Vec::new();
                assert(msg_views(none@) =~= Seq::<MessageView>::empty());
                none
            },
        }
    }

    /// The timeout sweep of every channel of the topic `topic` at `now`. For each
    /// channel the result holds the released messages that it could not take back.
    pub fn sweep_at(&mut self, topic: &str, now: u128) -> (out: Vec<(String, Vec<Message>)>)
        requires
            old(self).inv(),
        ensures
            final(self).inv(),
            final(self).guid_state() == old(self).guid_state(),
            final(self)@ == old(self)@.sweep(topic@, now),
            old(self)@.topics.contains_key(topic@) ==> swept(
                out@,
                old(self)@.topics[topic@].channels,
                SweepingView::Timeouts,
                now,
            ),
            !old(self)@.topics.contains_key(topic@) ==> out@.len() == 0,
    {
        let ghost held = topics_map(self.topic_map);
        match self.take(topic) {
            Some(tp) => {
                let mut tp = tp;
                let out = tp.sweep_at(now);
                self.put_back(tp);
                assert(self@.topics =~= old(self)@.topics.insert(topic@, tp@));
                out
            },
            None => {
                assert(topics_map(self.topic_map) =~= held);
                Vec::new()
            },
        }
    }

    /// Stops the broker: it takes nothing further, and every topic is closed. For
    /// each topic and each of its channels the result holds the messages that the
    /// channel held, to be kept elsewhere.
    pub fn stop(&mut self) -> (out: Vec<(String, Vec<(String, Vec<Message>)>)>)
        requires
            old(self).inv(),
        ensures
            final(self).inv(),
            final(self).guid_state() == old(self).guid_state(),
            final(self)@ == old(self)@.stop(),
            flushed(out@, old(self)@.topics),
    {
        self.is_exiting = true;
        let names = topics_keys(&self.topic_map);
        let ghost before = topics_map(self.topic_map);
        let mut out: Vec<(String, Vec<(String, Vec<Message>)>)> = Vec::new();
        let mut i: usize = 0;
        while i < names.len()
            invariant
                i <= names.len(),
                lists(names@, before.dom()),
                before == topics_map(old(self).topic_map),
                self.inv(),
                self.client_id_seq == old(self).client_id_seq,
                self.is_exiting,
                self.opts == old(self).opts,
                self.guid == old(self).guid,
                self.start_time == old(self).start_time,
                topics_map(self.topic_map).dom() == before.dom(),
                forall|j: int|
                    0 <= j < i ==> topics_map(self.topic_map)[(#[trigger] names@[j])@]@
                        == before[names@[j]@]@.close(),
                forall|j: int|
                    i <= j < names.len() ==> topics_map(self.topic_map)[(#[trigger] names@[j])@]
                        == before[names@[j]@],
                out@.len() == i,
                forall|j: int|
                    0 <= j < i ==> (#[trigger] out@[j]).0@ == names@[j]@ && swept(
                        out@[j].1@,
                        before[names@[j]@]@.channels,
                        SweepingView::Close,
                        0,
                    ),
            decreases names.len() - i,
        {
            let name = names[i].clone();
            let ghost cur = topics_map(self.topic_map);
            assert(before.dom().contains(names@[i as int]@));
            assert(cur[names@[i as int]@] == before[names@[i as int]@]);
            match self.take(name.as_str()) {
                Some(tp) => {
                    let mut tp = tp;
                    let left = tp.close();
                    self.put_back(tp);
                    proof {
                        let after = topics_map(self.topic_map);
                        assert(tp@.name == names@[i as int]@);
                        assert(after.dom() =~= before.dom());
                        assert forall|j: int| 0 <= j < i implies after[(#[trigger] names@[j])@]@
                            == before[names@[j]@]@.close() by {
                            assert(names@[j]@ != names@[i as int]@);
                        }
                        assert forall|j: int| i + 1 <= j < names.len() implies after[(
                        #[trigger] names@[j])@] == before[names@[j]@] by {
                            assert(names@[i as int]@ != names@[j]@);
                        }
                    }
                    out.push((name, left));
                },
                None => {
                    out.push((name, Vec::new()));
                },
            }
            i = i + 1;
        }
        proof {
            let after = topics_map(self.topic_map);
            let goal = old(self)@.topics.map_values(|t: TopicView| t.close());
            assert forall|k: Seq<char>| #[trigger] goal.contains_key(k) implies self@.topics[k]
                == goal[k] by {
                assert(before.dom().contains(k));
                let j = choose|j: int| 0 <= j < names@.len() && (#[trigger] names@[j])@ == k;
                assert(after[names@[j]@]@ == before[names@[j]@]@.close());
            }
            assert(self@.topics =~= goal);
            assert forall|k: Seq<char>| old(self)@.topics.contains_key(k) implies exists|j: int|
                0 <= j < out@.len() && (#[trigger] out@[j]).0@ == k by {
                assert(before.dom().contains(k));
                let j = choose|j: int| 0 <= j < names@.len() && (#[trigger] names@[j])@ == k;
                assert(out@[j].0@ == k);
            }
            assert forall|a: int, b: int| 0 <= a < b < out@.len() implies (#[trigger] out@[a]).0@
                != (#[trigger] out@[b]).0@ by {
                assert(names@[a]@ != names@[b]@);
            }
            assert forall|a: int| 0 <= a < out@.len() implies old(self)@.topics.contains_key(
                (#[trigger] out@[a]).0@,
            ) && swept(
                out@[a].1@,
                old(self)@.topics[out@[a].0@].channels,
                SweepingView::Close,
                0,
            ) by {
                assert(before.dom().contains(names@[a]@));
            }
        }
        out
    }
}

} // verus!
