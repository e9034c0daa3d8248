use crate::channel::{handle_spec, handled_answer, Channel, Handled};
use crate::channel_state::{AddRefusal, ChannelView};
use crate::client_v2::{Client, ClientV2View};
use crate::errors::{fatal, fault, Fault, NsqError};
use crate::message::{msg_views, Message, MessageView};
use crate::options::Options;
use crate::protocol::frame_v2::{FrameSub, FrameSubView};
use dashmap::DashMap;
use vstd::prelude::*;

verus! {

/// The channels of a topic, by their names.
pub type ChannelMap = DashMap<String, Channel>;

/// The channels that a map holds, each under its name.
pub uninterp spec fn channels_map(m: ChannelMap) -> Map<Seq<char>, Channel>;

/// No channels at all.
pub open spec fn no_channels() -> Map<Seq<char>, Channel> {
    Map::empty()
}

/// Whether `names` lists the members of `dom`, each once.
pub open spec fn lists(names: Seq<String>, dom: Set<Seq<char>>) -> bool {
    &&& forall|i: int, j: int|
        0 <= i < j < names.len() ==> (#[trigger] names[i])@ != (#[trigger] names[j])@
    &&& forall|i: int| 0 <= i < names.len() ==> dom.contains((#[trigger] names[i])@)
    &&& forall|k: Seq<char>|
        dom.contains(k) ==> exists|i: int| 0 <= i < names.len() && (#[trigger] names[i])@ == k
}

/// `DashMap::new`: a map that holds nothing.
#[verifier::external_body]
fn channels_new() -> (m: ChannelMap)
    ensures
        channels_map(m) == no_channels(),
{
    DashMap::new()
}

/// `DashMap::contains_key`: whether the map holds an entry under `name`.
#[verifier::external_body]
fn channels_contains_key(m: &ChannelMap, name: &str) -> (b: bool)
    ensures
        b == channels_map(*m).contains_key(name@),
{
    m.contains_key(name)
}

/// `DashMap::insert`: puts `c` under `name`, in place of what was there, if
/// anything was, which is returned.
#[verifier::external_body]
fn channels_insert(m: &mut ChannelMap, name: String, c: Channel) -> (was: Option<Channel>)
    ensures
        channels_map(*final(m)) == channels_map(*old(m)).insert(name@, c),
        was is Some <==> channels_map(*old(m)).contains_key(name@),
        was matches Some(w) ==> w == channels_map(*old(m))[name@],
{
    m.insert(name, c)
}

/// `DashMap::remove`: takes the entry under `name` out, if there is one, and
/// returns it.
#[verifier::external_body]
fn channels_remove(m: &mut ChannelMap, name: &str) -> (was: Option<(String, Channel)>)
    ensures
        channels_map(*final(m)) == channels_map(*old(m)).remove(name@),
        was is Some <==> channels_map(*old(m)).contains_key(name@),
        was matches Some(w) ==> w.0@ == name@ && w.1 == channels_map(*old(m))[name@],
{
    m.remove(name)
}

/// `DashMap::iter`, with the key of each entry copied out: the names under which
/// the map holds entries, each once, in no order to rely on.
#[verifier::external_body]
fn channels_keys(m: &ChannelMap) -> (names: Vec<String>)
    ensures
        lists(names@, channels_map(*m).dom()),
{
    m.iter().map(|e| e.key().clone()).collect()
}

/// A named stream of messages, with the channels that each get every message.
pub struct Topic {
    name: String,
    channel_map: ChannelMap,
    opts: Options,
    exit_flag: bool,
}

pub struct TopicView {
    pub name: Seq<char>,
    /// The channels, by their names.
    pub channels: Map<Seq<char>, ChannelView>,
    /// Whether the topic is closed.
    pub exiting: bool,
    /// The settings that new channels are made with.
    pub opts: Options,
}

impl TopicView {
    /// Every channel is in good order and is held under its own name.
    pub open spec fn wf(self) -> bool {
        forall|k: Seq<char>| #[trigger]
            self.channels.contains_key(k) ==> self.channels[k].wf() && self.channels[k].name == k
    }

    /// What `op` does to every channel at `now`.
    pub open spec fn each(self, op: SweepingView, now: u128) -> TopicView {
        TopicView {
            channels: self.channels.map_values(|c: ChannelView| sweeping_spec(c, op, now).0),
            ..self
        }
    }

    /// The channel `name` is added for its first consumer. Where the topic has a
    /// channel of that name already, nothing happens, and that is no failure: the
    /// channel stays as it is, with the consumers and the messages that it has. A
    /// closed topic makes no channel. Where the new channel refuses the consumer,
    /// it is not kept.
    pub open spec fn add_channel(self, name: Seq<char>, c: ClientV2View) -> (
        TopicView,
        Result<(), AddRefusal>,
    ) {
        if self.channels.contains_key(name) {
            (self, Ok(()))
        } else if self.exiting {
            (self, Err(AddRefusal::Exiting))
        } else {
            let step = fresh_channel(name, self.opts).add_client(c);
            (
                if step.1 is Ok {
                    TopicView { channels: self.channels.insert(name, step.0), ..self }
                } else {
                    self
                },
                step.1,
            )
        }
    }

    /// A consumer subscribes to the channel `channel`, which is made if the topic
    /// has none of that name. A closed topic refuses. Where the channel refuses
    /// the consumer, nothing changes: a channel made for it is not kept.
    pub open spec fn subscribe(self, channel: Seq<char>, c: ClientV2View) -> (
        TopicView,
        Result<(), AddRefusal>,
    ) {
        if self.exiting {
            (self, Err(AddRefusal::Exiting))
        } else {
            let before = if self.channels.contains_key(channel) {
                self.channels[channel]
            } else {
                fresh_channel(channel, self.opts)
            };
            let step = before.add_client(c);
            (
                if step.1 is Ok {
                    TopicView { channels: self.channels.insert(channel, step.0), ..self }
                } else {
                    self
                },
                step.1,
            )
        }
    }

    /// A message is published at `now`: every channel is given it. A closed topic
    /// takes nothing. Where there is no channel, the message is gone.
    pub open spec fn put(self, m: MessageView, now: u128) -> TopicView {
        if self.exiting {
            self
        } else {
            self.each(SweepingView::Put(m), now)
        }
    }

    /// The topic is closed, and with it every channel.
    pub open spec fn close(self) -> TopicView {
        TopicView { exiting: true, ..self.each(SweepingView::Close, 0) }
    }

    /// The timeout sweep of every channel at `now`.
    pub open spec fn sweep(self, now: u128) -> TopicView {
        self.each(SweepingView::Timeouts, now)
    }

    /// A consumer of the channel `channel` sends a command at `now`. The second
    /// part of the result is `None` where the topic has no such channel.
    pub open spec fn handle(
        self,
        channel: Seq<char>,
        consumer: i64,
        frame: FrameSubView,
        now: u128,
    ) -> (TopicView, Option<Handled>) {
        if self.channels.contains_key(channel) {
            let step = handle_spec(self.channels[channel], consumer, frame, now);
            (TopicView { channels: self.channels.insert(channel, step.0), ..self }, Some(step.1))
        } else {
            (self, None)
        }
    }

    /// A consumer of the channel `channel` asks for a message at `now`.
    pub open spec fn pop(self, channel: Seq<char>, consumer: i64, now: u128) -> (
        TopicView,
        Option<MessageView>,
    ) {
        if self.channels.contains_key(channel) {
            let step = self.channels[channel].pop(consumer, now);
            (TopicView { channels: self.channels.insert(channel, step.0), ..self }, step.1)
        } else {
            (self, None)
        }
    }

    /// A consumer leaves the channel `channel`. The second part of the result
    /// holds the released messages that the channel could not take back.
    pub open spec fn remove_client(self, channel: Seq<char>, consumer: i64) -> (
        TopicView,
        Seq<MessageView>,
    ) {
        if self.channels.contains_key(channel) {
            let step = self.channels[channel].remove_client(consumer);
            (TopicView { channels: self.channels.insert(channel, step.0), ..self }, step.1)
        } else {
            (self, Seq::empty())
        }
    }
}

/// What is done to every channel of a topic at once.
pub enum Sweeping {
    /// The message is given to the channel.
    Put(Message),
    /// The channel is closed, and keeps its messages for elsewhere.
    Close,
    /// The deliveries that have timed out are released.
    Timeouts,
}

pub enum SweepingView {
    Put(MessageView),
    Close,
    Timeouts,
}

impl View for Sweeping {
    type V = SweepingView;

    open spec fn view(&self) -> SweepingView {
        match *self {
            Sweeping::Put(m) => SweepingView::Put(m@),
            Sweeping::Close => SweepingView::Close,
            Sweeping::Timeouts => SweepingView::Timeouts,
        }
    }
}

/// What `op` does to one channel at `now`, and the messages that leave the channel
/// for it, to be kept elsewhere.
pub open spec fn sweeping_spec(c: ChannelView, op: SweepingView, now: u128) -> (
    ChannelView,
    Seq<MessageView>,
) {
    match op {
        SweepingView::Put(m) => (
            c.put(m, now).0,
            if c.put(m, now).1 is Full {
                seq![m]
            } else {
                Seq::empty()
            },
        ),
        SweepingView::Close => (
            c.exit(false).0,
            match c.exit(false).1 {
                Some(f) => f,
                None => Seq::empty(),
            },
        ),
        SweepingView::Timeouts => c.sweep(now),
    }
}

/// Whether `out` holds, for every channel of `before` once, what left the channel
/// when `op` was done to it at `now`.
pub open spec fn swept(
    out: Seq<(String, Vec<Message>)>,
    before: Map<Seq<char>, ChannelView>,
    op: SweepingView,
    now: u128,
) -> bool {
    &&& forall|i: int, j: int|
        0 <= i < j < out.len() ==> (#[trigger] out[i]).0@ != (#[trigger] out[j]).0@
    &&& forall|i: int|
        0 <= i < out.len() ==> before.contains_key((#[trigger] out[i]).0@) && msg_views(out[i].1@)
            == sweeping_spec(before[out[i].0@], op, now).1
    &&& forall|k: Seq<char>|
        before.contains_key(k) ==> exists|i: int| 0 <= i < out.len() && (#[trigger] out[i]).0@ == k
}

/// What publishing `msg` to a topic at `now` comes to: the topic is as `put` has
/// it; a closed topic answers that it is closing; any other says, for each channel,
/// what the channel could not take for want of room.
pub open spec fn published(
    before: TopicView,
    after: TopicView,
    r: Result<Vec<(String, Vec<Message>)>, NsqError>,
    msg: MessageView,
    now: u128,
) -> bool {
    &&& after == before.put(msg, now)
    &&& if before.exiting {
        r matches Err(NsqError::Exiting)
    } else {
        r matches Ok(out) && swept(out@, before.channels, SweepingView::Put(msg), now)
    }
}

pub open spec fn unknown_channel() -> Fault {
    fault("E_INVALID", "unknown channel")
}

impl View for Topic {
    type V = TopicView;

    closed spec fn view(&self) -> TopicView {
        TopicView {
            name: self.name@,
            channels: channels_map(self.channel_map).map_values(|c: Channel| c@),
            exiting: self.exit_flag,
            opts: self.opts,
        }
    }
}

impl Topic {
    /// Every channel is in good order and is held under its own name.
    pub closed spec fn inv(&self) -> bool {
        forall|k: Seq<char>| #[trigger]
            channels_map(self.channel_map).contains_key(k) ==> channels_map(
                self.channel_map,
            )[k].inv() && channels_map(self.channel_map)[k]@.name == k
    }

    /// A topic in good order shows a state in good order.
    pub proof fn lemma_inv(&self)
        requires
            self.inv(),
        ensures
            self@.wf(),
    {
        assert forall|k: Seq<char>| #[trigger]
            self@.channels.contains_key(k) implies self@.channels[k].wf()
            && self@.channels[k].name == k by {
            assert(channels_map(self.channel_map).contains_key(k));
            channels_map(self.channel_map)[k].lemma_inv();
        }
    }

    /// A topic without channels.
    pub fn new(name: String, opts: Options) -> (t: Self)
        ensures
            t.inv(),
            t@ == (TopicView { name: name@, channels: Map::empty(), exiting: false, opts }),
    {
        let t = Self { name, channel_map: channels_new(), opts, exit_flag: false };
        assert(t@.channels =~= Map::empty());
        t
    }

    pub fn name(&self) -> (n: &String)
        ensures
            n@ == self@.name,
    {
        &self.name
    }

    pub fn exiting(&self) -> (b: bool)
        ensures
            b == self@.exiting,
    {
        self.exit_flag
    }

    /// Whether the topic has a channel of this name.
    pub fn has_channel(&self, name: &str) -> (b: bool)
        ensures
            b == self@.channels.contains_key(name@),
    {
        channels_contains_key(&self.channel_map, name)
    }

    /// The names of the channels, each once, in no order to rely on.
    pub fn channel_names(&self) -> (names: Vec<String>)
        ensures
            lists(names@, self@.channels.dom()),
    {
        let names = channels_keys(&self.channel_map);
        assert(self@.channels.dom() =~= channels_map(self.channel_map).dom());
        names
    }

    /// Takes the channel `name` out of the topic.
    fn take(&mut self, name: &str) -> (c: Option<Channel>)
        requires
            old(self).inv(),
        ensures
            final(self).inv(),
            final(self).name == old(self).name,
            final(self).opts == old(self).opts,
            final(self).exit_flag == old(self).exit_flag,
            channels_map(final(self).channel_map) == channels_map(old(self).channel_map).remove(
                name@,
            ),
            c is Some <==> old(self)@.channels.contains_key(name@),
            c matches Some(ch) ==> ch == channels_map(old(self).channel_map)[name@] && ch.inv()
                && ch@.name == name@,
    {
        match channels_remove(&mut self.channel_map, name) {
            Some(entry) => Some(entry.1),
            None => None,
        }
    }

    /// Puts a channel into the topic, under its name.
    fn put_back(&mut self, c: Channel)
        requires
            old(self).inv(),
            c.inv(),
        ensures
            final(self).inv(),
            final(self).name == old(self).name,
            final(self).opts == old(self).opts,
            final(self).exit_flag == old(self).exit_flag,
            channels_map(final(self).channel_map) == channels_map(old(self).channel_map).insert(
                c@.name,
                c,
            ),
    {
        let name = c.name().clone();
        channels_insert(&mut self.channel_map, name, c);
    }

    /// Adds the channel `name`, with `client` as its first consumer. Where the topic
    /// has a channel of that name already, nothing happens, and the call succeeds:
    /// the channel stays as it is, and `client` is not attached to it (that is what
    /// `subscribe` is for). A closed topic makes no channel. Where the new channel
    /// refuses the consumer, it is not kept.
    pub fn add_channel(&mut self, name: String, client: Client) -> (r: Result<(), NsqError>)
        requires
            old(self).inv(),
        ensures
            final(self).inv(),
            final(self)@ == old(self)@.add_channel(name@, client@).0,
            crate::channel::add_answer(r, old(self)@.add_channel(name@, client@).1),
            old(self)@.channels.contains_key(name@) ==> r is Ok && final(self)@ == old(self)@,
    {
        if channels_contains_key(&self.channel_map, name.as_str()) {
            return Ok(());
        }
        if self.exit_flag {
            return Err(NsqError::Exiting);
        }
        let ghost held = channels_map(self.channel_map);
        let mut channel = Channel::new(name.clone(), &self.opts);
        let r = channel.add_client(client);
        if r.is_ok() {
            self.put_back(channel);
            assert(channels_map(self.channel_map) =~= held.insert(name@, channel));
            assert(self@.channels =~= old(self)@.channels.insert(name@, channel@));
        }
        r
    }

    /// Subscribes `client` to the channel `name`, which is made if the topic has
    /// none of that name. A closed topic refuses. Where the channel refuses the
    /// consumer, nothing changes: a channel made for it is not kept.
    pub fn subscribe(&mut self, name: String, client: Client) -> (r: Result<(), NsqError>)
        requires
            old(self).inv(),
        ensures
            final(self).inv(),
            final(self)@ == old(self)@.subscribe(name@, client@).0,
            crate::channel::add_answer(r, old(self)@.subscribe(name@, client@).1),
    {
        if self.exit_flag {
            return Err(NsqError::Exiting);
        }
        let ghost held = channels_map(self.channel_map);
        let existing = self.take(name.as_str());
        let was_there = existing.is_some();
        let mut channel = match existing {
            Some(c) => c,
            None => Channel::new(name.clone(), &self.opts),
        };
        let r = channel.add_client(client);
        if r.is_ok() || was_there {
            self.put_back(channel);
        }
        proof {
            let now = channels_map(self.channel_map);
            if r is Ok {
                assert(now =~= held.insert(name@, channel));
                assert(self@.channels =~= old(self)@.channels.insert(name@, channel@));
            } else {
                if was_there {
                    assert(now =~= held.insert(name@, channel));
                } else {
                    assert(now =~= held);
                }
                assert(self@.channels =~= old(self)@.channels);
            }
        }
        r
    }

    /// Does `op` to every channel at `now`, and returns, for each channel, what
    /// left it to be kept elsewhere.
    fn each_channel(&mut self, op: &Sweeping, now: u128) -> (out: Vec<(String, Vec<Message>)>)
        requires
            old(self).inv(),
        ensures
            final(self).inv(),
            final(self).name == old(self).name,
            final(self).opts == old(self).opts,
            final(self).exit_flag == old(self).exit_flag,
            final(self)@ == old(self)@.each(op@, now),
            swept(out@, old(self)@.channels, op@, now),
    {
        let names = channels_keys(&self.channel_map);
        let ghost before = channels_map(self.channel_map);
        let mut out: Vec<(String, Vec<Message>)> = Vec::new();
        let mut i: usize = 0;
        while i < names.len()
            invariant
                i <= names.len(),
                lists(names@, before.dom()),
                before == channels_map(old(self).channel_map),
                self.inv(),
                self.name == old(self).name,
                self.opts == old(self).opts,
                self.exit_flag == old(self).exit_flag,
                channels_map(self.channel_map).dom() == before.dom(),
                forall|j: int|
                    0 <= j < i ==> channels_map(self.channel_map)[(#[trigger] names@[j])@]@
                        == sweeping_spec(before[names@[j]@]@, op@, now).0,
                forall|j: int|
                    i <= j < names.len() ==> channels_map(self.channel_map)[(
                    #[trigger] names@[j])@] == before[names@[j]@],
                out@.len() == i,
                forall|j: int|
                    0 <= j < i ==> (#[trigger] out@[j]).0@ == names@[j]@ && msg_views(out@[j].1@)
                        == sweeping_spec(before[names@[j]@]@, op@, now).1,
            decreases names.len() - i,
        {
            let name = names[i].clone();
            let ghost cur = channels_map(self.channel_map);
            assert(before.dom().contains(names@[i as int]@));
            assert(cur[names@[i as int]@] == before[names@[i as int]@]);
            let mut left: Vec<Message> = Vec::new();
            match self.take(name.as_str()) {
                Some(ch) => {
                    let mut ch = ch;
                    match op {
                        Sweeping::Put(m) => {
                            match ch.put_message_at(m.clone(), now) {
                                Err(NsqError::AsyncChannelSendError(back)) => {
                                    left.push(back);
                                    assert(msg_views(left@) =~= seq![m@]);
                                },
                                _ => {
                                    assert(msg_views(left@) =~= Seq::<MessageView>::empty());
                                },
                            }
                        },
                        Sweeping::Close => {
                            left = ch.close();
                        },
                        Sweeping::Timeouts => {
                            left = ch.sweep_at(now);
                        },
                    }
                    self.put_back(ch);
                    proof {
                        let after = channels_map(self.channel_map);
                        assert(ch@.name == names@[i as int]@);
                        assert(after.dom() =~= before.dom());
                        assert forall|j: int| 0 <= j < i implies after[(#[trigger] names@[j])@]@
                            == sweeping_spec(before[names@[j]@]@, op@, now).0 by {
                            assert(names@[j]@ != names@[i as int]@);
                        }
                        assert forall|j: int| i + 1 <= j < names.len() implies after[(
                        #[trigger] names@[j])@] == before[names@[j]@] by {
                            assert(names@[i as int]@ != names@[j]@);
                        }
                    }
                },
                None => {},
            }
            out.push((name, left));
            i = i + 1;
        }
        proof {
            let after = channels_map(self.channel_map);
            let goal = old(self)@.channels.map_values(
                |c: ChannelView| sweeping_spec(c, op@, now).0,
            );
            assert forall|k: Seq<char>| #[trigger] goal.contains_key(k) implies self@.channels[k]
                == goal[k] by {
                assert(before.dom().contains(k));
                let j = choose|j: int| 0 <= j < names@.len() && (#[trigger] names@[j])@ == k;
                assert(after[names@[j]@]@ == sweeping_spec(before[names@[j]@]@, op@, now).0);
            }
            assert(self@.channels =~= goal);
            assert forall|k: Seq<char>| old(self)@.channels.contains_key(k) implies exists|j: int|
                0 <= j < out@.len() && (#[trigger] out@[j]).0@ == k by {
                assert(before.dom().contains(k));
                let j = choose|j: int| 0 <= j < names@.len() && (#[trigger] names@[j])@ == k;
                assert(out@[j].0@ == k);
            }
            assert forall|a: int, b: int| 0 <= a < b < out@.len() implies (#[trigger] out@[a]).0@
                != (#[trigger] out@[b]).0@ by {
                assert(names@[a]@ != names@[b]@);
            }
            assert forall|a: int| 0 <= a < out@.len() implies old(self)@.channels.contains_key(
                (#[trigger] out@[a]).0@,
            ) && msg_views(out@[a].1@) == sweeping_spec(
                old(self)@.channels[out@[a].0@],
                op@,
                now,
            ).1 by {
                assert(before.dom().contains(names@[a]@));
            }
        }
        out
    }

    /// Publishes a message at `now`: every channel that the topic has is given the
    /// message. A closed topic refuses. For each channel the result says what the
    /// channel could not take for want of room; for a topic without channels it
    /// says nothing, and the message is gone.
    pub fn put_msg_at(&mut self, msg: Message, now: u128) -> (r: Result<
        Vec<(String, Vec<Message>)>,
        NsqError,
    >)
        requires
            old(self).inv(),
        ensures
            final(self).inv(),
            published(old(self)@, final(self)@, r, msg@, now),
    {
        if self.exit_flag {
            return Err(NsqError::Exiting);
        }
        let op = Sweeping::Put(msg);
        let out = self.each_channel(&op, now);
        Ok(out)
    }

    /// Publishes a message now, by the system clock.
    pub fn put_msg(&mut self, msg: Message) -> (r: Result<Vec<(String, Vec<Message>)>, NsqError>)
        requires
            old(self).inv(),
        ensures
            final(self).inv(),
            exists|now: u128| #[trigger] published(old(self)@, final(self)@, r, msg@, now),
    {
        let now = crate::channel::clock_now();
        self.put_msg_at(msg, now)
    }

    /// Closes the topic: it makes no further channel and takes no further
    /// message, and every channel is closed. For each channel the result holds the
    /// messages that it held, to be kept elsewhere.
    pub fn close(&mut self) -> (out: Vec<(String, Vec<Message>)>)
        requires
            old(self).inv(),
        ensures
            final(self).inv(),
            final(self)@ == old(self)@.close(),
            swept(out@, old(self)@.channels, SweepingView::Close, 0),
    {
        self.exit_flag = true;
        let op = Sweeping::Close;
        let out = self.each_channel(&op, 0);
        out
    }

    /// The timeout sweep of every channel at `now`. For each channel the result
    /// holds the released messages that it could not take back for want of room.
    pub fn sweep_at(&mut self, now: u128) -> (out: Vec<(String, Vec<Message>)>)
        requires
            old(self).inv(),
        ensures
            final(self).inv(),
            final(self)@ == old(self)@.sweep(now),
            swept(out@, old(self)@.channels, SweepingView::Timeouts, now),
    {
        let op = Sweeping::Timeouts;
        let out = self.each_channel(&op, now);
        out
    }

    /// Carries out a command of the consumer `consumer` of the channel `channel` at
    /// `now`. Where the topic has no such channel, the consumer is told so.
    pub fn handle(&mut self, channel: &str, consumer: i64, frame: FrameSub, now: u128) -> (r:
        Result<(), NsqError>)
        requires
            old(self).inv(),
        ensures
            final(self).inv(),
            final(self)@ == old(self)@.handle(channel@, consumer, frame@, now).0,
            match old(self)@.handle(channel@, consumer, frame@, now).1 {
                Some(out) => handled_answer(r, out),
                None => r matches Err(e) && e.is_fault(unknown_channel()),
            },
    {
        let ghost held = channels_map(self.channel_map);
        match self.take(channel) {
            Some(ch) => {
                let mut ch = ch;
                let r = ch.handle(consumer, frame, now);
                self.put_back(ch);
                assert(self@.channels =~= old(self)@.channels.insert(channel@, ch@));
                r
            },
            None => {
                assert(channels_map(self.channel_map) =~= held);
                Err(fatal("E_INVALID", "unknown channel"))
            },
        }
    }

    /// Hands the next ready message of the channel `channel` to `consumer` at
    /// `now`, as the channel does. A topic without such a channel hands out nothing.
    pub fn pop_ready_message_at(&mut self, channel: &str, consumer: i64, now: u128) -> (r: Option<
        Message,
    >)
        requires
            old(self).inv(),
        ensures
            final(self).inv(),
            final(self)@ == old(self)@.pop(channel@, consumer, now).0,
            match old(self)@.pop(channel@, consumer, now).1 {
                Some(v) => r matches Some(m) && m@ == v,
                None => r is None,
            },
    {
        let ghost held = channels_map(self.channel_map);
        match self.take(channel) {
            Some(ch) => {
                let mut ch = ch;
                let r = ch.pop_ready_message_at(consumer, now);
                self.put_back(ch);
                assert(self@.channels =~= old(self)@.channels.insert(channel@, ch@));
                r
            },
            None => {
                assert(channels_map(self.channel_map) =~= held);
                None
            },
        }
    }

    /// The consumer `consumer` leaves the channel `channel`, as `Channel::remove_client`
    /// has it. The result holds the released messages that the channel could not
    /// take back for want of room.
    pub fn remove_client(&mut self, channel: &str, consumer: i64) -> (spilled: Vec<Message>)
        requires
            old(self).inv(),
        ensures
            final(self).inv(),
            final(self)@ == old(self)@.remove_client(channel@, consumer).0,
            msg_views(spilled@) == old(self)@.remove_client(channel@, consumer).1,
    {
        let ghost held = channels_map(self.channel_map);
        match self.take(channel) {
            Some(ch) => {
                let mut ch = ch;
                let spilled = ch.remove_client(consumer);
                self.put_back(ch);
                assert(self@.channels =~= old(self)@.channels.insert(channel@, ch@));
                spilled
            },
            None => {
                assert(channels_map(self.channel_map) =~= held);
                let none: Vec<Message> = Vec::new();
                assert(msg_views(none@) =~= Seq::<MessageView>::empty());
                none
            },
        }
    }

}

/// A channel as it is made for the first consumer that subscribes to it.
pub open spec fn fresh_channel(name: Seq<char>, opts: Options) -> ChannelView {
    ChannelView {
        name,
        capacity: opts.mem_queue_size as nat,
        max_consumers: opts.max_channel_subscribers as nat,
        msg_timeout: opts.msg_timeout,
        requeue_count: 0,
        msg_count: 0,
        timeout_count: 0,
        buffer: Seq::empty(),
        deferred: Seq::empty(),
        in_flight: Seq::empty(),
        consumers: Map::empty(),
        exiting: false,
    }
}

/// A message that is published reaches every channel that the topic has: in
/// each channel that takes it, it is the last of the ready buffer.
pub proof fn law_publish_reaches_every_channel(
    t: TopicView,
    m: MessageView,
    now: u128,
    k: Seq<char>,
)
    requires
        !t.exiting,
        t.channels.contains_key(k),
        m.deferred is None,
    ensures
        t.put(m, now).channels.dom() == t.channels.dom(),
        t.put(m, now).channels[k] == t.channels[k].put(m, now).0,
        t.channels[k].put(m, now).1 is Queued ==> t.put(m, now).channels[k].buffer.last() == m,
{
    assert(t.put(m, now).channels.dom() =~= t.channels.dom());
}

/// A channel that is made after a message was published does not see the message:
/// it starts with nothing.
pub proof fn law_late_channel_misses(
    t: TopicView,
    m: MessageView,
    now: u128,
    k: Seq<char>,
    c: ClientV2View,
)
    requires
        !t.exiting,
        !t.channels.contains_key(k),
        t.opts.max_channel_subscribers > 0,
    ensures
        t.put(m, now).subscribe(k, c).1 is Ok,
        t.put(m, now).subscribe(k, c).0.channels.contains_key(k),
        !t.put(m, now).subscribe(k, c).0.channels[k].holds(m.id),
{
    let u = t.put(m, now);
    assert(u.channels.dom() =~= t.channels.dom());
    let f = fresh_channel(k, u.opts);
    assert(f.consumers.len() == 0);
    assert(f.add_client(c).1 is Ok);
}

/// Adding a channel is idempotent: where the topic has a channel of that name,
/// adding it again succeeds and changes nothing, whoever asks and whatever state
/// topic and channel are in.
pub proof fn law_add_channel_again(t: TopicView, k: Seq<char>, c: ClientV2View)
    requires
        t.channels.contains_key(k),
    ensures
        t.add_channel(k, c) == (t, Ok::<(), AddRefusal>(())),
{
}

/// A channel that was added is there, and adding it a second time leaves it as the
/// first time made it.
pub proof fn law_add_channel_twice(t: TopicView, k: Seq<char>, c: ClientV2View, d: ClientV2View)
    requires
        t.add_channel(k, c).1 is Ok,
    ensures
        t.add_channel(k, c).0.channels.contains_key(k),
        t.add_channel(k, c).0.add_channel(k, d) == (
            t.add_channel(k, c).0,
            Ok::<(), AddRefusal>(()),
        ),
{
}

/// A closed topic takes neither messages nor consumers, and stays as it is.
pub proof fn law_closed_topic_refuses(
    t: TopicView,
    m: MessageView,
    now: u128,
    k: Seq<char>,
    c: ClientV2View,
)
    requires
        t.exiting,
    ensures
        t.put(m, now) == t,
        t.subscribe(k, c) == (t, Err::<(), AddRefusal>(AddRefusal::Exiting)),
        t.close().exiting,
{
}

} // verus!
