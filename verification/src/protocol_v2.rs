use bytes::{Bytes, BytesMut};
use crate::buf::{bytes_clone, bytes_mut_seq, bytes_seq};
use crate::channel::{add_answer, handled_answer, Handled};
use crate::channel_state::AddRefusal;
use crate::client_v2::{bad_state, Client, ClientV2, ClientV2View, State};
use crate::endian::u64_be;
use crate::errors::{fatal, fault, NsqError};
use crate::guid::{hex_lower, GuidView};
use crate::message::{Message, MessageView};
use crate::nsqd::{NsqdView, NSQD};
use crate::protocol::codec_sub_v2::{sub_decode_spec, CodecSubV2, SubDecoded};
use crate::protocol::codec_v2::{decode_spec, CodecV2, Decoded};
use crate::protocol::frame_v2::{
    bodies_seq, ChannelName, Frame, FrameSub, FrameSubView, FrameView, TopicName,
};
use crate::response::{
    fits_frame, frame_bytes, framed, Resp, FRAME_TYPE_ERROR, FRAME_TYPE_MESSAGE,
    FRAME_TYPE_RESPONSE,
};
use crate::topic::{swept, SweepingView};
use vstd::prelude::*;
use vstd::utf8::encode_utf8;

verus! {

/// The kinds of frames that the broker sends.
#[derive(Debug, Clone, Copy, PartialEq, Eq, Structural)]
pub enum FrameType {
    Response,
    Error,
    Message,
}

impl FrameType {
    pub open spec fn spec_code(self) -> u32 {
        match self {
            FrameType::Response => FRAME_TYPE_RESPONSE,
            FrameType::Error => FRAME_TYPE_ERROR,
            FrameType::Message => FRAME_TYPE_MESSAGE,
        }
    }

    /// The number of the kind on the wire.
    pub fn code(&self) -> (c: u32)
        ensures
            c == self.spec_code(),
    {
        match self {
            FrameType::Response => FRAME_TYPE_RESPONSE,
            FrameType::Error => FRAME_TYPE_ERROR,
            FrameType::Message => FRAME_TYPE_MESSAGE,
        }
    }
}

/// Where a connection stands, as the protocol sees it.
#[derive(Debug)]
pub enum Session {
    /// The connection has not subscribed; it may publish.
    Open(ClientV2),
    /// The connection is the consumer of this identifier, of this channel of this
    /// topic.
    Subscribed(i64, TopicName, ChannelName),
    /// The connection is to be closed.
    Closed,
}

pub enum SessionView {
    Open(ClientV2View),
    Subscribed(i64, Seq<char>, Seq<char>),
    Closed,
}

impl View for Session {
    type V = SessionView;

    open spec fn view(&self) -> SessionView {
        match *self {
            Session::Open(c) => SessionView::Open(c@),
            Session::Subscribed(id, t, c) => SessionView::Subscribed(id, t@, c@),
            Session::Closed => SessionView::Closed,
        }
    }
}

/// `buf` with the frame of `payload` at its end; `buf` itself where the payload is
/// too long for a frame.
pub open spec fn with_frame(buf: Seq<u8>, code: u32, payload: Seq<u8>) -> Seq<u8> {
    if fits_frame(payload) {
        buf + frame_bytes(code, payload)
    } else {
        buf
    }
}

/// `buf` with the answer `OK` at its end.
pub open spec fn with_ok(buf: Seq<u8>) -> Seq<u8> {
    with_frame(buf, FRAME_TYPE_RESPONSE, encode_utf8("OK"@))
}

/// `buf` with the error report `text` at its end.
pub open spec fn with_error(buf: Seq<u8>, text: Seq<char>) -> Seq<u8> {
    with_frame(buf, FRAME_TYPE_ERROR, encode_utf8(text))
}

/// What the broker and its source of identifiers are while messages are published
/// one after the other, and what went wrong, if anything did.
pub struct PubState {
    pub nsqd: NsqdView,
    pub guid: GuidView,
    /// What the first failure says; nothing is published after it.
    pub failure: Option<Seq<char>>,
}

pub open spec fn no_id_text() -> Seq<char> {
    "E_PUB_FAILED"@ + " "@ + "PUB failed: no message identifier"@
}

pub open spec fn exiting_text() -> Seq<char> {
    "NSQD is on the way out"@
}

/// The message that is made of `body` at `now` under the identifier `id`.
pub open spec fn made(id: i64, body: Seq<u8>, defer: Option<u64>, now: u128) -> MessageView {
    MessageView {
        deferred: defer,
        ..MessageView::fresh(hex_lower(u64_be(id as u64)), body, now as u64, 0)
    }
}

/// One message is made of `body` and published to `topic` at `now`. It fails where
/// no identifier can be issued and where the broker or the topic is closed.
pub open spec fn pub_one(
    s: PubState,
    topic: Seq<char>,
    body: Seq<u8>,
    defer: Option<u64>,
    now: u128,
) -> PubState {
    let (guid, r) = s.guid.issue(now);
    match r {
        Err(_) => PubState { guid, failure: Some(no_id_text()), ..s },
        Ok(id) => if s.nsqd.exiting {
            PubState { guid, failure: Some(exiting_text()), ..s }
        } else {
            PubState {
                nsqd: s.nsqd.publish(topic, made(id, body, defer, now), now),
                guid,
                failure: if s.nsqd.topic_or_new(topic).exiting {
                    Some(exiting_text())
                } else {
                    None
                },
            }
        },
    }
}

/// The first `k` of `bodies` are published to `topic` at `now`, one after the
/// other, up to the first failure.
pub open spec fn pub_many(
    s: PubState,
    topic: Seq<char>,
    bodies: Seq<Seq<u8>>,
    defer: Option<u64>,
    now: u128,
    k: nat,
) -> PubState
    decreases k,
{
    if k == 0 {
        s
    } else {
        let p = pub_many(s, topic, bodies, defer, now, (k - 1) as nat);
        if p.failure is Some {
            p
        } else {
            pub_one(p, topic, bodies[k - 1], defer, now)
        }
    }
}

/// Whether `spilled` holds, for each message that was published of `bodies`, in
/// their order, what each channel of the topic could not take of it for want of
/// room; and whether it holds as many entries as messages were published.
pub open spec fn spills(
    spilled: Seq<Vec<(String, Vec<Message>)>>,
    s: PubState,
    topic: Seq<char>,
    bodies: Seq<Seq<u8>>,
    defer: Option<u64>,
    now: u128,
) -> bool {
    &&& spilled.len() <= bodies.len()
    &&& pub_many(s, topic, bodies, defer, now, spilled.len()).failure is None
    &&& spilled.len() < bodies.len() ==> pub_many(
        s,
        topic,
        bodies,
        defer,
        now,
        spilled.len() + 1,
    ).failure is Some
    &&& forall|k: int|
        0 <= k < spilled.len() ==> spill_at(#[trigger] spilled[k], s, topic, bodies, defer, now, k)
}

/// Whether `spilled` holds what was left over of the messages that the command
/// `frame` published; a command that publishes nothing leaves nothing over.
pub open spec fn exec_spills(
    spilled: Seq<Vec<(String, Vec<Message>)>>,
    s: PubState,
    frame: FrameView,
    now: u128,
) -> bool {
    match frame {
        FrameView::PUB(t, body) => spills(spilled, s, t, seq![body], None, now),
        FrameView::DPUB(t, ms, body) => spills(spilled, s, t, seq![body], Some(ms), now),
        FrameView::MPUB(t, bodies) => spills(spilled, s, t, bodies, None, now),
        _ => spilled.len() == 0,
    }
}

/// Whether `left` holds what each channel of the topic could not take of the
/// `k`-th message published of `bodies`.
pub open spec fn spill_at(
    left: Vec<(String, Vec<Message>)>,
    s: PubState,
    topic: Seq<char>,
    bodies: Seq<Seq<u8>>,
    defer: Option<u64>,
    now: u128,
    k: int,
) -> bool {
    let p = pub_many(s, topic, bodies, defer, now, k as nat);
    &&& p.guid.issue(now).1 matches Ok(id)
    &&& swept(
        left@,
        p.nsqd.topic_or_new(topic).channels,
        SweepingView::Put(made(id, bodies[k], defer, now)),
        now,
    )
}

/// What carrying out a command of a connection that has not subscribed comes to.
pub struct ExecStep {
    pub state: PubState,
    pub session: SessionView,
    /// Whether the answer `OK` is due. An error report is due where `state` holds
    /// a failure, and nothing where neither is so.
    pub ok: bool,
}

pub open spec fn refusal_text(r: AddRefusal) -> Seq<char> {
    match r {
        AddRefusal::Exiting => exiting_text(),
        AddRefusal::Full(n) => "The number of subscribers has reached its limit: "@
            + crate::protocol::line::ascii_text(crate::protocol::line::decimal_digits(n)),
    }
}

/// A command of a connection that has not subscribed is carried out at `now`.
/// `NOP` does nothing. `PUB` and `DPUB` publish one message, `MPUB` several, and
/// are counted for the connection. `SUB` makes the connection the consumer of a
/// channel, once.
///
/// A refusal that may pass is reported and leaves the connection as it was, so
/// that the client can try again: a publication for which no identifier could be
/// issued or which a closing broker or topic did not take, and a subscription
/// that the channel refused because it is full or closing. A command that the
/// protocol does not allow ends the connection: a second `SUB`, and `AUTH`.
pub open spec fn exec_spec(s: PubState, c: ClientV2View, frame: FrameView, now: u128) -> ExecStep {
    match frame {
        FrameView::NOP => ExecStep { state: s, session: SessionView::Open(c), ok: false },
        FrameView::AUTH(_) => ExecStep {
            state: PubState {
                failure: Some("E_INVALID"@ + " "@ + "AUTH is not supported"@),
                ..s
            },
            session: SessionView::Closed,
            ok: false,
        },
        FrameView::PUB(t, body) => published_step(pub_one(s, t, body, None, now), c, t, 1),
        FrameView::DPUB(t, ms, body) => published_step(pub_one(s, t, body, Some(ms), now), c, t, 1),
        FrameView::MPUB(t, bodies) => published_step(
            pub_many(s, t, bodies, None, now, bodies.len()),
            c,
            t,
            bodies.len() as u64,
        ),
        FrameView::SUB(t, ch) => if c.state == State::Init || c.state == State::Connected {
            let step = s.nsqd.subscribe(t, ch, ClientV2View { state: State::Subscribed, ..c });
            match step.1 {
                Ok(()) => ExecStep {
                    state: PubState { nsqd: step.0, ..s },
                    session: SessionView::Subscribed(c.id, t, ch),
                    ok: true,
                },
                Err(r) => ExecStep {
                    state: PubState { nsqd: step.0, failure: Some(refusal_text(r)), ..s },
                    session: SessionView::Open(c),
                    ok: false,
                },
            }
        } else {
            ExecStep {
                state: PubState {
                    failure: Some("E_INVALID"@ + " "@ + "cannot SUB in current state"@),
                    ..s
                },
                session: SessionView::Closed,
                ok: false,
            }
        },
    }
}

/// After a publication: the connection stays open. Where the publication went
/// through, the connection has `count` more messages to its name; where it
/// failed, nothing is counted.
pub open spec fn published_step(p: PubState, c: ClientV2View, topic: Seq<char>, count: u64)
    -> ExecStep {
    if p.failure is Some {
        ExecStep { state: p, session: SessionView::Open(c), ok: false }
    } else {
        ExecStep { state: p, session: SessionView::Open(c.published(topic, count)), ok: true }
    }
}

/// What is written for a step: `OK`, or the report of the failure, or nothing.
pub open spec fn answered(buf: Seq<u8>, step: ExecStep) -> Seq<u8> {
    match step.state.failure {
        Some(text) => with_error(buf, text),
        None => if step.ok {
            with_ok(buf)
        } else {
            buf
        },
    }
}

/// Publishing the one message of a list is publishing that message.
pub proof fn lemma_pub_single(
    s: PubState,
    topic: Seq<char>,
    body: Seq<u8>,
    defer: Option<u64>,
    now: u128,
)
    requires
        s.failure is None,
    ensures
        pub_many(s, topic, seq![body], defer, now, 1) == pub_one(s, topic, body, defer, now),
{
    assert(pub_many(s, topic, seq![body], defer, now, 0) == s);
}

/// Once a publication has failed, nothing more is published.
pub proof fn lemma_pub_many_stops(
    s: PubState,
    topic: Seq<char>,
    bodies: Seq<Seq<u8>>,
    defer: Option<u64>,
    now: u128,
    k: nat,
    n: nat,
)
    requires
        k <= n,
        pub_many(s, topic, bodies, defer, now, k).failure is Some,
    ensures
        pub_many(s, topic, bodies, defer, now, n) == pub_many(s, topic, bodies, defer, now, k),
    decreases n,
{
    if k < n {
        lemma_pub_many_stops(s, topic, bodies, defer, now, k, (n - 1) as nat);
    }
}

/// The broker's side of the protocol: what commands do to the broker, and what is
/// written back.
pub struct ProtocolV2 {
    nsqd: NSQD,
}

/// What was carried out for a connection.
pub struct Executed {
    /// Where the connection stands now.
    pub session: Session,
    /// For each message published, and each channel it went to, what the channel
    /// could not take for want of room.
    pub spilled: Vec<Vec<(String, Vec<Message>)>>,
}

impl ProtocolV2 {
    /// The broker, as plain values.
    pub closed spec fn nsqd_view(&self) -> NsqdView {
        self.nsqd@
    }

    /// What the broker's source of identifiers remembers.
    pub closed spec fn guid_view(&self) -> GuidView {
        self.nsqd.guid_state()
    }

    pub open spec fn state(&self) -> PubState {
        PubState { nsqd: self.nsqd_view(), guid: self.guid_view(), failure: None }
    }

    pub closed spec fn inv(&self) -> bool {
        self.nsqd.inv()
    }

    pub fn new(nsqd: NSQD) -> (p: Self)
        requires
            nsqd.inv(),
        ensures
            p.inv(),
            p.nsqd_view() == nsqd@,
            p.guid_view() == nsqd.guid_state(),
    {
        Self { nsqd }
    }

    /// The broker.
    pub fn nsqd(&self) -> (n: &NSQD)
        requires
            self.inv(),
        ensures
            n.inv(),
            n@ == self.nsqd_view(),
    {
        &self.nsqd
    }

    /// Gives the broker back.
    pub fn into_nsqd(self) -> (n: NSQD)
        requires
            self.inv(),
        ensures
            n.inv(),
            n@ == self.nsqd_view(),
    {
        self.nsqd
    }

    /// Appends the frame of kind `ft` that carries `data` to `out`, and returns the
    /// number of bytes written. Data too long for a frame is refused.
    pub fn send(&self, ft: FrameType, data: &[u8], out: &mut BytesMut) -> (r: Result<
        i64,
        NsqError,
    >)
        ensures
            framed(r, bytes_mut_seq(*old(out)), bytes_mut_seq(*final(out)), ft.spec_code(), data@),
    {
        match ft {
            FrameType::Response => Resp::send_resp(data, out),
            FrameType::Error => Resp::send_err(data, out),
            FrameType::Message => {
                let resp = Resp::Resp(crate::buf::bytes_copy_from_slice(data));
                let ghost before = bytes_mut_seq(*out);
                let n = data.len();
                if n as u64 > (u32::MAX - 4) as u64 {
                    return Err(NsqError::InvalidMsgLength);
                }
                crate::buf::bytes_mut_put_u32(out, (n + 4) as u32);
                crate::buf::bytes_mut_put_u32(out, FRAME_TYPE_MESSAGE);
                crate::buf::bytes_mut_put_slice(out, data);
                assert(bytes_mut_seq(*out) =~= before + frame_bytes(FRAME_TYPE_MESSAGE, data@));
                Ok(n as i64 + 8)
            },
        }
    }

    /// Appends the frame that carries `msg` to `out`. A message too long for a
    /// frame is refused. This writes the frame and no more: which message a
    /// consumer gets, and that it is in flight from then on, is what `message_pump`
    /// sees to.
    pub fn send_msg(&self, msg: Message, out: &mut BytesMut) -> (r: Result<(), NsqError>)
        ensures
            bytes_mut_seq(*final(out)) == with_frame(
                bytes_mut_seq(*old(out)),
                FRAME_TYPE_MESSAGE,
                msg@.wire(),
            ),
            r is Ok <==> fits_frame(msg@.wire()),
    {
        match Resp::send_msg(msg, out) {
            Ok(_) => Ok(()),
            Err(e) => Err(e),
        }
    }

    /// Appends a heartbeat to `out`.
    pub fn heartbeat(&self, out: &mut BytesMut)
        ensures
            bytes_mut_seq(*final(out)) == with_frame(
                bytes_mut_seq(*old(out)),
                FRAME_TYPE_RESPONSE,
                encode_utf8("_heartbeat_"@),
            ),
    {
        let _ = Resp::send_resp("_heartbeat_".as_bytes(), out);
    }

    /// Appends the answer `OK` to `out`.
    fn send_ok(&self, out: &mut BytesMut)
        ensures
            bytes_mut_seq(*final(out)) == with_ok(bytes_mut_seq(*old(out))),
    {
        let _ = Resp::send_resp("OK".as_bytes(), out);
    }

    /// Appends the report of the error `e` to `out`: an error frame with what the
    /// error says. After it the connection is to be closed.
    pub fn fail(&self, e: &NsqError, out: &mut BytesMut)
        ensures
            bytes_mut_seq(*final(out)) == with_error(bytes_mut_seq(*old(out)), e.text()),
    {
        let text = e.message();
        let _ = Resp::send_err(text.as_str().as_bytes(), out);
    }

    /// Accepts a connection from `addr` at `now`: it gets the next identifier and
    /// starts as a new connection that has not subscribed.
    pub fn connect(&mut self, addr: String, now: u128) -> (s: Session)
        requires
            old(self).inv(),
        ensures
            final(self).inv(),
            final(self).guid_view() == old(self).guid_view(),
            final(self).nsqd_view() == (NsqdView {
                client_id_seq: old(self).nsqd_view().client_id_seq.wrapping_add(1),
                ..old(self).nsqd_view()
            }),
            s matches Session::Open(c) && c@.id == final(self).nsqd_view().client_id_seq && c@.state
                == State::Init && c@.ready_count == 0,
    {
        let id = self.nsqd.next_client_id();
        let opts = *self.nsqd.get_opts();
        Session::Open(ClientV2::new(id, addr, &opts, now))
    }

    /// Makes one message of `body` and publishes it to `topic` at `now`.
    fn publish_one(&mut self, topic: &String, body: Bytes, defer: Option<u64>, now: u128) -> (r:
        Result<Vec<(String, Vec<Message>)>, NsqError>)
        requires
            old(self).inv(),
        ensures
            final(self).inv(),
            ({
                let p = pub_one(old(self).state(), topic@, bytes_seq(body), defer, now);
                &&& final(self).nsqd_view() == p.nsqd
                &&& final(self).guid_view() == p.guid
                &&& match p.failure {
                    Some(text) => r matches Err(e) && e.text() == text,
                    None => r matches Ok(out) && old(self).guid_view().issue(now).1 matches Ok(id)
                        && swept(
                        out@,
                        old(self).nsqd_view().topic_or_new(topic@).channels,
                        SweepingView::Put(made(id, bytes_seq(body), defer, now)),
                        now,
                    ),
                }
            }),
    {
        let msg = match self.nsqd.create_message_at(body, now) {
            Ok(m) => m,
            Err(_) => {
                return Err(fatal("E_PUB_FAILED", "PUB failed: no message identifier"));
            },
        };
        let msg = match defer {
            Some(ms) => msg.defer(ms),
            None => msg,
        };
        self.nsqd.publish_msg_at(topic.clone(), msg, now)
    }

    /// Makes a message of each of `bodies` and publishes them to `topic` at `now`,
    /// one after the other, up to the first failure, which is returned.
    fn publish_many(
        &mut self,
        topic: &String,
        msgs: Vec<Bytes>,
        defer: Option<u64>,
        now: u128,
    ) -> (r: (Vec<Vec<(String, Vec<Message>)>>, Option<NsqError>))
        requires
            old(self).inv(),
        ensures
            final(self).inv(),
            ({
                let bodies = bodies_seq(msgs@);
                let p = pub_many(old(self).state(), topic@, bodies, defer, now, bodies.len());
                &&& final(self).nsqd_view() == p.nsqd
                &&& final(self).guid_view() == p.guid
                &&& match p.failure {
                    Some(text) => r.1 matches Some(e) && e.text() == text,
                    None => r.1 is None,
                }
                &&& spills(r.0@, old(self).state(), topic@, bodies, defer, now)
            }),
    {
        let ghost s0 = self.state();
        let ghost bodies = bodies_seq(msgs@);
        let mut spilled: Vec<Vec<(String, Vec<Message>)>> = Vec::new();
        let mut failed: Option<NsqError> = None;
        let mut i: usize = 0;
        while i < msgs.len() && failed.is_none()
            invariant
                i <= msgs.len(),
                bodies == bodies_seq(msgs@),
                s0 == old(self).state(),
                s0.failure is None,
                self.inv(),
                spilled@.len() + if failed is Some {
                    1nat
                } else {
                    0nat
                } == i,
                pub_many(s0, topic@, bodies, defer, now, spilled@.len()).failure is None,
                forall|k: int|
                    0 <= k < spilled@.len() ==> spill_at(
                        #[trigger] spilled@[k],
                        s0,
                        topic@,
                        bodies,
                        defer,
                        now,
                        k,
                    ),
                ({
                    let p = pub_many(s0, topic@, bodies, defer, now, i as nat);
                    &&& self.nsqd_view() == p.nsqd
                    &&& self.guid_view() == p.guid
                    &&& match p.failure {
                        Some(text) => failed matches Some(e) && e.text() == text,
                        None => failed is None,
                    }
                }),
            decreases msgs.len() - i + if failed is None { 1nat } else { 0nat },
        {
            let ghost had = spilled@;
            let ghost before = pub_many(s0, topic@, bodies, defer, now, i as nat);
            assert(bodies[i as int] == bytes_seq(msgs@[i as int]));
            assert(before == self.state());
            match self.publish_one(topic, bytes_clone(&msgs[i]), defer, now) {
                Ok(left) => {
                    let ghost l = left;
                    spilled.push(left);
                    proof {
                        let after = pub_one(before, topic@, bodies[i as int], defer, now);
                        assert(after.failure is None);
                        assert(had.len() == i);
                        assert(spilled@[i as int] == l);
                        assert(pub_many(s0, topic@, bodies, defer, now, (i + 1) as nat) == after);
                        assert(spill_at(l, s0, topic@, bodies, defer, now, i as int));
                        assert forall|k: int| 0 <= k < spilled@.len() implies spill_at(
                            #[trigger] spilled@[k],
                            s0,
                            topic@,
                            bodies,
                            defer,
                            now,
                            k,
                        ) by {
                            if k < had.len() {
                                assert(spilled@[k] == had[k]);
                            }
                        }
                    }
                },
                Err(e) => {
                    proof {
                        let after = pub_one(before, topic@, bodies[i as int], defer, now);
                        assert(pub_many(s0, topic@, bodies, defer, now, (i + 1) as nat) == after);
                    }
                    failed = Some(e);
                },
            }
            i = i + 1;
        }
        proof {
            if i < msgs.len() {
                lemma_pub_many_stops(s0, topic@, bodies, defer, now, i as nat, msgs.len() as nat);
            }
            if failed is Some {
                assert(spilled@.len() + 1 == i);
            }
        }
        (spilled, failed)
    }

    /// Carries out a command of a connection that has not subscribed, at `now`,
    /// and appends the answer to `out`: `OK`, or the report of what failed. After a
    /// refusal that may pass the connection stays as it was; after a command that
    /// the protocol does not allow it is to be closed.
    pub fn exec(&mut self, client: ClientV2, frame: Frame, now: u128, out: &mut BytesMut) -> (r:
        Executed)
        requires
            old(self).inv(),
        ensures
            final(self).inv(),
            ({
                let step = exec_spec(old(self).state(), client@, frame@, now);
                &&& final(self).nsqd_view() == step.state.nsqd
                &&& final(self).guid_view() == step.state.guid
                &&& r.session@ == step.session
                &&& bytes_mut_seq(*final(out)) == answered(bytes_mut_seq(*old(out)), step)
            }),
            exec_spills(r.spilled@, old(self).state(), frame@, now),
    {
        let mut client = client;
        let mut spilled: Vec<Vec<(String, Vec<Message>)>> = Vec::new();
        let ghost s0 = self.state();
        let failure: Option<NsqError> = match frame {
            Frame::NOP => {
                return Executed { session: Session::Open(client), spilled };
            },
            Frame::AUTH(_) => {
                self.fail(&fatal("E_INVALID", "AUTH is not supported"), out);
                return Executed { session: Session::Closed, spilled };
            },
            Frame::PUB(topic, body) => {
                let mut one: Vec<Bytes> = Vec::new();
                one.push(body);
                proof {
                    assert(bodies_seq(one@) =~= seq![bytes_seq(body)]);
                    lemma_pub_single(s0, topic@, bytes_seq(body), None, now);
                }
                let (left, failed) = self.publish_many(&topic, one, None, now);
                spilled = left;
                if failed.is_none() {
                    client.published_msg(topic.as_str(), 1);
                }
                failed
            },
            Frame::DPUB(topic, ms, body) => {
                let mut one: Vec<Bytes> = Vec::new();
                one.push(body);
                proof {
                    assert(bodies_seq(one@) =~= seq![bytes_seq(body)]);
                    lemma_pub_single(s0, topic@, bytes_seq(body), Some(ms), now);
                }
                let (left, failed) = self.publish_many(&topic, one, Some(ms), now);
                spilled = left;
                if failed.is_none() {
                    client.published_msg(topic.as_str(), 1);
                }
                failed
            },
            Frame::MPUB(topic, msgs) => {
                let count = msgs.len() as u64;
                let (left, failed) = self.publish_many(&topic, msgs, None, now);
                spilled = left;
                if failed.is_none() {
                    client.published_msg(topic.as_str(), count);
                }
                failed
            },
            Frame::SUB(topic, channel) => {
                let as_it_was = client.clone();
                match client.subscribe() {
                    Ok(()) => {
                        let id = client.id();
                        match self.nsqd.subscribe(
                            topic.clone(),
                            channel.clone(),
                            Client::V2(client),
                        ) {
                            Ok(()) => {
                                self.send_ok(out);
                                return Executed {
                                    session: Session::Subscribed(id, topic, channel),
                                    spilled,
                                };
                            },
                            Err(e) => {
                                self.fail(&e, out);
                                return Executed { session: Session::Open(as_it_was), spilled };
                            },
                        }
                    },
                    Err(e) => {
                        self.fail(&e, out);
                        return Executed { session: Session::Closed, spilled };
                    },
                }
            },
        };
        match failure {
            Some(e) => {
                self.fail(&e, out);
                Executed { session: Session::Open(client), spilled }
            },
            None => {
                self.send_ok(out);
                Executed { session: Session::Open(client), spilled }
            },
        }
    }

    /// Carries out a command of the consumer `id` of the channel `channel` of the
    /// topic `topic` at `now`, and appends the answer to `out`: `CLOSE_WAIT` after
    /// `CLS`, the report of what the consumer did wrong, or nothing. A message that
    /// the channel could not take back for want of room is returned. The result
    /// says also whether the connection stays: it does unless there is no such
    /// topic or channel.
    pub fn exec_sub(
        &mut self,
        id: i64,
        topic: &str,
        channel: &str,
        frame: FrameSub,
        now: u128,
        out: &mut BytesMut,
    ) -> (r: (bool, Option<Message>))
        requires
            old(self).inv(),
        ensures
            final(self).inv(),
            final(self).guid_view() == old(self).guid_view(),
            final(self).nsqd_view() == old(self).nsqd_view().handle(
                topic@,
                channel@,
                id,
                frame@,
                now,
            ).0,
            sub_answered(
                bytes_mut_seq(*old(out)),
                bytes_mut_seq(*final(out)),
                r,
                old(self).nsqd_view().handle(topic@, channel@, id, frame@, now).1,
                frame@,
                old(self).nsqd_view().topics.contains_key(topic@),
            ),
    {
        if !self.nsqd.has_channel(topic, channel) {
            let e = if self.nsqd.has_topic(topic) {
                fatal("E_INVALID", "unknown channel")
            } else {
                fatal("E_INVALID", "unknown topic")
            };
            self.fail(&e, out);
            proof {
                let n = old(self).nsqd_view();
                if n.topics.contains_key(topic@) {
                    assert(n.topics.insert(topic@, n.topics[topic@]) =~= n.topics);
                }
            }
            return (false, None);
        }
        let closing = match frame {
            FrameSub::CLS => true,
            _ => false,
        };
        match self.nsqd.handle(topic, channel, id, frame, now) {
            Ok(()) => {
                if closing {
                    let _ = Resp::send_resp("CLOSE_WAIT".as_bytes(), out);
                }
                (true, None)
            },
            Err(NsqError::AsyncChannelSendError(back)) => (true, Some(back)),
            Err(e) => {
                self.fail(&e, out);
                (true, None)
            },
        }
    }

    /// One turn of the loop that serves a connection which has not subscribed: the
    /// next command is taken off `src`, if `src` holds a whole one, and carried out
    /// at `now`; the answer is appended to `out`. Data that is no command is
    /// answered with an error report, and closes the connection. The second part of
    /// the result says whether there was a command or an error, so that another
    /// turn may find more.
    pub fn io_loop(
        &mut self,
        client: ClientV2,
        codec: &mut CodecV2,
        src: &mut BytesMut,
        now: u128,
        out: &mut BytesMut,
    ) -> (r: (Executed, bool))
        requires
            old(self).inv(),
        ensures
            final(self).inv(),
            ({
                let read = decode_spec(old(codec)@, bytes_mut_seq(*old(src)));
                &&& final(codec)@ == read.codec
                &&& bytes_mut_seq(*final(src)) == read.src
                &&& r.1 == !(read.out is Pending)
                &&& match read.out {
                    Decoded::Pending => {
                        &&& final(self).nsqd_view() == old(self).nsqd_view()
                        &&& final(self).guid_view() == old(self).guid_view()
                        &&& r.0.session@ == SessionView::Open(client@)
                        &&& r.0.spilled@.len() == 0
                        &&& bytes_mut_seq(*final(out)) == bytes_mut_seq(*old(out))
                    },
                    Decoded::Failed(f) => {
                        &&& final(self).nsqd_view() == old(self).nsqd_view()
                        &&& final(self).guid_view() == old(self).guid_view()
                        &&& r.0.session@ == SessionView::Closed
                        &&& r.0.spilled@.len() == 0
                        &&& bytes_mut_seq(*final(out)) == with_error(
                            bytes_mut_seq(*old(out)),
                            f.code + " "@ + f.desc,
                        )
                    },
                    Decoded::Frame(frame) => {
                        let step = exec_spec(old(self).state(), client@, frame, now);
                        &&& final(self).nsqd_view() == step.state.nsqd
                        &&& final(self).guid_view() == step.state.guid
                        &&& r.0.session@ == step.session
                        &&& bytes_mut_seq(*final(out)) == answered(bytes_mut_seq(*old(out)), step)
                        &&& exec_spills(r.0.spilled@, old(self).state(), frame, now)
                    },
                }
            }),
    {
        match codec.decode(src) {
            Ok(None) => (Executed { session: Session::Open(client), spilled: Vec::new() }, false),
            Ok(Some(frame)) => (self.exec(client, frame, now, out), true),
            Err(e) => {
                self.fail(&e, out);
                (Executed { session: Session::Closed, spilled: Vec::new() }, true)
            },
        }
    }

    /// One turn of the loop that serves a consumer: the next command is taken off
    /// `src`, if `src` holds a whole line, and carried out at `now` as `exec_sub`
    /// does. Data that is no command is answered with an error report, and the
    /// connection does not stay. The last part of the result says whether there was
    /// a command or an error, so that another turn may find more.
    pub fn io_loop_sub(
        &mut self,
        id: i64,
        topic: &str,
        channel: &str,
        codec: &mut CodecSubV2,
        src: &mut BytesMut,
        now: u128,
        out: &mut BytesMut,
    ) -> (r: (bool, Option<Message>, bool))
        requires
            old(self).inv(),
        ensures
            final(self).inv(),
            final(self).guid_view() == old(self).guid_view(),
            ({
                let read = sub_decode_spec(old(codec).next_index(), bytes_mut_seq(*old(src)));
                &&& final(codec).next_index() == read.next_index
                &&& bytes_mut_seq(*final(src)) == read.src
                &&& r.2 == !(read.out is Pending)
                &&& match read.out {
                    SubDecoded::Pending => {
                        &&& final(self).nsqd_view() == old(self).nsqd_view()
                        &&& r.0
                        &&& r.1 is None
                        &&& bytes_mut_seq(*final(out)) == bytes_mut_seq(*old(out))
                    },
                    SubDecoded::Failed(f) => {
                        &&& final(self).nsqd_view() == old(self).nsqd_view()
                        &&& !r.0
                        &&& r.1 is None
                        &&& bytes_mut_seq(*final(out)) == with_error(
                            bytes_mut_seq(*old(out)),
                            f.code + " "@ + f.desc,
                        )
                    },
                    SubDecoded::Frame(frame) => {
                        &&& final(self).nsqd_view() == old(self).nsqd_view().handle(
                            topic@,
                            channel@,
                            id,
                            frame,
                            now,
                        ).0
                        &&& sub_answered(
                            bytes_mut_seq(*old(out)),
                            bytes_mut_seq(*final(out)),
                            (r.0, r.1),
                            old(self).nsqd_view().handle(topic@, channel@, id, frame, now).1,
                            frame,
                            old(self).nsqd_view().topics.contains_key(topic@),
                        )
                    },
                }
            }),
    {
        match codec.decode(src) {
            Ok(None) => (true, None, false),
            Ok(Some(frame)) => {
                let (stays, back) = self.exec_sub(id, topic, channel, frame, now, out);
                (stays, back, true)
            },
            Err(e) => {
                self.fail(&e, out);
                (false, None, true)
            },
        }
    }

    /// The message pump: hands the next ready message of the channel to the
    /// consumer `id` at `now`, if the channel has one for it, and appends the frame
    /// that carries it to `out`. The result says whether a frame was appended; a
    /// message too long for a frame is handed over and stays in flight, but is not
    /// written.
    pub fn message_pump(
        &mut self,
        id: i64,
        topic: &str,
        channel: &str,
        now: u128,
        out: &mut BytesMut,
    ) -> (sent: bool)
        requires
            old(self).inv(),
        ensures
            final(self).inv(),
            final(self).guid_view() == old(self).guid_view(),
            final(self).nsqd_view() == old(self).nsqd_view().pop(topic@, channel@, id, now).0,
            match old(self).nsqd_view().pop(topic@, channel@, id, now).1 {
                Some(v) => sent == fits_frame(v.wire()) && bytes_mut_seq(*final(out)) == with_frame(
                    bytes_mut_seq(*old(out)),
                    FRAME_TYPE_MESSAGE,
                    v.wire(),
                ),
                None => !sent && bytes_mut_seq(*final(out)) == bytes_mut_seq(*old(out)),
            },
    {
        match self.nsqd.pop_ready_message_at(topic, channel, id, now) {
            Some(msg) => self.send_msg(msg, out).is_ok(),
            None => false,
        }
    }

    /// Ends a connection. Where it was a consumer, it leaves its channel, and what
    /// it held in flight is released; the result holds the released messages that
    /// the channel could not take back for want of room.
    pub fn close_session(&mut self, session: Session) -> (spilled: Vec<Message>)
        requires
            old(self).inv(),
        ensures
            final(self).inv(),
            final(self).guid_view() == old(self).guid_view(),
            match session@ {
                SessionView::Subscribed(id, t, c) => {
                    &&& final(self).nsqd_view() == old(self).nsqd_view().remove_client(t, c, id).0
                    &&& crate::message::msg_views(spilled@) == old(self).nsqd_view().remove_client(
                        t,
                        c,
                        id,
                    ).1
                },
                _ => final(self).nsqd_view() == old(self).nsqd_view() && spilled@.len() == 0,
            },
    {
        match session {
            Session::Subscribed(id, topic, channel) => self.nsqd.remove_client(
                topic.as_str(),
                channel.as_str(),
                id,
            ),
            _ => Vec::new(),
        }
    }

    /// The timeout sweep of every channel of the topic `topic` at `now`. For each
    /// channel the result holds the released messages that it could not take back.
    pub fn sweep_at(&mut self, topic: &str, now: u128) -> (out: Vec<(String, Vec<Message>)>)
        requires
            old(self).inv(),
        ensures
            final(self).inv(),
            final(self).guid_view() == old(self).guid_view(),
            final(self).nsqd_view() == old(self).nsqd_view().sweep(topic@, now),
            old(self).nsqd_view().topics.contains_key(topic@) ==> swept(
                out@,
                old(self).nsqd_view().topics[topic@].channels,
                SweepingView::Timeouts,
                now,
            ),
    {
        self.nsqd.sweep_at(topic, now)
    }

    /// Stops the broker, as `NSQD::stop` has it.
    pub fn stop(&mut self) -> (out: Vec<(String, Vec<(String, Vec<Message>)>)>)
        requires
            old(self).inv(),
        ensures
            final(self).inv(),
            final(self).nsqd_view() == old(self).nsqd_view().stop(),
            crate::nsqd::flushed(out@, old(self).nsqd_view().topics),
    {
        self.nsqd.stop()
    }
}

/// What is written for a command of a consumer, and what is returned: after a
/// command that was carried out, `CLOSE_WAIT` if it was `CLS` and nothing
/// otherwise; after one that was not, the report of why; and where there is no
/// such topic or channel, the report of that, and the connection does not stay.
pub open spec fn sub_answered(
    before: Seq<u8>,
    after: Seq<u8>,
    r: (bool, Option<Message>),
    out: Option<Handled>,
    frame: FrameSubView,
    topic_known: bool,
) -> bool {
    match out {
        Some(Handled::Done) => {
            &&& r.0
            &&& r.1 is None
            &&& after == if frame is CLS {
                with_frame(before, FRAME_TYPE_RESPONSE, encode_utf8("CLOSE_WAIT"@))
            } else {
                before
            }
        },
        Some(Handled::Spilled(m)) => {
            &&& r.0
            &&& r.1 matches Some(back)
            &&& back@ == m
            &&& after == before
        },
        Some(Handled::Failed(f)) => {
            &&& r.0
            &&& r.1 is None
            &&& after == with_error(before, f.code + " "@ + f.desc)
        },
        None => {
            &&& !r.0
            &&& r.1 is None
            &&& after == with_error(
                before,
                "E_INVALID"@ + " "@ + if topic_known {
                    "unknown channel"@
                } else {
                    "unknown topic"@
                },
            )
        },
    }
}

} // verus!
