use bytes::{Bytes, BytesMut};
use nsqd_core::client_v2::{Client, ClientV2, State};
use nsqd_core::errors::NsqError;
use nsqd_core::message::{Message, MessageID};
use nsqd_core::nsqd::NSQD;
use nsqd_core::options::Options;
use nsqd_core::protocol::codec_sub_v2::CodecSubV2;
use nsqd_core::protocol::codec_v2::CodecV2;
use nsqd_core::protocol::frame_v2::{Frame, FrameSub};
use nsqd_core::protocol_v2::{FrameType, ProtocolV2, Session};
use nsqd_core::shutdown::Shutdown;
use nsqd_core::topic::Topic;

const T0: u128 = 1_700_000_000_000_000_000;
const MS: u128 = 1_000_000;

fn opts() -> Options {
    let mut o = Options::new();
    o.mem_queue_size = 4;
    o.max_channel_subscribers = 2;
    o.msg_timeout = 1000;
    o
}

fn mid(n: u8) -> MessageID {
    let mut id = *b"00000000000000m0";
    id[15] = b'0' + n;
    id
}

fn msg(n: u8) -> Message {
    Message::new_at(mid(n), Bytes::from(vec![n]), 7)
}

fn subscriber(cid: i64) -> Client {
    let mut c = ClientV2::new(cid, "10.0.0.1:4000".to_string(), &opts(), T0);
    c.subscribe().unwrap();
    Client::V2(c)
}

fn response(payload: &[u8]) -> Vec<u8> {
    let mut v = Vec::new();
    v.extend_from_slice(&((payload.len() + 4) as u32).to_be_bytes());
    v.extend_from_slice(&0u32.to_be_bytes());
    v.extend_from_slice(payload);
    v
}

fn error_frame(payload: &[u8]) -> Vec<u8> {
    let mut v = Vec::new();
    v.extend_from_slice(&((payload.len() + 4) as u32).to_be_bytes());
    v.extend_from_slice(&1u32.to_be_bytes());
    v.extend_from_slice(payload);
    v
}

#[test]
fn topic_fans_out_to_every_channel() {
    let mut t = Topic::new("orders".to_string(), opts());
    t.add_channel("mail".to_string(), subscriber(1)).unwrap();
    t.add_channel("audit".to_string(), subscriber(2)).unwrap();
    let mut names = t.channel_names();
    names.sort();
    assert_eq!(names, vec!["audit".to_string(), "mail".to_string()]);
    let left = t.put_msg_at(msg(1), T0).unwrap();
    assert_eq!(left.len(), 2);
    assert!(left.iter().all(|(_, spilled)| spilled.is_empty()));
    t.handle("mail", 1, FrameSub::RDY(1), T0).unwrap();
    t.handle("audit", 2, FrameSub::RDY(1), T0).unwrap();
    assert_eq!(t.pop_ready_message_at("mail", 1, T0).unwrap().id(), mid(1));
    assert_eq!(t.pop_ready_message_at("audit", 2, T0).unwrap().id(), mid(1));
    assert!(t.pop_ready_message_at("mail", 1, T0).is_none());
    assert!(t.pop_ready_message_at("nowhere", 1, T0).is_none());
}

#[test]
fn topic_add_channel_is_idempotent() {
    let mut t = Topic::new("orders".to_string(), opts());
    t.add_channel("mail".to_string(), subscriber(1)).unwrap();
    t.put_msg_at(msg(1), T0).unwrap();
    // the channel is there: adding it again succeeds and touches nothing
    assert!(t.add_channel("mail".to_string(), subscriber(2)).is_ok());
    assert_eq!(t.channel_names(), vec!["mail".to_string()]);
    // the second client was not attached
    assert_eq!(
        match t.handle("mail", 2, FrameSub::RDY(1), T0) {
            Err(NsqError::FatalClientErr(code, _)) => code,
            other => panic!("unexpected: {:?}", other),
        },
        "E_INVALID"
    );
    assert!(t.pop_ready_message_at("mail", 2, T0).is_none());
    // and the first consumer and the message are still there
    t.handle("mail", 1, FrameSub::RDY(1), T0).unwrap();
    assert_eq!(t.pop_ready_message_at("mail", 1, T0).unwrap().id(), mid(1));
}

#[test]
fn topic_add_channel_again_succeeds_whatever_the_state() {
    let mut o = opts();
    o.max_channel_subscribers = 1;
    let mut t = Topic::new("orders".to_string(), o);
    t.add_channel("mail".to_string(), subscriber(1)).unwrap();
    // the channel is full: adding it again is still no failure
    assert!(t.add_channel("mail".to_string(), subscriber(2)).is_ok());
    t.close();
    // nor is it on a closed topic
    assert!(t.add_channel("mail".to_string(), subscriber(3)).is_ok());
    assert!(matches!(t.add_channel("other".to_string(), subscriber(3)), Err(NsqError::Exiting)));
}

#[test]
fn topic_add_channel_does_not_keep_a_channel_that_refuses() {
    let mut o = opts();
    o.max_channel_subscribers = 0;
    let mut t = Topic::new("orders".to_string(), o);
    assert!(matches!(
        t.add_channel("mail".to_string(), subscriber(1)),
        Err(NsqError::MaxSubscriberReached(0))
    ));
    assert!(!t.has_channel("mail"));
}

#[test]
fn topic_subscribe_attaches_to_the_channel_that_is_there() {
    let mut t = Topic::new("orders".to_string(), opts());
    t.subscribe("mail".to_string(), subscriber(1)).unwrap();
    t.put_msg_at(msg(1), T0).unwrap();
    // a second consumer of the same channel: the channel and what it holds stay
    t.subscribe("mail".to_string(), subscriber(2)).unwrap();
    assert_eq!(t.channel_names(), vec!["mail".to_string()]);
    t.handle("mail", 2, FrameSub::RDY(1), T0).unwrap();
    assert_eq!(t.pop_ready_message_at("mail", 2, T0).unwrap().id(), mid(1));
    // the channel is full now
    assert!(matches!(
        t.subscribe("mail".to_string(), subscriber(3)),
        Err(NsqError::MaxSubscriberReached(2))
    ));
    t.close();
    assert!(matches!(t.subscribe("mail".to_string(), subscriber(1)), Err(NsqError::Exiting)));
}

#[test]
fn topic_reports_what_a_full_channel_could_not_take() {
    let mut o = opts();
    o.mem_queue_size = 1;
    let mut t = Topic::new("orders".to_string(), o);
    t.add_channel("mail".to_string(), subscriber(1)).unwrap();
    t.put_msg_at(msg(1), T0).unwrap();
    let left = t.put_msg_at(msg(2), T0).unwrap();
    assert_eq!(left.len(), 1);
    assert_eq!(left[0].0, "mail");
    assert_eq!(left[0].1.len(), 1);
    assert_eq!(left[0].1[0].id(), mid(2));
}

#[test]
fn topic_close_refuses_publishes_and_channels() {
    let mut t = Topic::new("orders".to_string(), opts());
    t.add_channel("mail".to_string(), subscriber(1)).unwrap();
    t.put_msg_at(msg(1), T0).unwrap();
    let flushed = t.close();
    assert_eq!(flushed.len(), 1);
    assert_eq!(flushed[0].0, "mail");
    assert_eq!(flushed[0].1.len(), 1);
    assert!(t.exiting());
    assert!(matches!(t.put_msg_at(msg(2), T0), Err(NsqError::Exiting)));
    assert!(matches!(t.put_msg(msg(2)), Err(NsqError::Exiting)));
    assert!(matches!(t.add_channel("other".to_string(), subscriber(2)), Err(NsqError::Exiting)));
    assert!(!t.has_channel("other"));
}

#[test]
fn topic_sweep_and_unknown_channel() {
    let mut t = Topic::new("orders".to_string(), opts());
    t.add_channel("mail".to_string(), subscriber(1)).unwrap();
    t.put_msg_at(msg(1), T0).unwrap();
    t.handle("mail", 1, FrameSub::RDY(1), T0).unwrap();
    t.pop_ready_message_at("mail", 1, T0).unwrap();
    let left = t.sweep_at(T0 + 1000 * MS);
    assert_eq!(left.len(), 1);
    assert!(left[0].1.is_empty());
    t.handle("mail", 1, FrameSub::RDY(1), T0).unwrap();
    assert_eq!(t.pop_ready_message_at("mail", 1, T0).unwrap().attempts(), 1);
    match t.handle("nope", 1, FrameSub::NOP, T0) {
        Err(NsqError::FatalClientErr(code, desc)) => {
            assert_eq!(code, "E_INVALID");
            assert_eq!(desc, "unknown channel");
        }
        other => panic!("unexpected: {:?}", other),
    }
    assert!(t.remove_client("nope", 1).is_empty());
}

#[test]
fn publish_without_channels_is_discarded() {
    // publish m1 to T with no channels registered: it succeeds, and m1 is gone
    let mut n = NSQD::new(opts(), T0);
    let left = n.publish_msg_at("T".to_string() + "opic", msg(1), T0).unwrap();
    assert!(left.is_empty());
    assert!(n.has_topic("Topic"));
    // a channel that subscribes afterwards does not see m1
    n.subscribe("Topic".to_string(), "G1".to_string(), subscriber(1)).unwrap();
    n.handle("Topic", "G1", 1, FrameSub::RDY(1), T0).unwrap();
    assert!(n.pop_ready_message_at("Topic", "G1", 1, T0).is_none());
    // but it sees what is published from then on
    n.publish_msg_at("Topic".to_string(), msg(2), T0).unwrap();
    assert_eq!(n.pop_ready_message_at("Topic", "G1", 1, T0).unwrap().id(), mid(2));
}

#[test]
fn subscribe_publish_ready_receive_finish() {
    let mut n = NSQD::new(opts(), T0);
    n.subscribe("Topic".to_string(), "G1".to_string(), subscriber(1)).unwrap();
    n.publish_msg_at("Topic".to_string(), msg(2), T0).unwrap();
    // no credit yet
    assert!(n.pop_ready_message_at("Topic", "G1", 1, T0).is_none());
    n.handle("Topic", "G1", 1, FrameSub::RDY(1), T0).unwrap();
    let m2 = n.pop_ready_message_at("Topic", "G1", 1, T0).unwrap();
    assert_eq!(m2.id(), mid(2));
    assert_eq!(&m2.body()[..], &[2u8]);
    n.handle("Topic", "G1", 1, FrameSub::FIN(m2.id()), T0).unwrap();
    // the in-flight table no longer holds m2: a second FIN finds nothing
    match n.handle("Topic", "G1", 1, FrameSub::FIN(m2.id()), T0) {
        Err(NsqError::FatalClientErr(code, _)) => assert_eq!(code, "E_FIN_FAILED"),
        other => panic!("unexpected: {:?}", other),
    }
    // and nothing comes back after the timeout
    assert!(n.sweep_at("Topic", T0 + 5000 * MS)[0].1.is_empty());
    n.handle("Topic", "G1", 1, FrameSub::RDY(1), T0).unwrap();
    assert!(n.pop_ready_message_at("Topic", "G1", 1, T0 + 5000 * MS).is_none());
}

#[test]
fn disconnect_requeues_what_was_in_flight() {
    let mut n = NSQD::new(opts(), T0);
    n.subscribe("Topic".to_string(), "G1".to_string(), subscriber(1)).unwrap();
    n.publish_msg_at("Topic".to_string(), msg(3), T0).unwrap();
    n.handle("Topic", "G1", 1, FrameSub::RDY(1), T0).unwrap();
    assert_eq!(n.pop_ready_message_at("Topic", "G1", 1, T0).unwrap().id(), mid(3));
    // c1 disconnects without FIN or REQ
    assert!(n.remove_client("Topic", "G1", 1).is_empty());
    // m3 is ready again, for whoever comes next
    n.subscribe("Topic".to_string(), "G1".to_string(), subscriber(2)).unwrap();
    n.handle("Topic", "G1", 2, FrameSub::RDY(1), T0).unwrap();
    let again = n.pop_ready_message_at("Topic", "G1", 2, T0).unwrap();
    assert_eq!(again.id(), mid(3));
    assert_eq!(again.attempts(), 1);
}

#[test]
fn broker_stop_closes_everything() {
    let mut n = NSQD::new(opts(), T0);
    n.subscribe("Topic".to_string(), "G1".to_string(), subscriber(1)).unwrap();
    n.publish_msg_at("Topic".to_string(), msg(1), T0).unwrap();
    n.publish_msg_at("Other".to_string(), msg(2), T0).unwrap();
    let mut names = n.topic_names();
    names.sort();
    assert_eq!(names, vec!["Other".to_string(), "Topic".to_string()]);
    let flushed = n.stop();
    assert_eq!(flushed.len(), 2);
    let topic = flushed.iter().find(|(name, _)| name == "Topic").unwrap();
    assert_eq!(topic.1.len(), 1);
    assert_eq!(topic.1[0].1.len(), 1);
    assert!(n.exiting());
    assert!(matches!(n.publish_msg_at("Topic".to_string(), msg(3), T0), Err(NsqError::Exiting)));
    assert!(matches!(n.publish_msg("Topic".to_string(), msg(3)), Err(NsqError::Exiting)));
    assert!(matches!(
        n.subscribe("Topic".to_string(), "G2".to_string(), subscriber(2)),
        Err(NsqError::Exiting)
    ));
}

#[test]
fn broker_names_connections_and_messages() {
    let mut n = NSQD::new(opts(), T0);
    assert_eq!(n.next_client_id(), 1);
    assert_eq!(n.next_client_id(), 2);
    assert_eq!(n.get_opts().msg_timeout, 1000);
    assert_eq!(n.start_time(), T0);
    let a = n.create_message_at(Bytes::from_static(b"a"), T0).unwrap();
    let b = n.create_message_at(Bytes::from_static(b"b"), T0).unwrap();
    assert!(a.id() < b.id());
    assert_eq!(a.timestamp(), T0 as u64);
    assert!(a.id().iter().all(|c| c.is_ascii_hexdigit()));
    assert!(n.create_message(Bytes::new()).is_ok());
    assert!(!n.has_channel("Topic", "G1"));
}

#[test]
fn protocol_publishes_and_answers_ok() {
    let mut p = ProtocolV2::new(NSQD::new(opts(), T0));
    let client = match p.connect("10.0.0.9:1".to_string(), T0) {
        Session::Open(c) => c,
        other => panic!("unexpected: {:?}", other),
    };
    assert_eq!(client.id(), 1);
    assert_eq!(client.state(), State::Init);
    assert_eq!(client.heartbeat_interval(), 30000);

    // a consumer, to see what gets published
    let sub = match p.connect("10.0.0.9:2".to_string(), T0) {
        Session::Open(c) => c,
        other => panic!("unexpected: {:?}", other),
    };
    let mut out = BytesMut::new();
    let done = p.exec(sub, Frame::SUB("Topic".into(), "G1".into()), T0, &mut out);
    assert!(matches!(done.session, Session::Subscribed(2, _, _)));
    assert_eq!(&out[..], &response(b"OK")[..]);

    let mut out = BytesMut::new();
    let done = p.exec(client, Frame::PUB("Topic".into(), Bytes::from_static(b"one")), T0, &mut out);
    assert_eq!(&out[..], &response(b"OK")[..]);
    assert_eq!(done.spilled.len(), 1);
    let client = match done.session {
        Session::Open(c) => c,
        other => panic!("unexpected: {:?}", other),
    };
    let done = p.exec(client, Frame::NOP, T0, &mut out);
    assert_eq!(&out[..], &response(b"OK")[..]);
    let client = match done.session {
        Session::Open(c) => c,
        other => panic!("unexpected: {:?}", other),
    };
    let bodies = vec![Bytes::from_static(b"two"), Bytes::from_static(b"three")];
    let done = p.exec(client, Frame::MPUB("Topic".into(), bodies), T0, &mut out);
    assert_eq!(done.spilled.len(), 2);
    let client = match done.session {
        Session::Open(c) => c,
        other => panic!("unexpected: {:?}", other),
    };
    let done = p.exec(client, Frame::DPUB("Topic".into(), 100, Bytes::from_static(b"late")), T0, &mut out);
    assert!(matches!(done.session, Session::Open(_)));

    let (stays, _) = p.exec_sub(2, "Topic", "G1", FrameSub::RDY(10), T0, &mut out);
    assert!(stays);
    let mut seen = Vec::new();
    let mut wire = BytesMut::new();
    while p.message_pump(2, "Topic", "G1", T0 + 50 * MS, &mut wire) {
        let size = u32::from_be_bytes(wire[..4].try_into().unwrap()) as usize;
        assert_eq!(&wire[4..8], &2u32.to_be_bytes());
        let m = Message::decode(wire.split_to(4 + size).freeze().slice(8..)).unwrap();
        seen.push(m.body().to_vec());
    }
    assert_eq!(seen, vec![b"one".to_vec(), b"two".to_vec(), b"three".to_vec()]);
    assert!(p.message_pump(2, "Topic", "G1", T0 + 100 * MS, &mut wire));
    assert_eq!(&wire[34..], b"late");
}

#[test]
fn protocol_subscribes_once() {
    let mut p = ProtocolV2::new(NSQD::new(opts(), T0));
    let mut c = ClientV2::new(9, "a".to_string(), &opts(), T0);
    c.identify().unwrap();
    assert!(c.identify().is_err());
    c.subscribe().unwrap();
    let mut out = BytesMut::new();
    let done = p.exec(c, Frame::SUB("Topic".into(), "G1".into()), T0, &mut out);
    assert!(matches!(done.session, Session::Closed));
    assert_eq!(&out[..], &error_frame(b"E_INVALID cannot SUB in current state")[..]);
    assert!(!p.nsqd().has_topic("Topic"));
}

#[test]
fn protocol_reports_a_full_channel() {
    let mut o = opts();
    o.max_channel_subscribers = 1;
    let mut p = ProtocolV2::new(NSQD::new(o, T0));
    let mut out = BytesMut::new();
    for n in 0..2 {
        let c = match p.connect("a".to_string(), T0) {
            Session::Open(c) => c,
            other => panic!("unexpected: {:?}", other),
        };
        out.clear();
        let done = p.exec(c, Frame::SUB("Topic".into(), "G1".into()), T0, &mut out);
        if n == 0 {
            assert!(matches!(done.session, Session::Subscribed(1, _, _)));
        } else {
            // refused for now; the connection stays as it was and may try again
            match done.session {
                Session::Open(c) => {
                    assert_eq!(c.id(), 2);
                    assert_eq!(c.state(), State::Init);
                }
                other => panic!("unexpected: {:?}", other),
            }
        }
    }
    assert_eq!(
        &out[..],
        &error_frame(b"The number of subscribers has reached its limit: 1")[..]
    );
}

#[test]
fn protocol_consumer_commands() {
    let mut p = ProtocolV2::new(NSQD::new(opts(), T0));
    let mut n = p.into_nsqd();
    n.subscribe("Topic".to_string(), "G1".to_string(), subscriber(1)).unwrap();
    n.publish_msg_at("Topic".to_string(), msg(1), T0).unwrap();
    p = ProtocolV2::new(n);
    let mut out = BytesMut::new();
    assert_eq!(p.exec_sub(1, "Topic", "G1", FrameSub::RDY(1), T0, &mut out).0, true);
    assert!(p.message_pump(1, "Topic", "G1", T0, &mut out));
    out.clear();
    // a wrong identifier is reported, and the connection stays
    let (stays, _) = p.exec_sub(1, "Topic", "G1", FrameSub::FIN(mid(9)), T0, &mut out);
    assert!(stays);
    assert_eq!(
        &out[..],
        &error_frame(b"E_FIN_FAILED FIN failed: message is not in flight for this consumer")[..]
    );
    out.clear();
    assert!(p.exec_sub(1, "Topic", "G1", FrameSub::TOUCH(mid(1)), T0, &mut out).0);
    assert!(p.exec_sub(1, "Topic", "G1", FrameSub::REQ(mid(1), 0), T0, &mut out).0);
    assert!(p.exec_sub(1, "Topic", "G1", FrameSub::NOP, T0, &mut out).0);
    assert!(out.is_empty());
    assert!(p.exec_sub(1, "Topic", "G1", FrameSub::CLS, T0, &mut out).0);
    assert_eq!(&out[..], &response(b"CLOSE_WAIT")[..]);
    out.clear();
    assert!(!p.exec_sub(1, "Topic", "G9", FrameSub::NOP, T0, &mut out).0);
    assert_eq!(&out[..], &error_frame(b"E_INVALID unknown channel")[..]);
    out.clear();
    assert!(!p.exec_sub(1, "T9", "G1", FrameSub::NOP, T0, &mut out).0);
    assert_eq!(&out[..], &error_frame(b"E_INVALID unknown topic")[..]);
    assert!(p.close_session(Session::Subscribed(1, "Topic".into(), "G1".into())).is_empty());
    assert!(p.close_session(Session::Closed).is_empty());
    assert!(p.sweep_at("Topic", T0).len() == 1);
    assert_eq!(p.stop().len(), 1);
}

#[test]
fn malformed_command_gets_a_fatal_error_frame() {
    let p = ProtocolV2::new(NSQD::new(opts(), T0));
    let mut codec = CodecV2::new();
    let mut src = BytesMut::from(&b"PUBX topic\n"[..]);
    let mut out = BytesMut::new();
    let err = codec.decode(&mut src).unwrap_err();
    assert!(matches!(err, NsqError::FatalClientErr(_, _)));
    assert_eq!(err.message(), "E_BAD_CMD Invalid command");
    p.fail(&err, &mut out);
    assert_eq!(&out[..], &error_frame(b"E_BAD_CMD Invalid command")[..]);

    let mut codec = CodecSubV2::new();
    let mut src = BytesMut::from(&b"PUBX topic\n"[..]);
    assert!(matches!(codec.decode(&mut src), Err(NsqError::FatalClientErr(_, _))));
}

#[test]
fn protocol_frames() {
    let p = ProtocolV2::new(NSQD::new(opts(), T0));
    let mut out = BytesMut::new();
    p.heartbeat(&mut out);
    assert_eq!(&out[..], &response(b"_heartbeat_")[..]);
    out.clear();
    assert_eq!(p.send(FrameType::Message, b"abc", &mut out).unwrap(), 11);
    assert_eq!(&out[..], b"\x00\x00\x00\x07\x00\x00\x00\x02abc");
    out.clear();
    assert_eq!(p.send(FrameType::Error, b"E", &mut out).unwrap(), 9);
    assert_eq!(&out[..], &error_frame(b"E")[..]);
    out.clear();
    assert_eq!(p.send(FrameType::Response, b"OK", &mut out).unwrap(), 10);
    assert_eq!(FrameType::Response.code(), 0);
    assert_eq!(FrameType::Error.code(), 1);
    assert_eq!(FrameType::Message.code(), 2);
    out.clear();
    p.send_msg(msg(1), &mut out).unwrap();
    assert_eq!(out.len(), 8 + 26 + 1);
}

#[test]
fn error_messages() {
    assert_eq!(NsqError::Exiting.message(), "NSQD is on the way out");
    assert_eq!(NsqError::InvalidMsgLength.message(), "Invalid message size");
    assert_eq!(NsqError::DiskQueueNotImplement.message(), "NSQD Disk queue is not implement");
    assert_eq!(
        NsqError::MaxSubscriberReached(120).message(),
        "The number of subscribers has reached its limit: 120"
    );
    assert_eq!(NsqError::AsyncChannelSendError(msg(1)).message(), "Async channel send error");
    assert_eq!(NsqError::TopicMsgSendError(msg(1)).message(), "Failed to send msgs to topic");
    assert_eq!(
        NsqError::FatalClientErr("E_X".into(), "why".into()).message(),
        "E_X why"
    );
}

#[test]
fn shutdown_flag() {
    let mut s = Shutdown::new();
    assert!(!s.is_shutdown());
    s.notified();
    assert!(s.is_shutdown());
    s.notified();
    assert!(s.is_shutdown());
}

#[test]
fn io_loop_closes_on_a_malformed_command() {
    let mut p = ProtocolV2::new(NSQD::new(opts(), T0));
    let client = match p.connect("10.0.0.9:1".to_string(), T0) {
        Session::Open(c) => c,
        other => panic!("unexpected: {:?}", other),
    };
    let mut codec = CodecV2::new();
    let mut src = BytesMut::from(&b"NOP\nPUBX topic\nNOP\n"[..]);
    let mut out = BytesMut::new();
    let (done, progress) = p.io_loop(client, &mut codec, &mut src, T0, &mut out);
    assert!(progress);
    assert!(out.is_empty());
    let client = match done.session {
        Session::Open(c) => c,
        other => panic!("unexpected: {:?}", other),
    };
    let (done, progress) = p.io_loop(client, &mut codec, &mut src, T0, &mut out);
    assert!(progress);
    assert!(matches!(done.session, Session::Closed));
    assert_eq!(&out[..], &error_frame(b"E_BAD_CMD Invalid command")[..]);
}

#[test]
fn io_loop_waits_for_the_rest() {
    let mut p = ProtocolV2::new(NSQD::new(opts(), T0));
    let client = ClientV2::new(1, "a".to_string(), &opts(), T0);
    let mut codec = CodecV2::new();
    let mut src = BytesMut::from(&b"PUB Topic\n\x00\x00\x00\x02h"[..]);
    let mut out = BytesMut::new();
    let (done, progress) = p.io_loop(client, &mut codec, &mut src, T0, &mut out);
    assert!(!progress);
    assert!(out.is_empty());
    src.extend_from_slice(b"i");
    let client = match done.session {
        Session::Open(c) => c,
        other => panic!("unexpected: {:?}", other),
    };
    let (done, progress) = p.io_loop(client, &mut codec, &mut src, T0, &mut out);
    assert!(progress);
    assert_eq!(&out[..], &response(b"OK")[..]);
    match done.session {
        Session::Open(c) => {
            assert_eq!(c.pub_count("Topic"), 1);
            assert_eq!(c.pub_count("Other"), 0);
        }
        other => panic!("unexpected: {:?}", other),
    }
    assert!(p.nsqd().has_topic("Topic"));
}

#[test]
fn io_loop_of_a_consumer() {
    let mut n = NSQD::new(opts(), T0);
    n.subscribe("Topic".to_string(), "G1".to_string(), subscriber(1)).unwrap();
    n.publish_msg_at("Topic".to_string(), msg(1), T0).unwrap();
    let mut p = ProtocolV2::new(n);
    let mut codec = CodecSubV2::new();
    let mut src = BytesMut::from(&b"RDY 1\nFIN 00000000000000m1\nBOGUS\n"[..]);
    let mut out = BytesMut::new();
    assert_eq!(p.io_loop_sub(1, "Topic", "G1", &mut codec, &mut src, T0, &mut out).0, true);
    assert!(p.message_pump(1, "Topic", "G1", T0, &mut out));
    out.clear();
    let (stays, back, progress) = p.io_loop_sub(1, "Topic", "G1", &mut codec, &mut src, T0, &mut out);
    assert!(stays && back.is_none() && progress);
    assert!(out.is_empty());
    let (stays, _, progress) = p.io_loop_sub(1, "Topic", "G1", &mut codec, &mut src, T0, &mut out);
    assert!(!stays && progress);
    assert_eq!(&out[..], &error_frame(b"E_BAD_CMD Invalid command")[..]);
    let (stays, _, progress) = p.io_loop_sub(1, "Topic", "G1", &mut codec, &mut src, T0, &mut out);
    assert!(stays && !progress);
}

#[test]
fn client_counters() {
    let mut c = ClientV2::new(4, "10.1.1.1:9".to_string(), &opts(), T0);
    assert_eq!(c.addr(), "10.1.1.1:9");
    assert_eq!(c.connect_time(), T0);
    assert_eq!(c.output_buffer_size(), 16384);
    assert_eq!(c.output_buffer_timeout(), 250);
    assert_eq!(c.msg_timeout(), 1000);
    assert!(c.set_ready(1).is_err());
    assert!(c.start_close().is_err());
    c.subscribe().unwrap();
    assert!(c.subscribe().is_err());
    c.set_ready(2).unwrap();
    assert!(c.is_ready());
    c.sending_msg();
    c.sending_msg();
    assert!(!c.is_ready());
    assert_eq!((c.ready_count(), c.in_flight_count(), c.message_count()), (0, 2, 2));
    c.finished_msg();
    c.requeue_msg();
    assert_eq!((c.in_flight_count(), c.finish_count(), c.requeue_count()), (0, 1, 1));
    c.timed_out_msg();
    assert_eq!(c.in_flight_count(), -1);
    c.published_msg("a", 2);
    c.published_msg("b", 1);
    c.published_msg("a", u64::MAX);
    assert_eq!((c.pub_count("a"), c.pub_count("b"), c.pub_count("c")), (1, 1, 0));
    c.start_close().unwrap();
    assert_eq!(c.state(), State::Closing);
    c.close();
    assert_eq!(c.state(), State::Closing);
}

#[test]
fn a_refused_publication_leaves_the_connection_open() {
    let mut n = NSQD::new(opts(), T0);
    n.stop();
    let mut p = ProtocolV2::new(n);
    let client = ClientV2::new(1, "a".to_string(), &opts(), T0);
    let mut out = BytesMut::new();
    let done = p.exec(client, Frame::PUB("Topic".into(), Bytes::from_static(b"x")), T0, &mut out);
    assert_eq!(&out[..], &error_frame(b"NSQD is on the way out")[..]);
    assert!(done.spilled.is_empty());
    match done.session {
        Session::Open(c) => assert_eq!(c.pub_count("Topic"), 0),
        other => panic!("unexpected: {:?}", other),
    }
}

#[test]
fn a_publication_without_identifier_leaves_the_connection_open() {
    let mut p = ProtocolV2::new(NSQD::new(opts(), T0));
    let mut client = ClientV2::new(1, "a".to_string(), &opts(), T0);
    let mut out = BytesMut::new();
    // 4096 identifiers are all that one tick of the clock has
    for _ in 0..4096 {
        let done = p.exec(client, Frame::PUB("Topic".into(), Bytes::new()), T0, &mut out);
        client = match done.session {
            Session::Open(c) => c,
            other => panic!("unexpected: {:?}", other),
        };
    }
    assert_eq!(client.pub_count("Topic"), 4096);
    out.clear();
    let done = p.exec(client, Frame::PUB("Topic".into(), Bytes::new()), T0, &mut out);
    assert_eq!(&out[..], &error_frame(b"E_PUB_FAILED PUB failed: no message identifier")[..]);
    let client = match done.session {
        Session::Open(c) => c,
        other => panic!("unexpected: {:?}", other),
    };
    assert_eq!(client.pub_count("Topic"), 4096);
    // a tick later the publisher gets through again
    out.clear();
    let done = p.exec(client, Frame::PUB("Topic".into(), Bytes::new()), T0 + (1 << 20), &mut out);
    assert_eq!(&out[..], &response(b"OK")[..]);
    assert!(matches!(done.session, Session::Open(_)));
}

#[test]
fn auth_ends_the_connection() {
    let mut p = ProtocolV2::new(NSQD::new(opts(), T0));
    let client = ClientV2::new(1, "a".to_string(), &opts(), T0);
    let mut out = BytesMut::new();
    let done = p.exec(client, Frame::AUTH(Bytes::new()), T0, &mut out);
    assert!(matches!(done.session, Session::Closed));
    assert_eq!(&out[..], &error_frame(b"E_INVALID AUTH is not supported")[..]);
}

#[test]
fn client_record_can_be_copied() {
    let mut c = ClientV2::new(4, "10.1.1.1:9".to_string(), &opts(), T0);
    c.subscribe().unwrap();
    c.set_ready(u64::MAX).unwrap();
    c.published_msg("a", 2);
    c.published_msg("b", 5);
    let d = c.clone();
    assert_eq!(d.id(), 4);
    assert_eq!(d.addr(), "10.1.1.1:9");
    assert_eq!(d.state(), State::Subscribed);
    assert_eq!(d.ready_count(), u64::MAX);
    assert_eq!((d.pub_count("a"), d.pub_count("b")), (2, 5));
}
