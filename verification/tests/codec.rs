use bytes::{Bytes, BytesMut};
use nsqd_core::command::{
    parse_dpub, parse_fin, parse_mpub, parse_pub, parse_rdy, parse_req, parse_sub, parse_touch,
    read_timeout, Error,
};
use nsqd_core::errors::NsqError;
use nsqd_core::message::Message;
use nsqd_core::protocol::codec_sub_v2::CodecSubV2;
use nsqd_core::protocol::codec_v2::CodecV2;
use nsqd_core::protocol::frame_v2::{Frame, FrameSub};
use nsqd_core::protocol::Codec;
use nsqd_core::response::Resp;

fn first<C: Codec<Resp>>(codec: &mut C, wire: &[u8]) -> Option<C::Item> {
    let mut src = BytesMut::from(wire);
    let mut dst = BytesMut::new();
    codec.encode(Resp::Error(Bytes::from_static(b"E")), &mut dst).unwrap();
    assert_eq!(&dst[..], b"\x00\x00\x00\x05\x00\x00\x00\x01E");
    codec.decode(&mut src).unwrap()
}

fn fatal_parts(e: NsqError) -> (String, String) {
    match e {
        NsqError::FatalClientErr(code, desc) => (code, desc),
        other => panic!("not a fatal client error: {:?}", other),
    }
}

#[test]
fn decode_nop() {
    let mut codec = CodecV2::new();
    let mut src = BytesMut::from(&b"NOP\nrest"[..]);
    assert!(matches!(codec.decode(&mut src), Ok(Some(Frame::NOP))));
    assert_eq!(&src[..], b"rest");
}

#[test]
fn decode_pub_in_one_piece() {
    let mut codec = CodecV2::new();
    let mut src = BytesMut::from(&b"PUB topic\n\x00\x00\x00\x05hello"[..]);
    match codec.decode(&mut src) {
        Ok(Some(Frame::PUB(topic, body))) => {
            assert_eq!(topic, "topic");
            assert_eq!(&body[..], b"hello");
        }
        other => panic!("unexpected: {:?}", other),
    }
    assert!(src.is_empty());
}

#[test]
fn decode_pub_byte_by_byte() {
    let wire = b"PUB my.topic#ephemeral\n\x00\x00\x00\x03abcNOP\n";
    let mut codec = CodecV2::new();
    let mut src = BytesMut::new();
    let mut frames = Vec::new();
    for b in wire.iter() {
        src.extend_from_slice(&[*b]);
        while let Some(f) = codec.decode(&mut src).unwrap() {
            frames.push(f);
        }
    }
    assert_eq!(frames.len(), 2);
    match &frames[0] {
        Frame::PUB(topic, body) => {
            assert_eq!(topic, "my.topic#ephemeral");
            assert_eq!(&body[..], b"abc");
        }
        other => panic!("unexpected: {:?}", other),
    }
    assert!(matches!(frames[1], Frame::NOP));
    assert!(src.is_empty());
}

#[test]
fn decode_dpub() {
    let mut codec = CodecV2::new();
    let mut src = BytesMut::from(&b"DPUB topic 1500\n\x00\x00\x00\x02hi"[..]);
    match codec.decode(&mut src) {
        Ok(Some(Frame::DPUB(topic, ms, body))) => {
            assert_eq!(topic, "topic");
            assert_eq!(ms, 1500);
            assert_eq!(&body[..], b"hi");
        }
        other => panic!("unexpected: {:?}", other),
    }
}

#[test]
fn decode_dpub_bad_delay() {
    let mut codec = CodecV2::new();
    let mut src = BytesMut::from(&b"DPUB topic -5\n"[..]);
    let (code, desc) = fatal_parts(codec.decode(&mut src).unwrap_err());
    assert_eq!(code, "E_INVALID");
    assert_eq!(desc, "Invalid message timeout");
}

#[test]
fn decode_mpub_in_pieces() {
    let mut codec = CodecV2::new();
    let mut src = BytesMut::from(&b"MPUB topic\n\x00\x00\x00\x12\x00\x00"[..]);
    assert!(matches!(codec.decode(&mut src), Ok(None)));
    src.extend_from_slice(b"\x00\x02\x00\x00\x00\x01a\x00\x00");
    assert!(matches!(codec.decode(&mut src), Ok(None)));
    assert_eq!(&src[..], b"\x00\x00");
    src.extend_from_slice(b"\x00\x02bcNOP\n");
    match codec.decode(&mut src) {
        Ok(Some(Frame::MPUB(topic, bodies))) => {
            assert_eq!(topic, "topic");
            assert_eq!(bodies.len(), 2);
            assert_eq!(&bodies[0][..], b"a");
            assert_eq!(&bodies[1][..], b"bc");
        }
        other => panic!("unexpected: {:?}", other),
    }
    assert!(matches!(codec.decode(&mut src), Ok(Some(Frame::NOP))));
}

#[test]
fn decode_mpub_zero_count() {
    let mut codec = CodecV2::new();
    let mut src = BytesMut::from(&b"MPUB topic\n\x00\x00\x00\x10\x00\x00\x00\x00"[..]);
    let (code, desc) = fatal_parts(codec.decode(&mut src).unwrap_err());
    assert_eq!(code, "E_BAD_BODY");
    assert_eq!(desc, "MPUB invalid message count");
}

#[test]
fn decode_mpub_small_total() {
    let mut codec = CodecV2::new();
    let mut src = BytesMut::from(&b"MPUB topic\n\x00\x00\x00\x08\x00\x00\x00\x01"[..]);
    let (code, desc) = fatal_parts(codec.decode(&mut src).unwrap_err());
    assert_eq!(code, "E_BAD_BODY");
    assert_eq!(desc, "MPUB invalid total message size");
}

#[test]
fn decode_sub() {
    let mut codec = CodecV2::new();
    let mut src = BytesMut::from(&b"SUB topic chan\n"[..]);
    match codec.decode(&mut src) {
        Ok(Some(Frame::SUB(topic, channel))) => {
            assert_eq!(topic, "topic");
            assert_eq!(channel, "chan");
        }
        other => panic!("unexpected: {:?}", other),
    }
}

#[test]
fn decode_bad_topic_name() {
    let mut codec = CodecV2::new();
    let mut src = BytesMut::from(&b"PUB t\n"[..]);
    let (code, desc) = fatal_parts(codec.decode(&mut src).unwrap_err());
    assert_eq!(code, "E_BAD_TOPIC");
    assert_eq!(desc, format!("PUB topic name {:?} is not valid", b"t"));
}

#[test]
fn decode_name_rules() {
    for (name, ok) in [
        (&b"ab"[..], true),
        (&b"a"[..], false),
        (&b"a.b-c_D9"[..], true),
        (&b"a b"[..], false),
        (&b"a#ephemeral"[..], true),
        (&b"#ephemeral"[..], false),
        (&b"ab#ephemera"[..], false),
        (&b"ab#ephemeral#ephemeral"[..], false),
        (&[b'x'; 64][..], true),
        (&[b'x'; 65][..], false),
        (&b"caf\xc3\xa9"[..], false),
    ] {
        assert_eq!(nsqd_core::command::check_name(name).is_ok(), ok, "{:?}", name);
        assert_eq!(nsqd_core::protocol::line::is_valid_name(name), ok, "{:?}", name);
    }
}

#[test]
fn decode_malformed_command_is_fatal() {
    let mut codec = CodecV2::new();
    let mut src = BytesMut::from(&b"PUBX topic\n"[..]);
    let (code, desc) = fatal_parts(codec.decode(&mut src).unwrap_err());
    assert_eq!(code, "E_BAD_CMD");
    assert_eq!(desc, "Invalid command");
    assert!(src.is_empty());
}

#[test]
fn decode_body_over_limit() {
    let mut codec = CodecV2::with_max_msg_size(4);
    let mut src = BytesMut::from(&b"PUB topic\n\x00\x00\x00\x05hello"[..]);
    let (code, desc) = fatal_parts(codec.decode(&mut src).unwrap_err());
    assert_eq!(code, "E_BAD_MESSAGE");
    assert_eq!(desc, "message too big");
}

#[test]
fn decode_does_not_rescan() {
    let mut codec = CodecV2::new();
    let mut src = BytesMut::from(&b"NO"[..]);
    assert!(matches!(codec.decode(&mut src), Ok(None)));
    src.extend_from_slice(b"P\nNOP");
    assert!(matches!(codec.decode(&mut src), Ok(Some(Frame::NOP))));
    assert_eq!(&src[..], b"NOP");
    assert!(matches!(codec.decode(&mut src), Ok(None)));
}

#[test]
fn sub_decode_commands() {
    let mut codec = CodecSubV2::new();
    let mut src = BytesMut::from(
        &b"RDY 7\nFIN 0123456789abcdef\nREQ 0123456789abcdef 250\nTOUCH 0123456789abcdef\nCLS\nNOP\n"[..],
    );
    assert!(matches!(codec.decode(&mut src), Ok(Some(FrameSub::RDY(7)))));
    match codec.decode(&mut src) {
        Ok(Some(FrameSub::FIN(id))) => assert_eq!(&id, b"0123456789abcdef"),
        other => panic!("unexpected: {:?}", other),
    }
    match codec.decode(&mut src) {
        Ok(Some(FrameSub::REQ(id, ms))) => {
            assert_eq!(&id, b"0123456789abcdef");
            assert_eq!(ms, 250);
        }
        other => panic!("unexpected: {:?}", other),
    }
    match codec.decode(&mut src) {
        Ok(Some(FrameSub::TOUCH(id))) => assert_eq!(&id, b"0123456789abcdef"),
        other => panic!("unexpected: {:?}", other),
    }
    assert!(matches!(codec.decode(&mut src), Ok(Some(FrameSub::CLS))));
    assert!(matches!(codec.decode(&mut src), Ok(Some(FrameSub::NOP))));
    assert!(matches!(codec.decode(&mut src), Ok(None)));
}

#[test]
fn sub_decode_bad_id_and_count() {
    let mut codec = CodecSubV2::new();
    let mut src = BytesMut::from(&b"FIN short\n"[..]);
    let (code, desc) = fatal_parts(codec.decode(&mut src).unwrap_err());
    assert_eq!(code, "E_INVALID");
    assert_eq!(desc, "Invalid message ID");

    // every count that is not negative is taken
    let mut src = BytesMut::from(&b"RDY 9223372036854775807\n"[..]);
    assert!(matches!(codec.decode(&mut src), Ok(Some(FrameSub::RDY(9223372036854775807)))));

    let mut src = BytesMut::from(&b"RDY 9223372036854775808\n"[..]);
    assert!(matches!(codec.decode(&mut src), Ok(Some(FrameSub::RDY(9223372036854775808)))));

    let mut src = BytesMut::from(&b"RDY 18446744073709551615\n"[..]);
    assert!(matches!(codec.decode(&mut src), Ok(Some(FrameSub::RDY(u64::MAX)))));

    let mut src = BytesMut::from(&b"RDY 0\n"[..]);
    assert!(matches!(codec.decode(&mut src), Ok(Some(FrameSub::RDY(0)))));

    let mut src = BytesMut::from(&b"RDY -1\n"[..]);
    let (code, _) = fatal_parts(codec.decode(&mut src).unwrap_err());
    assert_eq!(code, "E_INVALID");

    let mut src = BytesMut::from(&b"RDY +12\n"[..]);
    assert!(matches!(codec.decode(&mut src), Ok(Some(FrameSub::RDY(12)))));

    let mut src = BytesMut::from(&b"RDY 18446744073709551616\n"[..]);
    assert!(codec.decode(&mut src).is_err());

    let mut src = BytesMut::from(&b"PUB topic\n"[..]);
    let (code, _) = fatal_parts(codec.decode(&mut src).unwrap_err());
    assert_eq!(code, "E_BAD_CMD");
}

#[test]
fn one_shot_parse() {
    let mut src = BytesMut::from(&b"PUB topic\n\x00\x00\x00\x05hel"[..]);
    assert!(matches!(Frame::parse(&mut src), Err(Error::Incomplete)));
    assert_eq!(src.len(), 17);
    src.extend_from_slice(b"lo");
    assert!(matches!(Frame::parse(&mut src), Ok(Frame::PUB(_, _))));
    assert!(src.is_empty());

    let mut src = BytesMut::from(&b"RDY 1"[..]);
    assert!(matches!(FrameSub::parse(&mut src), Err(Error::Incomplete)));
    src.extend_from_slice(b"\n");
    assert!(matches!(FrameSub::parse(&mut src), Ok(FrameSub::RDY(1))));

    let mut src = BytesMut::from(&b"BOGUS\n"[..]);
    assert!(matches!(FrameSub::parse(&mut src), Err(Error::FatalClientErr(_, _))));
}

#[test]
fn encode_response_frames() {
    let mut codec = CodecV2::new();
    let mut dst = BytesMut::new();
    codec.encode(Resp::Resp(Bytes::from_static(b"OK")), &mut dst).unwrap();
    assert_eq!(&dst[..], b"\x00\x00\x00\x06\x00\x00\x00\x00OK");

    let mut dst = BytesMut::new();
    let n = Resp::send_err(b"E_BAD_CMD Invalid command", &mut dst).unwrap();
    assert_eq!(n, 33);
    assert_eq!(&dst[..8], b"\x00\x00\x00\x1d\x00\x00\x00\x01");
    assert_eq!(&dst[8..], b"E_BAD_CMD Invalid command");

    let mut dst = BytesMut::new();
    let n = Resp::send_resp(b"_heartbeat_", &mut dst).unwrap();
    assert_eq!(n, 19);
    assert_eq!(&dst[..], b"\x00\x00\x00\x0f\x00\x00\x00\x00_heartbeat_");
}

#[test]
fn encode_message_frame_and_round_trip() {
    let msg = Message::new_at(*b"0123456789abcdef", Bytes::from_static(b"payload"), 0x0102030405060708);
    let mut dst = BytesMut::new();
    let n = Resp::send_msg(msg.clone(), &mut dst).unwrap();
    assert_eq!(n, 8 + 26 + 7);
    assert_eq!(&dst[..8], b"\x00\x00\x00\x25\x00\x00\x00\x02");
    assert_eq!(&dst[8..16], b"\x01\x02\x03\x04\x05\x06\x07\x08");
    assert_eq!(&dst[16..18], b"\x00\x00");
    assert_eq!(&dst[18..34], b"0123456789abcdef");
    assert_eq!(&dst[34..], b"payload");

    let back = Message::decode(dst.freeze().slice(8..)).unwrap();
    assert_eq!(back.id(), msg.id());
    assert_eq!(back.timestamp(), msg.timestamp());
    assert_eq!(back.attempts(), msg.attempts());
    assert_eq!(back.body(), msg.body());
}

#[test]
fn decode_short_message_is_refused() {
    assert!(matches!(
        Message::decode(Bytes::from_static(&[0u8; 25])),
        Err(NsqError::InvalidMsgLength)
    ));
    let m = Message::decode(Bytes::from_static(&[0u8; 26])).unwrap();
    assert!(m.body().is_empty());
    assert_eq!(m.len(), 26);
}

#[test]
fn argument_parsers() {
    assert!(matches!(parse_fin(b"0123456789abcdef".to_vec()), Ok(FrameSub::FIN(id)) if &id == b"0123456789abcdef"));
    assert!(matches!(parse_fin(b"0123456789abcde".to_vec()), Err(Error::FatalClientErr(_, _))));
    assert!(matches!(parse_fin(b"0123456789abcdef0".to_vec()), Err(Error::FatalClientErr(_, _))));
    assert!(matches!(parse_touch(b"0123456789abcdef".to_vec()), Ok(FrameSub::TOUCH(_))));
    assert!(matches!(parse_touch(Vec::new()), Err(Error::FatalClientErr(_, _))));
    assert!(matches!(parse_rdy(b"25".to_vec()), Ok(FrameSub::RDY(25))));
    assert!(matches!(parse_rdy(b"18446744073709551615".to_vec()), Ok(FrameSub::RDY(u64::MAX))));
    assert!(matches!(parse_rdy(b"9223372036854775808".to_vec()), Ok(FrameSub::RDY(9223372036854775808))));
    assert!(matches!(parse_rdy(b"-3".to_vec()), Err(Error::FatalClientErr(code, _)) if code == "E_INVALID"));
    assert!(matches!(parse_rdy(b"18446744073709551616".to_vec()), Err(Error::FatalClientErr(_, _))));
    assert!(matches!(parse_rdy(b"2 5".to_vec()), Err(Error::FatalClientErr(_, _))));
    assert!(matches!(parse_rdy(b"".to_vec()), Err(Error::FatalClientErr(_, _))));
    assert!(matches!(
        parse_req(b"0123456789abcdef 90".to_vec()),
        Ok(FrameSub::REQ(id, 90)) if &id == b"0123456789abcdef"
    ));
    assert!(matches!(parse_req(b"0123456789abcdef".to_vec()), Err(Error::FatalClientErr(_, _))));
    assert!(matches!(parse_req(b"0123456789abcdef x".to_vec()), Err(Error::FatalClientErr(_, _))));
    assert!(matches!(parse_sub(b"topic chan".to_vec()), Ok(Frame::SUB(t, c)) if t == "topic" && c == "chan"));
    assert!(matches!(parse_sub(b"topic".to_vec()), Err(Error::FatalClientErr(_, _))));
    assert!(matches!(parse_pub(b"topic".to_vec()), Ok(Frame::PUB(t, b)) if t == "topic" && b.is_empty()));
    assert!(matches!(parse_pub(b"to pic".to_vec()), Err(Error::FatalClientErr(_, _))));
    assert!(matches!(parse_mpub(b"topic".to_vec()), Ok(Frame::MPUB(t, v)) if t == "topic" && v.is_empty()));
    assert!(matches!(parse_dpub(b"topic 15".to_vec()), Ok(Frame::DPUB(t, 15, _)) if t == "topic"));
    assert!(matches!(parse_dpub(b"topic".to_vec()), Err(Error::FatalClientErr(_, _))));
    assert!(matches!(read_timeout(b"18446744073709551615".to_vec()), Ok(u64::MAX)));
    assert!(matches!(read_timeout(b"18446744073709551616".to_vec()), Err(Error::FatalClientErr(_, _))));
    assert!(matches!(read_timeout(b"007".to_vec()), Ok(7)));
    assert!(matches!(read_timeout(b"+".to_vec()), Err(Error::FatalClientErr(_, _))));
    assert!(matches!(read_timeout(b"1.5".to_vec()), Err(Error::FatalClientErr(_, _))));
}

#[test]
fn errors_keep_their_kind() {
    assert!(matches!(Error::from_nsq(NsqError::Exiting), Error::Other(NsqError::Exiting)));
    assert!(matches!(
        Error::from_nsq(NsqError::FatalClientErr("E_X".into(), "why".into())),
        Error::FatalClientErr(code, desc) if code == "E_X" && desc == "why"
    ));
}

#[test]
fn codecs_through_their_trait() {
    assert!(matches!(first(&mut CodecV2::new(), b"NOP\n"), Some(Frame::NOP)));
    assert!(matches!(first(&mut CodecSubV2::new(), b"CLS\n"), Some(FrameSub::CLS)));
    assert!(first(&mut CodecSubV2::new(), b"CLS").is_none());
}

#[test]
fn response_accessors() {
    let r = Resp::Msg(Message::new_at(*b"0123456789abcdef", Bytes::from_static(b"xy"), 1));
    assert_eq!(r.get_code(), 2);
    let mut dst = BytesMut::new();
    r.put_to(&mut dst);
    assert_eq!(dst.len(), 28);
    assert_eq!(Resp::Resp(Bytes::new()).get_code(), 0);
    assert_eq!(Resp::Error(Bytes::new()).get_code(), 1);
}
