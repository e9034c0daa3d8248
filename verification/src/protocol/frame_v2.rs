use bytes::Bytes;
use crate::buf::bytes_seq;
use crate::message::MessageID;
use vstd::prelude::*;

verus! {

pub type TopicName = String;

pub type ChannelName = String;

/// A delay, in milliseconds.
pub type Timeout = u64;

pub type MsgBody = Bytes;

/// A command that a connection may send before it has subscribed.
#[derive(Debug)]
pub enum Frame {
    AUTH(Bytes),
    PUB(TopicName, MsgBody),
    DPUB(TopicName, Timeout, MsgBody),
    MPUB(TopicName, Vec<MsgBody>),
    SUB(TopicName, ChannelName),
    NOP,
}

/// A command that a subscribed connection may send.
#[derive(Debug, Clone, Copy)]
pub enum FrameSub {
    CLS,
    FIN(MessageID),
    NOP,
    RDY(u64),
    REQ(MessageID, Timeout),
    TOUCH(MessageID),
}

pub enum FrameView {
    AUTH(Seq<u8>),
    PUB(Seq<char>, Seq<u8>),
    DPUB(Seq<char>, u64, Seq<u8>),
    MPUB(Seq<char>, Seq<Seq<u8>>),
    SUB(Seq<char>, Seq<char>),
    NOP,
}

pub enum FrameSubView {
    CLS,
    FIN(Seq<u8>),
    NOP,
    RDY(u64),
    REQ(Seq<u8>, u64),
    TOUCH(Seq<u8>),
}

/// What each of a list of bodies holds.
pub open spec fn bodies_seq(v: Seq<Bytes>) -> Seq<Seq<u8>> {
    v.map_values(|b: Bytes| bytes_seq(b))
}

impl View for Frame {
    type V = FrameView;

    open spec fn view(&self) -> FrameView {
        match *self {
            Frame::AUTH(b) => FrameView::AUTH(bytes_seq(b)),
            Frame::PUB(t, b) => FrameView::PUB(t@, bytes_seq(b)),
            Frame::DPUB(t, ms, b) => FrameView::DPUB(t@, ms, bytes_seq(b)),
            Frame::MPUB(t, v) => FrameView::MPUB(t@, bodies_seq(v@)),
            Frame::SUB(t, c) => FrameView::SUB(t@, c@),
            Frame::NOP => FrameView::NOP,
        }
    }
}

impl View for FrameSub {
    type V = FrameSubView;

    open spec fn view(&self) -> FrameSubView {
        match *self {
            FrameSub::CLS => FrameSubView::CLS,
            FrameSub::FIN(id) => FrameSubView::FIN(id@),
            FrameSub::NOP => FrameSubView::NOP,
            FrameSub::RDY(n) => FrameSubView::RDY(n),
            FrameSub::REQ(id, ms) => FrameSubView::REQ(id@, ms),
            FrameSub::TOUCH(id) => FrameSubView::TOUCH(id@),
        }
    }
}

} // verus!
