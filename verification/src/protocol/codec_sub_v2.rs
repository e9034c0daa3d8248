use bytes::BytesMut;
use crate::buf::{bytes_mut_as_slice, bytes_mut_seq};
use crate::errors::{fatal, fault, Fault, NsqError};
use crate::message::{MessageID, MSG_ID_LENGTH};
use crate::protocol::codec_v2::{
    agrees, args_of, bad_cmd, has_space, head_of, line_end, number_spec, read_timeout, read_u64,
    split_at_space, tail_of, take_line, verb_of,
};
use crate::protocol::frame_v2::{FrameSub, FrameSubView};
use crate::protocol::line::{find_byte, sub_slice, text_bytes, word_is, SPACE};
use crate::protocol::Codec;
use crate::response::{fits_frame, frame_bytes, Resp};
use vstd::prelude::*;
use vstd::slice::slice_to_vec;

verus! {

/// CodecSubV2 handles the stream from a subscribed client
pub struct CodecSubV2 {
    next_index: usize,
}

pub open spec fn bad_id() -> Fault {
    fault("E_INVALID", "Invalid message ID")
}

/// A message identifier on the wire is sixteen bytes.
pub open spec fn id_spec(s: Seq<u8>) -> Result<Seq<u8>, Fault> {
    if s.len() == MSG_ID_LENGTH {
        Ok(s)
    } else {
        Err(bad_id())
    }
}

pub open spec fn fin_spec(arg: Seq<u8>) -> Result<FrameSubView, Fault> {
    match id_spec(arg) {
        Ok(id) => Ok(FrameSubView::FIN(id)),
        Err(f) => Err(f),
    }
}

pub open spec fn touch_spec(arg: Seq<u8>) -> Result<FrameSubView, Fault> {
    match id_spec(arg) {
        Ok(id) => Ok(FrameSubView::TOUCH(id)),
        Err(f) => Err(f),
    }
}

/// A ready count is any number written in decimal.
pub open spec fn rdy_spec(arg: Seq<u8>) -> Result<FrameSubView, Fault> {
    match number_spec(arg) {
        Ok(n) => Ok(FrameSubView::RDY(n)),
        Err(f) => Err(f),
    }
}

pub open spec fn req_spec(args: Seq<u8>) -> Result<FrameSubView, Fault> {
    match id_spec(head_of(args)) {
        Err(f) => Err(f),
        Ok(id) => match number_spec(tail_of(args)) {
            Err(f) => Err(f),
            Ok(ms) => Ok(FrameSubView::REQ(id, ms)),
        },
    }
}

/// The command that a line of a subscribed connection states: `CLS` and `NOP`
/// alone; `FIN` and `TOUCH` with a message identifier; `RDY` with a count; `REQ`
/// with a message identifier and a delay. The arguments are parted by single
/// spaces; any other line is a bad command.
pub open spec fn sub_line_spec(line: Seq<u8>) -> Result<FrameSubView, Fault> {
    let verb = verb_of(line);
    match args_of(line) {
        None => if verb == text_bytes("CLS"@) {
            Ok(FrameSubView::CLS)
        } else if verb == text_bytes("NOP"@) {
            Ok(FrameSubView::NOP)
        } else {
            Err(bad_cmd())
        },
        Some(args) => if verb == text_bytes("FIN"@) && !has_space(args) {
            fin_spec(args)
        } else if verb == text_bytes("RDY"@) && !has_space(args) {
            rdy_spec(args)
        } else if verb == text_bytes("REQ"@) && has_space(args) {
            req_spec(args)
        } else if verb == text_bytes("TOUCH"@) && !has_space(args) {
            touch_spec(args)
        } else {
            Err(bad_cmd())
        },
    }
}

/// Reads a message identifier.
pub fn read_msg_id(buf: &[u8]) -> (r: Result<MessageID, NsqError>)
    ensures
        agrees(r, id_spec(buf@)),
{
    if buf.len() != MSG_ID_LENGTH {
        return Err(fatal("E_INVALID", "Invalid message ID"));
    }
    let mut msg_id: MessageID = [0u8; MSG_ID_LENGTH];
    let mut i: usize = 0;
    while i < MSG_ID_LENGTH
        invariant
            i <= MSG_ID_LENGTH,
            buf@.len() == MSG_ID_LENGTH,
            forall|j: int| 0 <= j < i ==> msg_id@[j] == buf@[j],
        decreases MSG_ID_LENGTH - i,
    {
        msg_id[i] = buf[i];
        i = i + 1;
    }
    assert(msg_id@ =~= buf@);
    Ok(msg_id)
}

pub fn fin_frame(arg: &[u8]) -> (r: Result<FrameSub, NsqError>)
    ensures
        agrees(r, fin_spec(arg@)),
{
    match read_msg_id(arg) {
        Ok(id) => Ok(FrameSub::FIN(id)),
        Err(e) => Err(e),
    }
}

pub fn touch_frame(arg: &[u8]) -> (r: Result<FrameSub, NsqError>)
    ensures
        agrees(r, touch_spec(arg@)),
{
    match read_msg_id(arg) {
        Ok(id) => Ok(FrameSub::TOUCH(id)),
        Err(e) => Err(e),
    }
}

pub fn rdy_frame(arg: &[u8]) -> (r: Result<FrameSub, NsqError>)
    ensures
        agrees(r, rdy_spec(arg@)),
{
    match read_u64(slice_to_vec(arg)) {
        Ok(n) => Ok(FrameSub::RDY(n)),
        Err(e) => Err(e),
    }
}

pub fn req_frame(args: &[u8]) -> (r: Result<FrameSub, NsqError>)
    ensures
        agrees(r, req_spec(args@)),
{
    let (id, ms, _) = split_at_space(args);
    let msg_id = match read_msg_id(id) {
        Ok(id) => id,
        Err(e) => {
            return Err(e);
        },
    };
    match read_timeout(slice_to_vec(ms)) {
        Ok(timeout) => Ok(FrameSub::REQ(msg_id, timeout)),
        Err(e) => Err(e),
    }
}

/// Reads the command that a line of a subscribed connection states.
pub fn parse_sub_line(line: &[u8]) -> (r: Result<FrameSub, NsqError>)
    ensures
        agrees(r, sub_line_spec(line@)),
{
    proof {
        reveal_strlit("CLS");
        reveal_strlit("NOP");
        reveal_strlit("FIN");
        reveal_strlit("RDY");
        reveal_strlit("REQ");
        reveal_strlit("TOUCH");
    }
    let a = find_byte(line, SPACE, 0);
    let verb = sub_slice(line, 0, a);
    if a == line.len() {
        if word_is(verb, "CLS") {
            Ok(FrameSub::CLS)
        } else if word_is(verb, "NOP") {
            Ok(FrameSub::NOP)
        } else {
            Err(fatal("E_BAD_CMD", "Invalid command"))
        }
    } else {
        let args = sub_slice(line, a + 1, line.len());
        let two = find_byte(args, SPACE, 0) < args.len();
        if word_is(verb, "FIN") && !two {
            fin_frame(args)
        } else if word_is(verb, "RDY") && !two {
            rdy_frame(args)
        } else if word_is(verb, "REQ") && two {
            req_frame(args)
        } else if word_is(verb, "TOUCH") && !two {
            touch_frame(args)
        } else {
            Err(fatal("E_BAD_CMD", "Invalid command"))
        }
    }
}

/// What one call of the decoder of a subscribed connection hands back.
pub enum SubDecoded {
    /// More data is needed.
    Pending,
    /// A whole command.
    Frame(FrameSubView),
    /// The data cannot be a command.
    Failed(Fault),
}

pub struct SubStep {
    pub next_index: nat,
    pub src: Seq<u8>,
    pub out: SubDecoded,
}

/// One call of the decoder: it looks for the end of the next line from where it
/// stopped looking before. A whole line is taken off the buffer and read as a
/// command; until there is one, nothing is taken.
pub open spec fn sub_decode_spec(next_index: nat, src: Seq<u8>) -> SubStep {
    let end = line_end(next_index, src);
    if end == src.len() {
        SubStep { next_index: src.len(), src, out: SubDecoded::Pending }
    } else {
        let rest = src.subrange(end + 1, src.len() as int);
        match sub_line_spec(src.subrange(0, end)) {
            Err(f) => SubStep { next_index: 0, src: rest, out: SubDecoded::Failed(f) },
            Ok(v) => SubStep { next_index: 0, src: rest, out: SubDecoded::Frame(v) },
        }
    }
}

pub open spec fn sub_decoded_as(r: Result<Option<FrameSub>, NsqError>, out: SubDecoded) -> bool {
    match out {
        SubDecoded::Pending => r matches Ok(None),
        SubDecoded::Frame(f) => r matches Ok(Some(x)) && x@ == f,
        SubDecoded::Failed(fl) => r matches Err(e) && e.is_fault(fl),
    }
}

impl CodecSubV2 {
    /// Up to where the buffer has been searched for the end of a line.
    pub closed spec fn next_index(&self) -> nat {
        self.next_index as nat
    }

    pub fn new() -> (c: Self)
        ensures
            c.next_index() == 0,
    {
        Self { next_index: 0 }
    }

    /// Takes the next command off the front of `src`, if `src` holds a whole line.
    pub fn decode(&mut self, src: &mut BytesMut) -> (r: Result<Option<FrameSub>, NsqError>)
        ensures
            ({
                let step = sub_decode_spec(old(self).next_index(), bytes_mut_seq(*old(src)));
                &&& final(self).next_index() == step.next_index
                &&& bytes_mut_seq(*final(src)) == step.src
                &&& sub_decoded_as(r, step.out)
            }),
    {
        match take_line(&mut self.next_index, src) {
            None => Ok(None),
            Some(buf) => match parse_sub_line(bytes_mut_as_slice(&buf)) {
                Ok(frame) => Ok(Some(frame)),
                Err(e) => Err(e),
            },
        }
    }

    /// Appends the frame of `resp` to `dst`. A payload too long for a frame is
    /// refused, and nothing is written.
    pub fn encode(&mut self, resp: Resp, dst: &mut BytesMut) -> (r: Result<(), NsqError>)
        ensures
            *final(self) == *old(self),
            fits_frame(resp@.payload) ==> {
                &&& r is Ok
                &&& bytes_mut_seq(*final(dst)) == bytes_mut_seq(*old(dst)) + frame_bytes(
                    resp@.code,
                    resp@.payload,
                )
            },
            !fits_frame(resp@.payload) ==> {
                &&& r matches Err(NsqError::InvalidMsgLength)
                &&& bytes_mut_seq(*final(dst)) == bytes_mut_seq(*old(dst))
            },
    {
        resp.encode_to(dst)
    }
}

impl Codec<Resp> for CodecSubV2 {
    type Item = FrameSub;

    fn decode(&mut self, src: &mut BytesMut) -> (r: Result<Option<FrameSub>, NsqError>)
        ensures
            ({
                let step = sub_decode_spec(old(self).next_index(), bytes_mut_seq(*old(src)));
                &&& final(self).next_index() == step.next_index
                &&& bytes_mut_seq(*final(src)) == step.src
                &&& sub_decoded_as(r, step.out)
            }),
    {
        CodecSubV2::decode(self, src)
    }

    fn encode(&mut self, item: Resp, dst: &mut BytesMut) -> (r: Result<(), NsqError>)
        ensures
            *final(self) == *old(self),
            fits_frame(item@.payload) ==> {
                &&& r is Ok
                &&& bytes_mut_seq(*final(dst)) == bytes_mut_seq(*old(dst)) + frame_bytes(
                    item@.code,
                    item@.payload,
                )
            },
            !fits_frame(item@.payload) ==> {
                &&& r matches Err(NsqError::InvalidMsgLength)
                &&& bytes_mut_seq(*final(dst)) == bytes_mut_seq(*old(dst))
            },
    {
        CodecSubV2::encode(self, item, dst)
    }
}

/// It does not matter in how many pieces the bytes arrive. A call that finds no
/// whole line only waits: what it leaves behind, with the bytes that come next,
/// is decoded as all the bytes together would have been.
pub proof fn law_sub_decode_waits(next_index: nat, src: Seq<u8>, more: Seq<u8>)
    requires
        next_index <= src.len(),
        sub_decode_spec(next_index, src).out is Pending,
    ensures
        sub_decode_spec(
            sub_decode_spec(next_index, src).next_index,
            sub_decode_spec(next_index, src).src + more,
        ) == sub_decode_spec(next_index, src + more),
{
    crate::protocol::line::lemma_first_at_joined(
        src,
        more,
        crate::protocol::line::LF,
        next_index as int,
    );
}

} // verus!
