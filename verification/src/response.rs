use bytes::{Bytes, BytesMut};
use crate::buf::{
    bytes_as_slice, bytes_len, bytes_mut_put_slice, bytes_mut_put_u32, bytes_mut_seq, bytes_seq,
};
use crate::endian::u32_be;
use crate::errors::NsqError;
use crate::message::{Message, MIN_VALID_MSG_LEN};
use vstd::prelude::*;

verus! {

/// What the broker sends to a connection.
#[derive(Debug)]
pub enum Resp {
    /// An answer to a command.
    Resp(Bytes),
    /// An error report.
    Error(Bytes),
    /// A message for a consumer.
    Msg(Message),
}

/// The frame type that goes on the wire for an answer.
pub const FRAME_TYPE_RESPONSE: u32 = 0;

/// The frame type that goes on the wire for an error report.
pub const FRAME_TYPE_ERROR: u32 = 1;

/// The frame type that goes on the wire for a message.
pub const FRAME_TYPE_MESSAGE: u32 = 2;

/// A frame on the wire: the size of what follows the size field, the frame type,
/// then the payload; both numbers take four bytes, most significant first.
pub open spec fn frame_bytes(code: u32, payload: Seq<u8>) -> Seq<u8> {
    u32_be((payload.len() + 4) as u32) + u32_be(code) + payload
}

/// Whether a payload is short enough for its frame's size to fit the size field.
pub open spec fn fits_frame(payload: Seq<u8>) -> bool {
    payload.len() + 4 <= u32::MAX
}

/// What writing the frame of `payload` does: the frame is appended and its length
/// returned, or, where the payload is too long for a frame, nothing is written.
pub open spec fn framed(
    r: Result<i64, NsqError>,
    before: Seq<u8>,
    after: Seq<u8>,
    code: u32,
    payload: Seq<u8>,
) -> bool {
    if fits_frame(payload) {
        &&& r == Ok::<i64, NsqError>((payload.len() + 8) as i64)
        &&& after == before + frame_bytes(code, payload)
    } else {
        &&& r matches Err(NsqError::InvalidMsgLength)
        &&& after == before
    }
}

pub struct RespView {
    pub code: u32,
    pub payload: Seq<u8>,
}

impl View for Resp {
    type V = RespView;

    open spec fn view(&self) -> RespView {
        match *self {
            Resp::Resp(b) => RespView { code: FRAME_TYPE_RESPONSE, payload: bytes_seq(b) },
            Resp::Error(b) => RespView { code: FRAME_TYPE_ERROR, payload: bytes_seq(b) },
            Resp::Msg(m) => RespView { code: FRAME_TYPE_MESSAGE, payload: m@.wire() },
        }
    }
}

/// Appends the frame of `payload` to `writer`, unless the payload is too long for
/// one. Returns the number of bytes written.
fn send_frame(code: u32, payload: &[u8], writer: &mut BytesMut) -> (r: Result<i64, NsqError>)
    ensures
        framed(
            r,
            bytes_mut_seq(*old(writer)),
            bytes_mut_seq(*final(writer)),
            code,
            payload@,
        ),
{
    let n = payload.len();
    if n as u64 > (u32::MAX - 4) as u64 {
        return Err(NsqError::InvalidMsgLength);
    }
    bytes_mut_put_u32(writer, (n + 4) as u32);
    bytes_mut_put_u32(writer, code);
    bytes_mut_put_slice(writer, payload);
    assert(bytes_mut_seq(*writer) =~= bytes_mut_seq(*old(writer)) + frame_bytes(code, payload@));
    Ok(n as i64 + 8)
}

impl Resp {
    /// The frame type on the wire.
    pub fn get_code(&self) -> (code: u32)
        ensures
            code == self@.code,
    {
        match self {
            Resp::Resp(_) => FRAME_TYPE_RESPONSE,
            Resp::Error(_) => FRAME_TYPE_ERROR,
            Resp::Msg(_) => FRAME_TYPE_MESSAGE,
        }
    }

    /// Appends the payload to `dst`.
    pub fn put_to(&self, dst: &mut BytesMut)
        ensures
            bytes_mut_seq(*final(dst)) == bytes_mut_seq(*old(dst)) + self@.payload,
    {
        match self {
            Resp::Resp(b) => bytes_mut_put_slice(dst, bytes_as_slice(b)),
            Resp::Error(b) => bytes_mut_put_slice(dst, bytes_as_slice(b)),
            Resp::Msg(m) => m.put_to(dst),
        }
    }

    /// Appends the frame of this value to `dst`. A payload too long for the size
    /// field is refused, and nothing is written.
    pub fn encode_to(&self, dst: &mut BytesMut) -> (r: Result<(), NsqError>)
        ensures
            fits_frame(self@.payload) ==> {
                &&& r is Ok
                &&& bytes_mut_seq(*final(dst)) == bytes_mut_seq(*old(dst)) + frame_bytes(
                    self@.code,
                    self@.payload,
                )
            },
            !fits_frame(self@.payload) ==> {
                &&& r matches Err(NsqError::InvalidMsgLength)
                &&& bytes_mut_seq(*final(dst)) == bytes_mut_seq(*old(dst))
            },
    {
        let n: usize = match self {
            Resp::Resp(b) => bytes_len(b),
            Resp::Error(b) => bytes_len(b),
            Resp::Msg(m) => {
                proof {
                    m.lemma_view_wf();
                }
                let body = bytes_len(m.body());
                if body as u64 > (u32::MAX - 30) as u64 {
                    return Err(NsqError::InvalidMsgLength);
                }
                body + MIN_VALID_MSG_LEN
            },
        };
        if n as u64 > (u32::MAX - 4) as u64 {
            return Err(NsqError::InvalidMsgLength);
        }
        bytes_mut_put_u32(dst, (n + 4) as u32);
        bytes_mut_put_u32(dst, self.get_code());
        self.put_to(dst);
        assert(bytes_mut_seq(*dst) =~= bytes_mut_seq(*old(dst)) + frame_bytes(
            self@.code,
            self@.payload,
        ));
        Ok(())
    }

    /// Appends the frame that carries `msg` to `writer` and returns the number of
    /// bytes written. A message too long for a frame is refused.
    pub fn send_msg(msg: Message, writer: &mut BytesMut) -> (r: Result<i64, NsqError>)
        ensures
            framed(
                r,
                bytes_mut_seq(*old(writer)),
                bytes_mut_seq(*final(writer)),
                FRAME_TYPE_MESSAGE,
                msg@.wire(),
            ),
    {
        proof {
            msg.lemma_view_wf();
        }
        let body = bytes_len(msg.body());
        let resp = Resp::Msg(msg);
        match resp.encode_to(writer) {
            Ok(()) => Ok(body as i64 + 34),
            Err(e) => Err(e),
        }
    }

    /// Appends the frame of an error report to `writer` and returns the number of
    /// bytes written.
    pub fn send_err(err: &[u8], writer: &mut BytesMut) -> (r: Result<i64, NsqError>)
        ensures
            framed(
                r,
                bytes_mut_seq(*old(writer)),
                bytes_mut_seq(*final(writer)),
                FRAME_TYPE_ERROR,
                err@,
            ),
    {
        send_frame(FRAME_TYPE_ERROR, err, writer)
    }

    /// Appends the frame of an answer to `writer` and returns the number of bytes
    /// written.
    pub fn send_resp(resp: &[u8], writer: &mut BytesMut) -> (r: Result<i64, NsqError>)
        ensures
            framed(
                r,
                bytes_mut_seq(*old(writer)),
                bytes_mut_seq(*final(writer)),
                FRAME_TYPE_RESPONSE,
                resp@,
            ),
    {
        send_frame(FRAME_TYPE_RESPONSE, resp, writer)
    }
}

} // verus!
