use bytes::BytesMut;
use crate::buf::{bytes_mut_clone, bytes_mut_seq};
use crate::errors::{Fault, NsqError};
use crate::protocol::codec_sub_v2::{
    fin_frame, fin_spec, rdy_frame, rdy_spec, req_frame, req_spec, sub_decode_spec, touch_frame,
    touch_spec, CodecSubV2, SubDecoded,
};
use crate::protocol::codec_v2::{
    bad_name, decode_spec, dpub_frame, dpub_spec, mpub_frame, mpub_spec, number_spec, pub_frame,
    pub_spec, sub_frame, sub_spec, try_to_string_name, CodecV2, CodecV2View, Decoded,
    DEFAULT_MAX_MSG_SIZE,
};
use crate::protocol::frame_v2::{Frame, FrameSub};
use crate::protocol::line::valid_name;
use vstd::prelude::*;

verus! {

/// Why a command could not be read.
#[derive(Debug)]
pub enum Error {
    /// The data received so far holds no whole command.
    Incomplete,
    /// The data is no command; the connection has to be closed.
    FatalClientErr(String, String),
    Other(NsqError),
}

impl Error {
    /// Whether this is the fatal client error that tells `f`.
    pub open spec fn is_fault(self, f: Fault) -> bool {
        self matches Error::FatalClientErr(c, d) && c@ == f.code && d@ == f.desc
    }

    /// The same error, as the command parser reports it.
    pub fn from_nsq(e: NsqError) -> (r: Error)
        ensures
            match e {
                NsqError::FatalClientErr(c, d) => r == Error::FatalClientErr(c, d),
                _ => r == Error::Other(e),
            },
    {
        match e {
            NsqError::FatalClientErr(c, d) => Error::FatalClientErr(c, d),
            other => Error::Other(other),
        }
    }
}

/// Whether what a function returned is what the grammar says of its input.
pub open spec fn means<T: View>(r: Result<T, Error>, want: Result<T::V, Fault>) -> bool {
    match want {
        Ok(v) => r matches Ok(x) && x@ == v,
        Err(f) => r matches Err(e) && e.is_fault(f),
    }
}

/// Reads the argument of `TOUCH`: a message identifier.
pub fn parse_touch(buf: Vec<u8>) -> (r: Result<FrameSub, Error>)
    ensures
        means(r, touch_spec(buf@)),
{
    match touch_frame(buf.as_slice()) {
        Ok(f) => Ok(f),
        Err(e) => Err(Error::from_nsq(e)),
    }
}

/// Reads the argument of `RDY`: a count.
pub fn parse_rdy(buf: Vec<u8>) -> (r: Result<FrameSub, Error>)
    ensures
        means(r, rdy_spec(buf@)),
{
    match rdy_frame(buf.as_slice()) {
        Ok(f) => Ok(f),
        Err(e) => Err(Error::from_nsq(e)),
    }
}

/// Reads the argument of `FIN`: a message identifier.
pub fn parse_fin(buf: Vec<u8>) -> (r: Result<FrameSub, Error>)
    ensures
        means(r, fin_spec(buf@)),
{
    match fin_frame(buf.as_slice()) {
        Ok(f) => Ok(f),
        Err(e) => Err(Error::from_nsq(e)),
    }
}

/// Reads the arguments of `REQ`: a message identifier, a space, a delay.
pub fn parse_req(buf: Vec<u8>) -> (r: Result<FrameSub, Error>)
    ensures
        means(r, req_spec(buf@)),
{
    match req_frame(buf.as_slice()) {
        Ok(f) => Ok(f),
        Err(e) => Err(Error::from_nsq(e)),
    }
}

/// Reads the arguments of `DPUB`: a topic, a space, a delay. The body is still
/// empty.
pub fn parse_dpub(buf: Vec<u8>) -> (r: Result<Frame, Error>)
    ensures
        means(r, dpub_spec(buf@)),
{
    match dpub_frame(buf.as_slice()) {
        Ok(f) => Ok(f),
        Err(e) => Err(Error::from_nsq(e)),
    }
}

/// Reads the argument of `MPUB`: a topic. No body is held yet.
pub fn parse_mpub(topic_name: Vec<u8>) -> (r: Result<Frame, Error>)
    ensures
        means(r, mpub_spec(topic_name@)),
{
    match mpub_frame(topic_name.as_slice()) {
        Ok(f) => Ok(f),
        Err(e) => Err(Error::from_nsq(e)),
    }
}

/// Reads the arguments of `SUB`: a topic, a space, a channel.
pub fn parse_sub(buf: Vec<u8>) -> (r: Result<Frame, Error>)
    ensures
        means(r, sub_spec(buf@)),
{
    match sub_frame(buf.as_slice()) {
        Ok(f) => Ok(f),
        Err(e) => Err(Error::from_nsq(e)),
    }
}

/// Reads the argument of `PUB`: a topic. The body is still empty.
pub fn parse_pub(topic_name: Vec<u8>) -> (r: Result<Frame, Error>)
    ensures
        means(r, pub_spec(topic_name@)),
{
    match pub_frame(topic_name.as_slice()) {
        Ok(f) => Ok(f),
        Err(e) => Err(Error::from_nsq(e)),
    }
}

/// Checks a topic or channel name.
pub fn check_name(name: &[u8]) -> (r: Result<(), Error>)
    ensures
        valid_name(name@) ==> r is Ok,
        !valid_name(name@) ==> (r matches Err(e) && e.is_fault(bad_name(name@))),
{
    match try_to_string_name(name) {
        Ok(_) => Ok(()),
        Err(e) => Err(Error::from_nsq(e)),
    }
}

/// Reads a delay in milliseconds, written in decimal.
pub fn read_timeout(buf: Vec<u8>) -> (r: Result<u64, Error>)
    ensures
        means(r, number_spec(buf@)),
{
    match crate::protocol::codec_v2::read_timeout(buf) {
        Ok(ms) => Ok(ms),
        Err(e) => Err(Error::from_nsq(e)),
    }
}

/// A decoder that has read nothing yet and accepts bodies up to the default limit.
pub open spec fn fresh_codec() -> CodecV2View {
    CodecV2View { next_index: 0, frame: None, mpub_count: None, max_msg_size: DEFAULT_MAX_MSG_SIZE }
}

impl Frame {
    /// Reads one command, with its bodies, off the front of `src`. While `src`
    /// does not hold all of it, nothing is taken and `Incomplete` is reported.
    pub fn parse(src: &mut BytesMut) -> (r: Result<Frame, Error>)
        ensures
            ({
                let step = decode_spec(fresh_codec(), bytes_mut_seq(*old(src)));
                match step.out {
                    Decoded::Pending => {
                        &&& r matches Err(Error::Incomplete)
                        &&& bytes_mut_seq(*final(src)) == bytes_mut_seq(*old(src))
                    },
                    Decoded::Frame(f) => {
                        &&& r matches Ok(x) && x@ == f
                        &&& bytes_mut_seq(*final(src)) == step.src
                    },
                    Decoded::Failed(fl) => {
                        &&& r matches Err(e) && e.is_fault(fl)
                        &&& bytes_mut_seq(*final(src)) == step.src
                    },
                }
            }),
    {
        let mut rest = bytes_mut_clone(src);
        let mut codec = CodecV2::new();
        match codec.decode(&mut rest) {
            Ok(Some(frame)) => {
                *src = rest;
                Ok(frame)
            },
            Ok(None) => Err(Error::Incomplete),
            Err(e) => {
                *src = rest;
                Err(Error::from_nsq(e))
            },
        }
    }
}

impl FrameSub {
    /// Reads one command of a subscribed connection off the front of `src`. While
    /// `src` holds no whole line, nothing is taken and `Incomplete` is reported.
    pub fn parse(src: &mut BytesMut) -> (r: Result<FrameSub, Error>)
        ensures
            ({
                let step = sub_decode_spec(0, bytes_mut_seq(*old(src)));
                &&& bytes_mut_seq(*final(src)) == step.src
                &&& match step.out {
                    SubDecoded::Pending => r matches Err(Error::Incomplete),
                    SubDecoded::Frame(f) => r matches Ok(x) && x@ == f,
                    SubDecoded::Failed(fl) => r matches Err(e) && e.is_fault(fl),
                }
            }),
    {
        let mut codec = CodecSubV2::new();
        match codec.decode(src) {
            Ok(Some(frame)) => Ok(frame),
            Ok(None) => Err(Error::Incomplete),
            Err(e) => Err(Error::from_nsq(e)),
        }
    }
}

} // verus!
