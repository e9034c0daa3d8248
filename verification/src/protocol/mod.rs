use bytes::BytesMut;
use crate::errors::NsqError;
use vstd::prelude::*;

pub mod codec_sub_v2;
pub mod codec_v2;
pub mod frame_v2;
pub mod line;

verus! {

/// A codec reads the commands of a connection off a buffer, one at a time, and
/// writes what is sent to it, `I`, as frames.
pub trait Codec<I> {
    /// What the connection sends.
    type Item;

    /// Takes the next command off the front of `src`, if `src` holds a whole one.
    fn decode(&mut self, src: &mut BytesMut) -> Result<Option<Self::Item>, NsqError>;

    /// Appends the frame of `item` to `dst`.
    fn encode(&mut self, item: I, dst: &mut BytesMut) -> Result<(), NsqError>;
}

} // verus!
