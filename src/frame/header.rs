//! The part of a frame that says how long its payload is and which stream it
//! belongs to.

use vstd::prelude::*;

use super::error::FrameError;
use crate::wire::{be16, be64, push_be16, push_be64, MAX_PAYLOAD};

verus! {

/// What a header states.
pub struct HeaderModel {
    pub n_bytes: u16,
    pub stream_id: u64,
}

/// Payload length and stream identifier of a frame.
#[derive(Clone, Copy, Debug, PartialEq, Eq, Structural)]
pub struct FrameHeader {
    pub(crate) n_bytes: u16,
    pub(crate) target_user_id: u64,
}

impl View for FrameHeader {
    type V = HeaderModel;

    closed spec fn view(&self) -> HeaderModel {
        HeaderModel { n_bytes: self.n_bytes, stream_id: self.target_user_id }
    }
}

impl FrameHeader {
    /// A header with the given fields, whatever payload it will stand beside.
    pub fn new_unchecked(n_bytes: u16, user_id: u64) -> (r: FrameHeader)
        ensures
            r@ == (HeaderModel { n_bytes, stream_id: user_id }),
    {
        FrameHeader { n_bytes, target_user_id: user_id }
    }

    /// The header for `data`, which must fit in one frame.
    pub fn new(data: &[u8], user_id: u64) -> (r: Result<FrameHeader, FrameError>)
        ensures
            data@.len() <= MAX_PAYLOAD ==> (r matches Ok(h) && h@ == (HeaderModel {
                n_bytes: data@.len() as u16,
                stream_id: user_id,
            })),
            data@.len() > MAX_PAYLOAD ==> r == Err::<FrameHeader, FrameError>(
                FrameError::BodySize(data@.len() as usize),
            ),
    {
        if data.len() > MAX_PAYLOAD {
            Err(FrameError::BodySize(data.len()))
        } else {
            Ok(FrameHeader::new_unchecked(data.len() as u16, user_id))
        }
    }

    /// Appends the length, then the stream identifier, both big-endian.
    pub fn write(&self, out: &mut Vec<u8>)
        ensures
            final(out)@ == old(out)@ + be16(self@.n_bytes) + be64(self@.stream_id),
    {
        push_be16(out, self.n_bytes);
        push_be64(out, self.target_user_id);
        assert(final(out)@ =~= old(out)@ + be16(self@.n_bytes) + be64(self@.stream_id));
    }

    /// The payload length this header announces.
    pub fn n_bytes(&self) -> (r: u16)
        ensures
            r == self@.n_bytes,
    {
        self.n_bytes
    }

    /// The stream this header's frame belongs to.
    pub fn user_id(&self) -> (r: u64)
        ensures
            r == self@.stream_id,
    {
        self.target_user_id
    }
}

} // verus!
