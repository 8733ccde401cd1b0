//! Frames: a header, a checksummed payload, and the delimiters around them.

pub mod body;
pub mod chunker;
pub mod framereader;
pub mod error;
pub mod header;
pub mod laws;
pub mod parse;

use vstd::prelude::*;

use crate::checksum::crc32_of;
use crate::wire::{be16, be32, be64, ETX, FRAME_OVERHEAD, MAX_PAYLOAD, SOH, STX};
use body::FrameBody;
use error::FrameError;
use header::FrameHeader;
use parse::{decode_spec, outcome, Decoded};

verus! {

/// What a frame carries: the stream it belongs to, its payload and the
/// checksum that travels with the payload.
pub struct FrameModel {
    pub stream_id: u64,
    pub payload: Seq<u8>,
    pub crc32: u32,
}

impl FrameModel {
    /// The payload fits in one frame.
    pub open spec fn wf(self) -> bool {
        self.payload.len() <= MAX_PAYLOAD
    }

    /// The checksum is the CRC-32 of the payload.
    pub open spec fn checksum_ok(self) -> bool {
        self.crc32 == crc32_of(self.payload)
    }

    /// The frame on the wire:
    /// `SOH | length | stream id | STX | payload | crc32 | ETX`, integers big-endian.
    pub open spec fn wire(self) -> Seq<u8> {
        seq![SOH] + be16(self.payload.len() as u16) + be64(self.stream_id) + seq![STX]
            + self.payload + be32(self.crc32) + seq![ETX]
    }
}

/// The frame that carries `payload` on stream `stream_id`, with the checksum
/// computed over the payload.
pub open spec fn sealed(payload: Seq<u8>, stream_id: u64) -> FrameModel {
    FrameModel { stream_id, payload, crc32: crc32_of(payload) }
}

/// One unit of the protocol. Its header always announces the length of its
/// payload.
#[derive(PartialEq, Debug)]
pub struct Frame {
    pub(crate) header: FrameHeader,
    pub(crate) body: FrameBody,
}

impl View for Frame {
    type V = FrameModel;

    closed spec fn view(&self) -> FrameModel {
        FrameModel {
            stream_id: self.header@.stream_id,
            payload: self.body@.payload,
            crc32: self.body@.crc32,
        }
    }
}

impl Clone for Frame {
    fn clone(&self) -> (r: Frame)
        ensures
            r@ == self@,
    {
        proof {
            use_type_invariant(self);
        }
        Frame { header: self.header, body: self.body.clone() }
    }
}

impl Frame {
    #[verifier::type_invariant]
    pub(crate) open spec fn consistent(&self) -> bool {
        self.header@.n_bytes as int == self.body@.payload.len()
    }

    /// Puts a header and a body together. The caller vouches that the header
    /// announces the body's length; the checksum is not looked at.
    pub fn new_unchecked(header: FrameHeader, body: FrameBody) -> (r: Frame)
        requires
            header@.n_bytes as int == body@.payload.len(),
        ensures
            r@ == (FrameModel {
                stream_id: header@.stream_id,
                payload: body@.payload,
                crc32: body@.crc32,
            }),
    {
        Frame { header, body }
    }

    /// The frame that carries `data` on stream `user_id`, with its checksum
    /// computed; fails when `data` does not fit in one frame.
    pub fn new(data: &[u8], user_id: u64) -> (r: Result<Frame, FrameError>)
        ensures
            data@.len() <= MAX_PAYLOAD ==> (r matches Ok(f) && f@ == sealed(data@, user_id)),
            data@.len() > MAX_PAYLOAD ==> r == Err::<Frame, FrameError>(
                FrameError::BodySize(data@.len() as usize),
            ),
    {
        let header = match FrameHeader::new(data, user_id) {
            Ok(h) => h,
            Err(e) => return Err(e),
        };
        let body = FrameBody::new(data);
        Ok(Frame { header, body })
    }

    /// The payload, which always fits in one frame.
    pub fn payload(&self) -> (r: &[u8])
        ensures
            r@ == self@.payload,
            r@.len() <= MAX_PAYLOAD,
    {
        proof {
            use_type_invariant(self);
        }
        self.body.body()
    }

    /// The stream this frame belongs to.
    pub fn stream_id(&self) -> (r: u64)
        ensures
            r == self@.stream_id,
    {
        self.header.user_id()
    }

    /// The number of bytes of this frame on the wire.
    pub fn bytes_required(&self) -> (r: usize)
        ensures
            r == self@.payload.len() + FRAME_OVERHEAD,
            r == self@.wire().len(),
    {
        proof {
            use_type_invariant(self);
        }
        FRAME_OVERHEAD + self.header.n_bytes() as usize
    }

    /// Appends this frame's wire form.
    pub fn write_frame(&self, out: &mut Vec<u8>)
        ensures
            final(out)@ == old(out)@ + self@.wire(),
    {
        proof {
            use_type_invariant(self);
        }
        out.push(SOH);
        self.header.write(out);
        out.push(STX);
        self.body.write_raw(out);
        out.push(ETX);
        assert(self@.payload.len() as u16 == self.header@.n_bytes);
        assert(final(out)@ =~= old(out)@ + self@.wire());
    }

    /// This frame's wire form.
    pub fn encode(&self) -> (r: Vec<u8>)
        ensures
            r@ == self@.wire(),
    {
        let mut out: Vec<u8> = Vec::new();
        self.write_frame(&mut out);
        assert(out@ =~= self@.wire());
        out
    }

    /// Appends this frame's payload alone.
    pub fn write_body(&self, out: &mut Vec<u8>)
        ensures
            final(out)@ == old(out)@ + self@.payload,
    {
        self.body.write_body(out);
    }

    /// Reads one frame from the front of `bytes`: the frame and what follows
    /// it, how many more bytes are needed before it can be read, or why the
    /// bytes are not a frame.
    pub fn decode(bytes: &[u8]) -> (r: Result<Decoded<'_>, FrameError>)
        ensures
            outcome(r) == decode_spec(bytes@),
    {
        parse::frame(bytes)
    }
}

} // verus!
