//! Reading frames back from bytes, one at a time, from a buffer that may
//! still be growing.

use vstd::prelude::*;

use super::body::FrameBody;
use super::error::FrameError;
use super::header::FrameHeader;
use super::{Frame, FrameModel};
use crate::checksum::crc32_of;
use crate::wire::{from_be16, from_be32, from_be64, read_be16, read_be32, read_be64, ETX, HEADER_LEN, SOH, STX};

verus! {

/// What reading a frame from the front of some bytes gave, when it did not fail.
pub enum Decoded<'a> {
    /// A whole frame, and the bytes after it.
    Parsed(Frame, &'a [u8]),
    /// At least this many more bytes must be appended before the frame can be read.
    Incomplete(usize),
}

/// The model of [`Decoded`].
pub enum DecodedModel {
    Parsed(FrameModel, Seq<u8>),
    Incomplete(nat),
}

impl<'a> View for Decoded<'a> {
    type V = DecodedModel;

    open spec fn view(&self) -> DecodedModel {
        match self {
            Decoded::Parsed(f, rest) => DecodedModel::Parsed(f@, rest@),
            Decoded::Incomplete(n) => DecodedModel::Incomplete(*n as nat),
        }
    }
}

/// The model of a decoding result.
pub open spec fn outcome(r: Result<Decoded<'_>, FrameError>) -> Result<DecodedModel, FrameError> {
    match r {
        Ok(d) => Ok(d@),
        Err(e) => Err(e),
    }
}

/// What reading one frame from the front of `b` gives. The checks come in wire
/// order: `SOH`, length and stream id, `STX`, payload and checksum, the
/// checksum against the payload, `ETX`. Running out of bytes before a check
/// asks for more; a check that fails ends the attempt.
pub open spec fn decode_spec(b: Seq<u8>) -> Result<DecodedModel, FrameError> {
    if b.len() < 1 {
        Ok(DecodedModel::Incomplete(1))
    } else if b[0] != SOH {
        Err(FrameError::Delimiter(SOH, b[0]))
    } else if b.len() < HEADER_LEN {
        Ok(DecodedModel::Incomplete((HEADER_LEN - b.len()) as nat))
    } else if b[11] != STX {
        Err(FrameError::Delimiter(STX, b[11]))
    } else {
        let n = from_be16(b.subrange(1, 3)) as int;
        let crc_end = HEADER_LEN + n + 4;
        if b.len() < crc_end {
            Ok(DecodedModel::Incomplete((crc_end - b.len()) as nat))
        } else {
            let payload = b.subrange(HEADER_LEN as int, HEADER_LEN + n);
            let crc = from_be32(b.subrange(HEADER_LEN + n, crc_end));
            if crc32_of(payload) != crc {
                Err(FrameError::Crc32(crc32_of(payload), crc))
            } else if b.len() < crc_end + 1 {
                Ok(DecodedModel::Incomplete(1))
            } else if b[crc_end] != ETX {
                Err(FrameError::Delimiter(ETX, b[crc_end]))
            } else {
                Ok(
                    DecodedModel::Parsed(
                        FrameModel { stream_id: from_be64(b.subrange(3, 11)), payload, crc32: crc },
                        b.subrange(crc_end + 1, b.len() as int),
                    ),
                )
            }
        }
    }
}

/// The length and stream id of a header whose delimiters have been checked.
fn frame_header(input: &[u8]) -> (r: FrameHeader)
    requires
        input@.len() >= HEADER_LEN,
    ensures
        r@.n_bytes == from_be16(input@.subrange(1, 3)),
        r@.stream_id == from_be64(input@.subrange(3, 11)),
{
    FrameHeader::new_unchecked(read_be16(input, 1), read_be64(input, 3))
}

/// Reads one frame from the front of `input`.
pub fn frame(input: &[u8]) -> (r: Result<Decoded<'_>, FrameError>)
    ensures
        outcome(r) == decode_spec(input@),
{
    let len = input.len();
    if len < 1 {
        return Ok(Decoded::Incomplete(1));
    }
    if input[0] != SOH {
        return Err(FrameError::Delimiter(SOH, input[0]));
    }
    if len < HEADER_LEN {
        return Ok(Decoded::Incomplete(HEADER_LEN - len));
    }
    if input[11] != STX {
        return Err(FrameError::Delimiter(STX, input[11]));
    }
    let header = frame_header(input);
    let n = header.n_bytes() as usize;
    let crc_end = HEADER_LEN + n + 4;
    if len < crc_end {
        return Ok(Decoded::Incomplete(crc_end - len));
    }
    let payload = vstd::slice::slice_subrange(input, HEADER_LEN, HEADER_LEN + n);
    let crc = read_be32(input, HEADER_LEN + n);
    let body = match FrameBody::new_checked(payload, crc) {
        Ok(b) => b,
        Err(e) => return Err(e),
    };
    if len < crc_end + 1 {
        return Ok(Decoded::Incomplete(1));
    }
    if input[crc_end] != ETX {
        return Err(FrameError::Delimiter(ETX, input[crc_end]));
    }
    let rest = vstd::slice::slice_subrange(input, crc_end + 1, len);
    Ok(Decoded::Parsed(Frame::new_unchecked(header, body), rest))
}

} // verus!
