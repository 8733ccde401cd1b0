//! Why building or decoding a frame failed.

use vstd::prelude::*;

verus! {

/// A frame could not be built or read back.
#[derive(Clone, Copy, Debug, PartialEq, Eq, Structural)]
pub enum FrameError {
    /// The checksum computed over the payload, then the checksum the frame carried.
    Crc32(u32, u32),
    /// A payload of this many bytes does not fit in one frame.
    BodySize(usize),
    /// The delimiter byte that was expected, then the byte found in its place.
    Delimiter(u8, u8),
}

} // verus!
