//! The CRC-32 checksum that guards each frame's payload.

use vstd::prelude::*;

verus! {

/// The CRC-32 (IEEE, reflected, initial and final complement) of `data`.
pub uninterp spec fn crc32_of(data: Seq<u8>) -> u32;

/// Relies on `const_crc32::crc32`: the checksum depends on the bytes alone.
#[verifier::external_body]
pub(crate) fn crc32(data: &[u8]) -> (r: u32)
    ensures
        r == crc32_of(data@),
{
    const_crc32::crc32(data)
}

} // verus!
