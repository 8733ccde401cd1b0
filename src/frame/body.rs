//! The payload of a frame together with its checksum.

use vstd::prelude::*;

use super::error::FrameError;
use crate::checksum::{crc32, crc32_of};
use crate::wire::{be32, push_be32, MAX_PAYLOAD};

verus! {

/// What a body holds.
pub struct BodyModel {
    pub payload: Seq<u8>,
    pub crc32: u32,
}

/// A payload of at most `MAX_PAYLOAD` bytes and the CRC-32 that goes with it.
#[derive(PartialEq, Debug)]
pub struct FrameBody {
    pub(crate) body: Vec<u8>,
    pub(crate) crc32: u32,
}

impl View for FrameBody {
    type V = BodyModel;

    closed spec fn view(&self) -> BodyModel {
        BodyModel { payload: self.body@, crc32: self.crc32 }
    }
}

impl Clone for FrameBody {
    fn clone(&self) -> (r: FrameBody)
        ensures
            r@ == self@,
    {
        proof {
            use_type_invariant(self);
        }
        let body = self.body.clone();
        assert(body@ =~= self.body@);
        FrameBody { body, crc32: self.crc32 }
    }
}

impl FrameBody {
    #[verifier::type_invariant]
    pub(crate) open spec fn fits(&self) -> bool {
        self.body@.len() <= MAX_PAYLOAD
    }

    /// A body whose given checksum is first compared with the one computed
    /// over `data`.
    pub fn new_checked(data: &[u8], crc32: u32) -> (r: Result<FrameBody, FrameError>)
        requires
            data@.len() <= MAX_PAYLOAD,
        ensures
            crc32_of(data@) == crc32 ==> (r matches Ok(b) && b@ == (BodyModel {
                payload: data@,
                crc32,
            })),
            crc32_of(data@) != crc32 ==> r == Err::<FrameBody, FrameError>(
                FrameError::Crc32(crc32_of(data@), crc32),
            ),
    {
        let calc_crc = crate::checksum::crc32(data);
        if calc_crc != crc32 {
            return Err(FrameError::Crc32(calc_crc, crc32));
        }
        Ok(FrameBody::new_unchecked(data, crc32))
    }

    /// A body that carries `crc32` as given, unchecked.
    pub fn new_unchecked(data: &[u8], crc32: u32) -> (r: FrameBody)
        requires
            data@.len() <= MAX_PAYLOAD,
        ensures
            r@ == (BodyModel { payload: data@, crc32 }),
    {
        FrameBody { body: vstd::slice::slice_to_vec(data), crc32 }
    }

    /// A body whose checksum is computed over `data`.
    pub fn new(data: &[u8]) -> (r: FrameBody)
        requires
            data@.len() <= MAX_PAYLOAD,
        ensures
            r@ == (BodyModel { payload: data@, crc32: crc32_of(data@) }),
    {
        let crc = crc32(data);
        FrameBody::new_unchecked(data, crc)
    }

    /// Appends the payload, then the checksum big-endian.
    pub fn write_raw(&self, out: &mut Vec<u8>)
        ensures
            final(out)@ == old(out)@ + self@.payload + be32(self@.crc32),
    {
        out.extend_from_slice(self.body.as_slice());
        assert(out@ =~= old(out)@ + self@.payload);
        push_be32(out, self.crc32);
    }

    /// Appends the payload alone.
    pub fn write_body(&self, out: &mut Vec<u8>)
        ensures
            final(out)@ == old(out)@ + self@.payload,
    {
        out.extend_from_slice(self.body.as_slice());
        assert(final(out)@ =~= old(out)@ + self@.payload);
    }

    /// The payload.
    pub fn body(&self) -> (r: &[u8])
        ensures
            r@ == self@.payload,
            r@.len() <= MAX_PAYLOAD,
    {
        proof {
            use_type_invariant(self);
        }
        self.body.as_slice()
    }

    /// The checksum this body carries.
    pub fn crc32(&self) -> (r: u32)
        ensures
            r == self@.crc32,
    {
        self.crc32
    }
}

} // verus!
