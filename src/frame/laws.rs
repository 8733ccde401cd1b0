//! What encoding and decoding guarantee together.

use vstd::prelude::*;

use super::error::FrameError;
use super::parse::{decode_spec, DecodedModel};
use super::{sealed, FrameModel};
use crate::checksum::crc32_of;
use crate::wire::{
    be32, from_be16, from_be32, from_be64, lemma_be16_inverse, lemma_be32_inverse, lemma_be32_of_bytes,
    lemma_be64_inverse, be16, be64, ETX, FRAME_OVERHEAD, HEADER_LEN, MAX_PAYLOAD, SOH, STX,
};

verus! {

/// Where each field of a well-formed frame sits on the wire.
pub proof fn lemma_wire_layout(m: FrameModel)
    requires
        m.wf(),
    ensures
        ({
            let w = m.wire();
            let n = m.payload.len() as int;
            &&& w.len() == n + FRAME_OVERHEAD
            &&& w[0] == SOH
            &&& from_be16(w.subrange(1, 3)) as int == n
            &&& from_be64(w.subrange(3, 11)) == m.stream_id
            &&& w[11] == STX
            &&& w.subrange(12, 12 + n) == m.payload
            &&& w.subrange(12 + n, 16 + n) == be32(m.crc32)
            &&& from_be32(w.subrange(12 + n, 16 + n)) == m.crc32
            &&& w[16 + n] == ETX
        }),
{
    let w = m.wire();
    let n = m.payload.len() as int;
    lemma_be16_inverse(n as u16);
    lemma_be64_inverse(m.stream_id);
    lemma_be32_inverse(m.crc32);
    assert(w.subrange(1, 3) =~= be16(n as u16));
    assert(w.subrange(3, 11) =~= be64(m.stream_id));
    assert(w.subrange(12, 12 + n) =~= m.payload);
    assert(w.subrange(12 + n, 16 + n) =~= be32(m.crc32));
}

/// A frame followed by any bytes decodes to that frame and those bytes.
pub proof fn lemma_decode_wire(m: FrameModel, rest: Seq<u8>)
    requires
        m.wf(),
        m.checksum_ok(),
    ensures
        decode_spec(m.wire() + rest) == Ok::<DecodedModel, FrameError>(
            DecodedModel::Parsed(m, rest),
        ),
{
    let w = m.wire();
    let b = w + rest;
    let n = m.payload.len() as int;
    lemma_wire_layout(m);
    assert(b.subrange(1, 3) =~= w.subrange(1, 3));
    assert(b.subrange(3, 11) =~= w.subrange(3, 11));
    assert(b.subrange(12, 12 + n) =~= w.subrange(12, 12 + n));
    assert(b.subrange(12 + n, 16 + n) =~= w.subrange(12 + n, 16 + n));
    assert(b.subrange(17 + n, b.len() as int) =~= rest);
}

/// Round trip: the frame built from any payload that fits, on any stream,
/// decodes from its own wire form to itself, with nothing left over.
pub proof fn round_trip(payload: Seq<u8>, stream_id: u64)
    requires
        payload.len() <= MAX_PAYLOAD,
    ensures
        decode_spec(sealed(payload, stream_id).wire()) == Ok::<DecodedModel, FrameError>(
            DecodedModel::Parsed(sealed(payload, stream_id), Seq::empty()),
        ),
{
    let m = sealed(payload, stream_id);
    lemma_decode_wire(m, Seq::empty());
    assert(m.wire() + Seq::<u8>::empty() =~= m.wire());
}

/// Streaming decode: every strict prefix of a frame's wire form asks for more
/// bytes, and the whole wire form decodes with nothing left over.
pub proof fn prefix_is_incomplete(m: FrameModel, k: int)
    requires
        m.wf(),
        m.checksum_ok(),
        0 <= k <= m.wire().len(),
    ensures
        k < m.wire().len() ==> decode_spec(m.wire().take(k)) is Ok && decode_spec(
            m.wire().take(k),
        )->Ok_0 is Incomplete,
        k == m.wire().len() ==> decode_spec(m.wire().take(k)) == Ok::<DecodedModel, FrameError>(
            DecodedModel::Parsed(m, Seq::empty()),
        ),
{
    let w = m.wire();
    let p = w.take(k);
    let n = m.payload.len() as int;
    lemma_wire_layout(m);
    if k == w.len() {
        lemma_decode_wire(m, Seq::empty());
        assert(p =~= w + Seq::<u8>::empty());
    } else if k >= 12 {
        assert(p.subrange(1, 3) =~= w.subrange(1, 3));
        if k >= 16 + n {
            assert(p.subrange(12, 12 + n) =~= w.subrange(12, 12 + n));
            assert(p.subrange(12 + n, 16 + n) =~= w.subrange(12 + n, 16 + n));
        }
    }
}

/// Corruption of the checksum: flipping any bit of the checksum field of a
/// frame's wire form makes decoding fail with a checksum mismatch.
pub proof fn checksum_flip_detected(m: FrameModel, i: int, bit: u8)
    requires
        m.wf(),
        m.checksum_ok(),
        HEADER_LEN + m.payload.len() <= i < HEADER_LEN + m.payload.len() + 4,
        bit < 8,
    ensures
        ({
            let w = m.wire();
            let c = w.update(i, w[i] ^ (1u8 << bit));
            decode_spec(c) matches Err(FrameError::Crc32(calculated, given)) && calculated
                == m.crc32 && given != m.crc32
        }),
{
    let w = m.wire();
    let x = w[i];
    let y = x ^ (1u8 << bit);
    let c = w.update(i, y);
    let n = m.payload.len() as int;
    lemma_wire_layout(m);
    assert(y != x) by (bit_vector)
        requires
            y == x ^ (1u8 << bit),
            bit < 8,
    ;
    assert(c.subrange(1, 3) =~= w.subrange(1, 3));
    assert(c.subrange(12, 12 + n) =~= w.subrange(12, 12 + n));
    let cf = c.subrange(12 + n, 16 + n);
    lemma_be32_of_bytes(cf);
    assert(cf != be32(m.crc32)) by {
        assert(cf[i - 12 - n] != w.subrange(12 + n, 16 + n)[i - 12 - n]);
    }
}

/// Corruption of the payload: with one bit of the payload flipped, decoding
/// fails with a checksum mismatch exactly when the changed payload's CRC-32
/// differs from the checksum the frame carries; otherwise it yields the
/// changed frame.
pub proof fn payload_flip_checked(m: FrameModel, i: int, bit: u8)
    requires
        m.wf(),
        m.checksum_ok(),
        HEADER_LEN <= i < HEADER_LEN + m.payload.len(),
        bit < 8,
    ensures
        ({
            let w = m.wire();
            let c = w.update(i, w[i] ^ (1u8 << bit));
            let p = m.payload.update(i - HEADER_LEN, w[i] ^ (1u8 << bit));
            &&& crc32_of(p) != m.crc32 ==> decode_spec(c) == Err::<DecodedModel, FrameError>(
                FrameError::Crc32(crc32_of(p), m.crc32),
            )
            &&& crc32_of(p) == m.crc32 ==> decode_spec(c) == Ok::<DecodedModel, FrameError>(
                DecodedModel::Parsed(FrameModel { payload: p, ..m }, Seq::empty()),
            )
        }),
{
    let w = m.wire();
    let y = w[i] ^ (1u8 << bit);
    let c = w.update(i, y);
    let p = m.payload.update(i - HEADER_LEN, y);
    let n = m.payload.len() as int;
    lemma_wire_layout(m);
    assert(c.subrange(1, 3) =~= w.subrange(1, 3));
    assert(c.subrange(3, 11) =~= w.subrange(3, 11));
    assert(c.subrange(12, 12 + n) =~= p);
    assert(c.subrange(12 + n, 16 + n) =~= w.subrange(12 + n, 16 + n));
    assert(c.subrange(17 + n, c.len() as int) =~= Seq::<u8>::empty());
}

} // verus!
