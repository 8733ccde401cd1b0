//! A byte buffer that widens each byte written into it to a 16-bit amplitude.

use std::collections::VecDeque;

use vstd::prelude::*;

use crate::deque::take_front;
use crate::wire::be16;

verus! {

/// Scales a byte's range onto the full 16-bit range: `u16::MAX / u8::MAX`.
pub const AMPLITUDE_SCALE_FACTOR: u16 = 257;

/// The 16-bit amplitude of one byte.
pub open spec fn amplitude(b: u8) -> u16 {
    (b * AMPLITUDE_SCALE_FACTOR) as u16
}

/// What writing `s` adds: the big-endian amplitude of each byte, in order.
pub open spec fn modulate(s: Seq<u8>) -> Seq<u8>
    decreases s.len(),
{
    if s.len() == 0 {
        Seq::empty()
    } else {
        modulate(s.drop_last()) + be16(amplitude(s.last()))
    }
}

/// Takes bytes in and hands out their 16-bit amplitudes, big-endian, in
/// the order they were written.
pub struct PulseCodeModulator {
    buf: VecDeque<u8>,
}

impl View for PulseCodeModulator {
    type V = Seq<u8>;

    closed spec fn view(&self) -> Seq<u8> {
        self.buf@
    }
}

impl PulseCodeModulator {
    /// A modulator holding nothing.
    pub fn new() -> (r: PulseCodeModulator)
        ensures
            r@ == Seq::<u8>::empty(),
    {
        PulseCodeModulator { buf: VecDeque::new() }
    }

    /// Takes all of `buf` and returns how many bytes that was.
    pub fn write(&mut self, buf: &[u8]) -> (r: usize)
        ensures
            r == buf@.len(),
            final(self)@ == old(self)@ + modulate(buf@),
    {
        let mut i: usize = 0;
        while i < buf.len()
            invariant
                i <= buf@.len(),
                self@ == old(self)@ + modulate(buf@.take(i as int)),
            decreases buf@.len() - i,
        {
            let el_16: u16 = buf[i] as u16 * AMPLITUDE_SCALE_FACTOR;
            self.buf.push_back((el_16 >> 8) as u8);
            self.buf.push_back(el_16 as u8);
            proof {
                let t = buf@.take(i + 1);
                assert(t.drop_last() =~= buf@.take(i as int));
                assert(t.last() == buf@[i as int]);
            }
            i = i + 1;
            assert(self@ =~= old(self)@ + modulate(buf@.take(i as int)));
        }
        assert(buf@.take(i as int) =~= buf@);
        buf.len()
    }

    /// Hands out up to `requested` of the bytes held, oldest first.
    pub fn read(&mut self, requested: usize) -> (r: Vec<u8>)
        ensures
            r@.len() == if requested < old(self)@.len() {
                requested as int
            } else {
                old(self)@.len() as int
            },
            old(self)@ == r@ + final(self)@,
    {
        let n = if requested < self.buf.len() {
            requested
        } else {
            self.buf.len()
        };
        let out = take_front(&mut self.buf, n);
        assert(old(self)@ =~= out@ + self@);
        out
    }
}

} // verus!
