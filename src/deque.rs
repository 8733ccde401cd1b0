//! Moving bytes in and out of a byte queue.

use std::collections::VecDeque;

use vstd::prelude::*;

verus! {

/// Appends `bytes` to the back of `buf`.
pub(crate) fn push_all(buf: &mut VecDeque<u8>, bytes: &[u8])
    ensures
        final(buf)@ == old(buf)@ + bytes@,
{
    let mut i: usize = 0;
    while i < bytes.len()
        invariant
            i <= bytes@.len(),
            buf@ == old(buf)@ + bytes@.take(i as int),
        decreases bytes@.len() - i,
    {
        buf.push_back(bytes[i]);
        i = i + 1;
        assert(buf@ =~= old(buf)@ + bytes@.take(i as int));
    }
    assert(bytes@.take(i as int) =~= bytes@);
}

/// Removes the first `n` bytes of `buf` and returns them.
pub(crate) fn take_front(buf: &mut VecDeque<u8>, n: usize) -> (r: Vec<u8>)
    requires
        n <= old(buf)@.len(),
    ensures
        r@ == old(buf)@.take(n as int),
        final(buf)@ == old(buf)@.skip(n as int),
{
    let mut out: Vec<u8> = Vec::new();
    let mut i: usize = 0;
    while i < n
        invariant
            i <= n,
            n <= old(buf)@.len(),
            out@ == old(buf)@.take(i as int),
            buf@ == old(buf)@.skip(i as int),
        decreases n - i,
    {
        match buf.pop_front() {
            Some(b) => out.push(b),
            None => {
                assert(false);
            },
        }
        i = i + 1;
        assert(out@ =~= old(buf)@.take(i as int));
        assert(buf@ =~= old(buf)@.skip(i as int));
    }
    out
}

} // verus!
