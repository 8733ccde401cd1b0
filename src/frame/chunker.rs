//! Cutting a byte source into frames.
//!
//! The chunker holds the bytes read so far that do not yet fill a frame.
//! Whenever `MAX_PAYLOAD` of them have gathered, exactly that many are cut off
//! into a frame; when the source is exhausted, whatever is left becomes one
//! last frame, and an empty remainder gives none.

use vstd::prelude::*;

use super::error::FrameError;
use super::{sealed, Frame, FrameModel};
use crate::wire::MAX_PAYLOAD;

verus! {

/// The payloads that cutting `d` into frames gives: full frames in order,
/// then one shorter frame for the rest, if any is left.
pub open spec fn chunks_of(d: Seq<u8>) -> Seq<Seq<u8>>
    decreases d.len(),
{
    if d.len() == 0 {
        Seq::empty()
    } else if d.len() <= MAX_PAYLOAD {
        seq![d]
    } else {
        seq![d.take(MAX_PAYLOAD as int)] + chunks_of(d.skip(MAX_PAYLOAD as int))
    }
}

/// The full frames' payloads that can be cut from the front of `d`.
pub open spec fn full_chunks(d: Seq<u8>) -> Seq<Seq<u8>>
    decreases d.len(),
{
    if d.len() < MAX_PAYLOAD {
        Seq::empty()
    } else {
        seq![d.take(MAX_PAYLOAD as int)] + full_chunks(d.skip(MAX_PAYLOAD as int))
    }
}

/// What is left of `d` once every full frame has been cut from it.
pub open spec fn leftover(d: Seq<u8>) -> Seq<u8>
    decreases d.len(),
{
    if d.len() < MAX_PAYLOAD {
        d
    } else {
        leftover(d.skip(MAX_PAYLOAD as int))
    }
}

/// The frames that carry `chunks`, in order, on stream `stream_id`.
pub open spec fn frames_for(chunks: Seq<Seq<u8>>, stream_id: u64) -> Seq<FrameModel> {
    chunks.map_values(|c: Seq<u8>| sealed(c, stream_id))
}

/// The models of `frames`.
pub open spec fn views(frames: Seq<Frame>) -> Seq<FrameModel> {
    frames.map_values(|f: Frame| f@)
}

/// What is left after cutting full frames is shorter than one.
pub proof fn lemma_leftover_short(d: Seq<u8>)
    ensures
        leftover(d).len() < MAX_PAYLOAD,
    decreases d.len(),
{
    if d.len() >= MAX_PAYLOAD {
        lemma_leftover_short(d.skip(MAX_PAYLOAD as int));
    }
}

/// Cutting a whole source is cutting its full frames, then its leftover.
pub proof fn lemma_chunks_split(d: Seq<u8>)
    ensures
        chunks_of(d) == full_chunks(d) + if leftover(d).len() == 0 {
            Seq::<Seq<u8>>::empty()
        } else {
            seq![leftover(d)]
        },
    decreases d.len(),
{
    let tail = if leftover(d).len() == 0 {
        Seq::<Seq<u8>>::empty()
    } else {
        seq![leftover(d)]
    };
    if d.len() >= MAX_PAYLOAD {
        let head = d.take(MAX_PAYLOAD as int);
        let rest = d.skip(MAX_PAYLOAD as int);
        assert(full_chunks(d) == seq![head] + full_chunks(rest));
        assert(leftover(d) == leftover(rest));
        if d.len() == MAX_PAYLOAD {
            assert(rest.len() == 0);
            assert(full_chunks(rest) == Seq::<Seq<u8>>::empty());
            assert(leftover(rest) == rest);
            assert(head =~= d);
            assert(chunks_of(d) =~= full_chunks(d) + tail);
        } else {
            lemma_chunks_split(rest);
            assert(chunks_of(d) == seq![head] + chunks_of(rest));
            assert(seq![head] + (full_chunks(rest) + tail) =~= seq![head] + full_chunks(rest) + tail);
        }
    } else if d.len() == 0 {
        assert(chunks_of(d) =~= full_chunks(d) + tail);
    } else {
        assert(chunks_of(d) =~= full_chunks(d) + tail);
    }
}

/// Chunking size law: a source of length `L` gives `ceil(L / MAX_PAYLOAD)`
/// payloads, none when it is empty; every payload but the last holds exactly
/// `MAX_PAYLOAD` bytes and none is empty; and the payloads, concatenated in
/// order, are the source.
pub proof fn chunking_size_law(d: Seq<u8>)
    ensures
        chunks_of(d).len() == (d.len() + MAX_PAYLOAD - 1) / (MAX_PAYLOAD as int),
        forall|i: int|
            0 <= i < chunks_of(d).len() - 1 ==> (#[trigger] chunks_of(d)[i]).len() == MAX_PAYLOAD,
        forall|i: int|
            0 <= i < chunks_of(d).len() ==> 0 < (#[trigger] chunks_of(d)[i]).len() <= MAX_PAYLOAD,
        chunks_of(d).flatten() == d,
    decreases d.len(),
{
    let c = chunks_of(d);
    if d.len() == 0 {
        assert(c.flatten() =~= d);
    } else if d.len() <= MAX_PAYLOAD {
        assert(c.drop_first() =~= Seq::<Seq<u8>>::empty());
        assert(c.drop_first().flatten() == Seq::<u8>::empty());
        assert(c.flatten() =~= d);
    } else {
        let head = d.take(MAX_PAYLOAD as int);
        let rest = d.skip(MAX_PAYLOAD as int);
        chunking_size_law(rest);
        let cr = chunks_of(rest);
        assert(c == seq![head] + cr);
        assert forall|i: int| 0 <= i < c.len() implies 0 < (#[trigger] c[i]).len() <= MAX_PAYLOAD
            && (i < c.len() - 1 ==> c[i].len() == MAX_PAYLOAD) by {
            if i > 0 {
                assert(c[i] == cr[i - 1]);
            }
        }
        assert(c.drop_first() =~= cr);
        assert(c.flatten() == head + cr.flatten());
        assert(head + rest =~= d);
    }
}

/// Cutting full frames from `p + b` is cutting them from `p`, then from what
/// `p` leaves followed by `b`.
pub proof fn lemma_full_chunks_append(p: Seq<u8>, b: Seq<u8>)
    ensures
        full_chunks(p + b) == full_chunks(p) + full_chunks(leftover(p) + b),
        leftover(p + b) == leftover(leftover(p) + b),
    decreases p.len(),
{
    if p.len() < MAX_PAYLOAD {
        assert(full_chunks(p) + full_chunks(leftover(p) + b) =~= full_chunks(p + b));
    } else {
        let m = MAX_PAYLOAD as int;
        lemma_full_chunks_append(p.skip(m), b);
        assert((p + b).take(m) =~= p.take(m));
        assert((p + b).skip(m) =~= p.skip(m) + b);
        assert(full_chunks(p + b) == seq![p.take(m)] + full_chunks(p.skip(m) + b));
        assert(full_chunks(p) == seq![p.take(m)] + full_chunks(p.skip(m)));
        assert(seq![p.take(m)] + (full_chunks(p.skip(m)) + full_chunks(leftover(p) + b))
            =~= seq![p.take(m)] + full_chunks(p.skip(m)) + full_chunks(leftover(p) + b));
    }
}

/// The bytes a fresh chunker holds after it has been fed `reads` in order.
pub open spec fn held(reads: Seq<Seq<u8>>) -> Seq<u8>
    decreases reads.len(),
{
    if reads.len() == 0 {
        Seq::empty()
    } else {
        leftover(held(reads.drop_last()) + reads.last())
    }
}

/// The payloads of the frames a fresh chunker returns while it is fed
/// `reads` in order, and then of the frame its end of source adds, if any.
pub open spec fn fed_chunks(reads: Seq<Seq<u8>>) -> Seq<Seq<u8>>
    decreases reads.len(),
{
    if reads.len() == 0 {
        Seq::empty()
    } else {
        fed_chunks(reads.drop_last()) + full_chunks(held(reads.drop_last()) + reads.last())
    }
}

proof fn lemma_fed_prefix(reads: Seq<Seq<u8>>)
    ensures
        fed_chunks(reads) == full_chunks(reads.flatten()),
        held(reads) == leftover(reads.flatten()),
    decreases reads.len(),
{
    if reads.len() > 0 {
        let front = reads.drop_last();
        lemma_fed_prefix(front);
        assert(front.push(reads.last()) =~= reads);
        front.lemma_flatten_push(reads.last());
        lemma_full_chunks_append(front.flatten(), reads.last());
    } else {
        assert(full_chunks(reads.flatten()) =~= Seq::<Seq<u8>>::empty());
    }
}

/// Reading in pieces changes nothing: feeding a source to a chunker in any
/// pieces and then ending it yields the payloads that cutting the whole
/// source at once gives.
pub proof fn pieces_law(reads: Seq<Seq<u8>>)
    ensures
        fed_chunks(reads) + (if held(reads).len() == 0 {
            Seq::<Seq<u8>>::empty()
        } else {
            seq![held(reads)]
        }) == chunks_of(reads.flatten()),
{
    lemma_fed_prefix(reads);
    lemma_chunks_split(reads.flatten());
}

/// What a chunker holds: the stream it writes for, and the bytes not yet
/// cut into a frame.
pub struct ChunkerModel {
    pub stream_id: u64,
    pub pending: Seq<u8>,
}

/// Turns a byte source, read piece by piece, into frames for one stream.
pub struct Chunker {
    buf: Vec<u8>,
    user_id: u64,
}

impl View for Chunker {
    type V = ChunkerModel;

    closed spec fn view(&self) -> ChunkerModel {
        ChunkerModel { stream_id: self.user_id, pending: self.buf@ }
    }
}

impl Chunker {
    #[verifier::type_invariant]
    spec fn short(&self) -> bool {
        self.buf@.len() < MAX_PAYLOAD
    }

    /// A chunker for stream `user_id`, holding nothing yet.
    pub fn new(user_id: u64) -> (r: Chunker)
        ensures
            r@ == (ChunkerModel { stream_id: user_id, pending: Seq::empty() }),
    {
        Chunker { buf: Vec::new(), user_id }
    }

    /// Takes the next bytes read from the source and returns the full frames
    /// they complete, in order.
    pub fn feed(&mut self, bytes: &[u8]) -> (frames: Vec<Frame>)
        ensures
            final(self)@.stream_id == old(self)@.stream_id,
            final(self)@.pending == leftover(old(self)@.pending + bytes@),
            final(self)@.pending.len() < MAX_PAYLOAD,
            views(frames@) == frames_for(full_chunks(old(self)@.pending + bytes@), old(self)@.stream_id),
    {
        let ghost all = self@.pending + bytes@;
        let mut buf: Vec<u8> = Vec::new();
        std::mem::swap(&mut buf, &mut self.buf);
        buf.extend_from_slice(bytes);
        assert(buf@ =~= all);
        let user_id = self.user_id;
        let mut frames: Vec<Frame> = Vec::new();
        while buf.len() >= MAX_PAYLOAD
            invariant
                frames_for(full_chunks(all), user_id) == views(frames@) + frames_for(
                    full_chunks(buf@),
                    user_id,
                ),
                leftover(all) == leftover(buf@),
            decreases buf@.len(),
        {
            let ghost before = buf@;
            let frame = match Frame::flush_frame(MAX_PAYLOAD, user_id, &mut buf) {
                Ok(f) => f,
                Err(_) => {
                    assert(false);
                    return Vec::new();
                },
            };
            let ghost head = before.take(MAX_PAYLOAD as int);
            assert(full_chunks(before) == seq![head] + full_chunks(buf@));
            assert(frames_for(seq![head] + full_chunks(buf@), user_id) =~= seq![sealed(head, user_id)]
                + frames_for(full_chunks(buf@), user_id));
            let ghost old_frames = frames@;
            frames.push(frame);
            assert(views(frames@) =~= views(old_frames) + seq![sealed(head, user_id)]);
        }
        proof {
            lemma_leftover_short(all);
        }
        assert(frames_for(full_chunks(buf@), user_id) =~= Seq::<FrameModel>::empty());
        assert(views(frames@) + Seq::<FrameModel>::empty() =~= views(frames@));
        self.buf = buf;
        frames
    }

    /// Ends the source: the bytes still held become one last frame, or none
    /// when nothing is held.
    pub fn finish(self) -> (r: Option<Frame>)
        ensures
            self@.pending.len() == 0 ==> r is None,
            self@.pending.len() > 0 ==> (r matches Some(f) && f@ == sealed(
                self@.pending,
                self@.stream_id,
            )),
    {
        proof {
            use_type_invariant(&self);
        }
        if self.buf.len() == 0 {
            None
        } else {
            match Frame::new(self.buf.as_slice(), self.user_id) {
                Ok(f) => Some(f),
                Err(_) => None,
            }
        }
    }
}

/// Cuts a whole source into frames for stream `user_id`.
pub fn chunk(data: &[u8], user_id: u64) -> (frames: Vec<Frame>)
    ensures
        views(frames@) == frames_for(chunks_of(data@), user_id),
{
    let mut chunker = Chunker::new(user_id);
    let mut frames = chunker.feed(data);
    assert(Seq::<u8>::empty() + data@ =~= data@);
    let ghost pending = chunker@.pending;
    proof {
        lemma_chunks_split(data@);
    }
    match chunker.finish() {
        Some(f) => {
            let ghost before = frames@;
            frames.push(f);
            assert(views(frames@) =~= views(before) + seq![sealed(pending, user_id)]);
            assert(frames_for(full_chunks(data@) + seq![pending], user_id) =~= frames_for(
                full_chunks(data@),
                user_id,
            ) + seq![sealed(pending, user_id)]);
        },
        None => {
            assert(full_chunks(data@) + Seq::<Seq<u8>>::empty() =~= full_chunks(data@));
        },
    }
    frames
}

impl Frame {
    /// Cuts the first `n_bytes` bytes off `buf` into a frame for `user_id`.
    pub fn flush_frame(n_bytes: usize, user_id: u64, buf: &mut Vec<u8>) -> (r: Result<
        Frame,
        FrameError,
    >)
        requires
            n_bytes <= old(buf)@.len(),
        ensures
            final(buf)@ == old(buf)@.skip(n_bytes as int),
            n_bytes <= MAX_PAYLOAD ==> (r matches Ok(f) && f@ == sealed(
                old(buf)@.take(n_bytes as int),
                user_id,
            )),
            n_bytes > MAX_PAYLOAD ==> r == Err::<Frame, FrameError>(FrameError::BodySize(n_bytes)),
    {
        let rest = buf.split_off(n_bytes);
        let r = Frame::new(buf.as_slice(), user_id);
        *buf = rest;
        assert(old(buf)@.take(n_bytes as int) =~= old(buf)@.subrange(0, n_bytes as int));
        r
    }
}

} // verus!
