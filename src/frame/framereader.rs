//! Reassembling one stream from a channel of frames.
//!
//! A reader serves the bytes of the frames that carry its stream id, in the
//! order they arrive, and drops every other frame. It does not receive frames
//! itself: a read asks it what to do, the caller receives a frame when told to
//! and hands it over, or reports that the channel has closed.

use std::collections::VecDeque;

use vstd::prelude::*;

use super::{Frame, FrameModel};
use crate::deque::{push_all, take_front};

verus! {

/// The bytes a frame adds to the stream of a reader for `stream_id`: its
/// payload, or its whole wire form when the reader keeps raw frames, if the
/// frame belongs to the stream; nothing otherwise.
pub open spec fn contribution(stream_id: u64, write_raw: bool, f: FrameModel) -> Seq<u8> {
    if f.stream_id != stream_id {
        Seq::empty()
    } else if write_raw {
        f.wire()
    } else {
        f.payload
    }
}

/// The stream that `frames`, arriving in this order, make up for a reader of
/// `stream_id`.
pub open spec fn stream_for(stream_id: u64, write_raw: bool, frames: Seq<FrameModel>) -> Seq<u8>
    decreases frames.len(),
{
    if frames.len() == 0 {
        Seq::empty()
    } else {
        stream_for(stream_id, write_raw, frames.drop_last()) + contribution(
            stream_id,
            write_raw,
            frames.last(),
        )
    }
}

/// The frames of `frames` that belong to `stream_id`, in order.
pub open spec fn matching(stream_id: u64, frames: Seq<FrameModel>) -> Seq<FrameModel> {
    frames.filter(|f: FrameModel| f.stream_id == stream_id)
}

/// The payloads of the frames of `frames` that belong to `stream_id`, in order.
pub open spec fn payloads_of(stream_id: u64, frames: Seq<FrameModel>) -> Seq<Seq<u8>> {
    matching(stream_id, frames).map_values(|f: FrameModel| f.payload)
}

/// Multiplexing filter: whatever frames of other streams are interleaved
/// with them, a reader of stream `a` yields exactly the payloads of the frames
/// of `a`, concatenated in the order they were sent, and nothing of the others.
pub proof fn multiplexing_filter(frames: Seq<FrameModel>, a: u64)
    ensures
        stream_for(a, false, frames) == payloads_of(a, frames).flatten(),
    decreases frames.len(),
{
    if frames.len() > 0 {
        let front = frames.drop_last();
        let f = frames.last();
        multiplexing_filter(front, a);
        reveal(Seq::filter);
        if f.stream_id == a {
            assert(matching(a, frames) == matching(a, front).push(f));
            assert(payloads_of(a, frames) =~= payloads_of(a, front).push(f.payload));
            payloads_of(a, front).lemma_flatten_push(f.payload);
        } else {
            assert(matching(a, frames) == matching(a, front));
            assert(stream_for(a, false, frames) =~= stream_for(a, false, front));
        }
    } else {
        reveal(Seq::filter);
        assert(payloads_of(a, frames) =~= Seq::<Seq<u8>>::empty());
    }
}

/// What a reader holds: the stream it serves, whether it keeps whole frames
/// rather than payloads, and the bytes received but not yet served.
pub struct ReaderModel {
    pub stream_id: u64,
    pub write_raw: bool,
    pub pending: Seq<u8>,
}

/// What a read must do next.
pub enum ReadAction {
    /// Hand these bytes to the caller; an empty answer to a non-empty request
    /// is the end of the stream.
    Serve(Vec<u8>),
    /// Wait for the next frame on the channel, or for its closing.
    Receive,
}

/// The number of bytes a read of `requested` bytes serves out of `pending` held.
pub open spec fn served_len(pending: nat, requested: nat) -> nat {
    if requested < pending {
        requested
    } else {
        pending
    }
}

/// Reassembles the stream of one id out of frames of many.
pub struct FrameReader {
    buf: VecDeque<u8>,
    user_id: u64,
    write_raw: bool,
}

impl View for FrameReader {
    type V = ReaderModel;

    closed spec fn view(&self) -> ReaderModel {
        ReaderModel { stream_id: self.user_id, write_raw: self.write_raw, pending: self.buf@ }
    }
}

impl FrameReader {
    /// A reader of stream `user_id` that has received nothing yet. With
    /// `write_raw` it serves the whole wire form of each of its frames instead
    /// of the payload alone.
    pub fn new(user_id: u64, write_raw: bool) -> (r: FrameReader)
        ensures
            r@ == (ReaderModel { stream_id: user_id, write_raw, pending: Seq::empty() }),
    {
        FrameReader { buf: VecDeque::new(), user_id, write_raw }
    }

    /// Serves up to `requested` bytes of what is held.
    fn serve(&mut self, requested: usize) -> (r: Vec<u8>)
        ensures
            r@ == old(self)@.pending.take(served_len(old(self)@.pending.len(), requested as nat) as int),
            final(self)@ == (ReaderModel {
                pending: old(self)@.pending.skip(served_len(old(self)@.pending.len(), requested as nat) as int),
                ..old(self)@
            }),
    {
        let n = if requested < self.buf.len() {
            requested
        } else {
            self.buf.len()
        };
        take_front(&mut self.buf, n)
    }

    /// Starts a read of `requested` bytes: serves them at once when enough
    /// are held, else asks for a frame.
    pub fn begin_read(&mut self, requested: usize) -> (r: ReadAction)
        ensures
            requested <= old(self)@.pending.len() ==> (r matches ReadAction::Serve(out) && out@
                == old(self)@.pending.take(requested as int) && final(self)@ == (ReaderModel {
                pending: old(self)@.pending.skip(requested as int),
                ..old(self)@
            })),
            requested > old(self)@.pending.len() ==> r is Receive && final(self)@ == old(self)@,
    {
        if requested <= self.buf.len() {
            ReadAction::Serve(self.serve(requested))
        } else {
            ReadAction::Receive
        }
    }

    /// Takes the frame received for a read of `requested` bytes. A frame of
    /// this reader's stream adds its bytes to what is held and the read is
    /// served from that, unless nothing at all is held; any other frame is
    /// dropped and the read goes on waiting.
    pub fn on_frame(&mut self, frame: Frame, requested: usize) -> (r: ReadAction)
        ensures
            ({
                let held = old(self)@.pending + contribution(
                    old(self)@.stream_id,
                    old(self)@.write_raw,
                    frame@,
                );
                let k = served_len(held.len(), requested as nat) as int;
                let mine = frame@.stream_id == old(self)@.stream_id;
                &&& mine && held.len() > 0 ==> (r matches ReadAction::Serve(out) && out@ == held.take(
                    k,
                ) && final(self)@ == (ReaderModel { pending: held.skip(k), ..old(self)@ }))
                &&& !(mine && held.len() > 0) ==> r is Receive && final(self)@ == old(self)@
            }),
    {
        if frame.stream_id() != self.user_id {
            return ReadAction::Receive;
        }
        if self.write_raw {
            let wire = frame.encode();
            push_all(&mut self.buf, wire.as_slice());
        } else {
            push_all(&mut self.buf, frame.payload());
        }
        if self.buf.len() > 0 {
            ReadAction::Serve(self.serve(requested))
        } else {
            assert(self.buf@ =~= old(self)@.pending);
            ReadAction::Receive
        }
    }

    /// Ends a read of `requested` bytes on a closed channel: serves what is
    /// held, up to `requested`; nothing served is the end of the stream.
    pub fn on_closed(&mut self, requested: usize) -> (r: Vec<u8>)
        ensures
            ({
                let k = served_len(old(self)@.pending.len(), requested as nat) as int;
                &&& r@ == old(self)@.pending.take(k)
                &&& final(self)@ == (ReaderModel { pending: old(self)@.pending.skip(k), ..old(self)@ })
            }),
    {
        self.serve(requested)
    }
}

impl Frame {
    /// A reader of the payloads of stream `user_id`, to be handed the frames
    /// of a channel as its reads ask for them.
    pub fn read_body_from_stream(user_id: u64) -> (r: FrameReader)
        ensures
            r@ == (ReaderModel { stream_id: user_id, write_raw: false, pending: Seq::empty() }),
    {
        FrameReader::new(user_id, false)
    }
}

/// One thing that happens to a reader: a read of so many bytes starts, a
/// frame is handed over during a read of so many bytes, or the channel is
/// found closed during a read of so many bytes.
pub enum ReaderEvent {
    Read(nat),
    Frame(FrameModel, nat),
    Closed(nat),
}

/// Serving `k` bytes out of what `m` holds.
pub open spec fn serve_from(m: ReaderModel, held: Seq<u8>, k: int) -> (ReaderModel, Seq<u8>) {
    (ReaderModel { pending: held.skip(k), ..m }, held.take(k))
}

/// The reader after event `e`, and the bytes `e` served, as the reader's
/// methods state them.
pub open spec fn step(m: ReaderModel, e: ReaderEvent) -> (ReaderModel, Seq<u8>) {
    match e {
        ReaderEvent::Read(n) => if n <= m.pending.len() {
            serve_from(m, m.pending, n as int)
        } else {
            (m, Seq::empty())
        },
        ReaderEvent::Frame(f, n) => {
            let held = m.pending + contribution(m.stream_id, m.write_raw, f);
            if f.stream_id == m.stream_id && held.len() > 0 {
                serve_from(m, held, served_len(held.len(), n) as int)
            } else {
                (m, Seq::empty())
            }
        },
        ReaderEvent::Closed(n) => serve_from(m, m.pending, served_len(m.pending.len(), n) as int),
    }
}

/// The reader after `events`, in order, and all the bytes they served.
pub open spec fn run(m: ReaderModel, events: Seq<ReaderEvent>) -> (ReaderModel, Seq<u8>)
    decreases events.len(),
{
    if events.len() == 0 {
        (m, Seq::empty())
    } else {
        let (before, out) = run(m, events.drop_last());
        let (after, more) = step(before, events.last());
        (after, out + more)
    }
}

/// The frames handed over among `events`, in order.
pub open spec fn frames_in(events: Seq<ReaderEvent>) -> Seq<FrameModel>
    decreases events.len(),
{
    if events.len() == 0 {
        Seq::empty()
    } else {
        match events.last() {
            ReaderEvent::Frame(f, _) => frames_in(events.drop_last()).push(f),
            _ => frames_in(events.drop_last()),
        }
    }
}

/// Order is kept: however reads and frames interleave, everything a reader
/// has served, followed by what it still holds, is what it held at first
/// followed by the stream of the frames it was handed.
pub proof fn reader_keeps_order(m: ReaderModel, events: Seq<ReaderEvent>)
    ensures
        run(m, events).1 + run(m, events).0.pending == m.pending + stream_for(
            m.stream_id,
            m.write_raw,
            frames_in(events),
        ),
        run(m, events).0.stream_id == m.stream_id,
        run(m, events).0.write_raw == m.write_raw,
    decreases events.len(),
{
    if events.len() == 0 {
        assert(Seq::<u8>::empty() + m.pending =~= m.pending + Seq::<u8>::empty());
    } else {
        let front = events.drop_last();
        reader_keeps_order(m, front);
        let (before, out) = run(m, front);
        let e = events.last();
        let fs = frames_in(front);
        let stream = stream_for(m.stream_id, m.write_raw, fs);
        match e {
            ReaderEvent::Frame(f, n) => {
                let c = contribution(m.stream_id, m.write_raw, f);
                assert(fs.push(f).drop_last() =~= fs);
                assert(stream_for(m.stream_id, m.write_raw, fs.push(f)) == stream + c);
                let held = before.pending + c;
                if f.stream_id == m.stream_id && held.len() > 0 {
                    let k = served_len(held.len(), n) as int;
                    assert(out + held.take(k) + held.skip(k) =~= out + held);
                    assert(out + before.pending == m.pending + stream);
                    assert(out + held =~= (out + before.pending) + c);
                    assert(out + held =~= m.pending + (stream + c));
                } else {
                    assert(c =~= Seq::<u8>::empty());
                    assert(out + Seq::<u8>::empty() + before.pending =~= m.pending + (stream + c));
                }
            },
            ReaderEvent::Read(n) => {
                if n <= before.pending.len() {
                    assert(out + before.pending.take(n as int) + before.pending.skip(n as int)
                        =~= out + before.pending);
                } else {
                    assert(out + Seq::<u8>::empty() =~= out);
                }
            },
            ReaderEvent::Closed(n) => {
                let k = served_len(before.pending.len(), n) as int;
                assert(out + before.pending.take(k) + before.pending.skip(k) =~= out
                    + before.pending);
            },
        }
    }
}

} // verus!
