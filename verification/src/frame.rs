//! Re-chunking of an inbound byte sequence into frames.
//!
//! A [`Framer`] buffers the bytes that arrive and cuts complete frames off
//! their head. The drivers feed a framer from an upstream of chunks, one
//! decision at a time, so that a caller that waits on asynchronous endpoints
//! can run them between its callbacks; [`Frame`] runs them over a finished
//! list of chunks.

use crate::buffer::{
    buf_extend, buf_len, buf_new, buf_split_to, buf_view, bytes_clone, bytes_len, bytes_view,
    chunk_views,
};
use bytes::{Bytes, BytesMut};
use vstd::prelude::*;
use vstd::seq_lib::lemma_flatten_concat;

verus! {

/// The length of the complete frame at the head of `bytes` under `rule`, if
/// the rule finds one there and it lies within `bytes`.
pub open spec fn head_len(rule: spec_fn(Seq<u8>) -> Option<nat>, bytes: Seq<u8>) -> Option<nat> {
    match rule(bytes) {
        Some(n) => if n <= bytes.len() {
            Some(n)
        } else {
            None
        },
        None => None,
    }
}

/// A rule makes progress when it never cuts an empty frame.
pub open spec fn makes_progress(rule: spec_fn(Seq<u8>) -> Option<nat>) -> bool {
    forall|bytes: Seq<u8>| #[trigger] rule(bytes) != Some(0nat)
}

/// A re-chunker of bytes: it takes chunks in and hands complete frames out.
pub trait Framer: Send {
    /// The bytes taken in and not yet handed out, in order.
    spec fn pending(&self) -> Seq<u8>;

    /// Where this framer cuts: for given buffered bytes, the length of the
    /// first complete frame, or `None` while the frame is incomplete.
    spec fn rule(&self) -> spec_fn(Seq<u8>) -> Option<nat>;

    /// The number of bytes taken in and not yet handed out.
    fn buffered(&self) -> (n: usize)
        ensures
            n == self.pending().len(),
    ;

    /// Buffer more data into the framer.
    fn buffer(&mut self, bytes: Bytes)
        requires
            old(self).pending().len() + bytes_view(bytes).len() <= usize::MAX,
        ensures
            final(self).rule() == old(self).rule(),
            final(self).pending() == old(self).pending() + bytes_view(bytes),
    ;

    /// Get the next frame, if a complete one is buffered.
    fn next(&mut self) -> (frame: Option<Bytes>)
        ensures
            final(self).rule() == old(self).rule(),
            match head_len(old(self).rule(), old(self).pending()) {
                Some(n) => {
                    &&& frame matches Some(b)
                    &&& bytes_view(b) == old(self).pending().take(n as int)
                    &&& final(self).pending() == old(self).pending().skip(n as int)
                },
                None => frame is None && final(self).pending() == old(self).pending(),
            },
    ;

    /// Get all buffered data, if there is any, and leave the buffer empty.
    fn flush(&mut self) -> (rest: Option<Bytes>)
        ensures
            final(self).rule() == old(self).rule(),
            final(self).pending() == Seq::<u8>::empty(),
            match rest {
                Some(b) => old(self).pending().len() > 0 && bytes_view(b) == old(self).pending(),
                None => old(self).pending().len() == 0,
            },
    ;
}

/// The rule of fixed-length framing: a frame is complete as soon as `len`
/// bytes are buffered.
pub open spec fn len_rule(len: nat) -> spec_fn(Seq<u8>) -> Option<nat> {
    |bytes: Seq<u8>|
        if bytes.len() >= len {
            Some(len)
        } else {
            None
        }
}

/// A fixed-length rule makes progress if and only if its length is not zero.
pub proof fn lemma_len_rule_progress(len: nat)
    ensures
        makes_progress(len_rule(len)) <==> len > 0,
{
    if len == 0 {
        assert(len_rule(len)(Seq::<u8>::empty()) == Some(0nat));
    }
}

/// A framer that cuts frames of a fixed length.
pub struct Len {
    len: usize,
    buf: BytesMut,
}

impl Len {
    /// The length of each frame.
    pub closed spec fn frame_len(&self) -> nat {
        self.len as nat
    }

    pub fn new(len: usize) -> (framer: Len)
        ensures
            framer.frame_len() == len,
            framer.pending() == Seq::<u8>::empty(),
    {
        Len { len: len, buf: buf_new() }
    }

    /// The length of each frame.
    pub fn len(&self) -> (len: usize)
        ensures
            len == self.frame_len(),
    {
        self.len
    }
}

impl Framer for Len {
    closed spec fn pending(&self) -> Seq<u8> {
        buf_view(self.buf)
    }

    open spec fn rule(&self) -> spec_fn(Seq<u8>) -> Option<nat> {
        len_rule(self.frame_len())
    }

    fn buffered(&self) -> (n: usize) {
        buf_len(&self.buf)
    }

    fn buffer(&mut self, bytes: Bytes)
        ensures
            final(self).frame_len() == old(self).frame_len(),
    {
        buf_extend(&mut self.buf, &bytes);
    }

    fn next(&mut self) -> (frame: Option<Bytes>)
        ensures
            final(self).frame_len() == old(self).frame_len(),
    {
        if buf_len(&self.buf) >= self.len {
            Some(buf_split_to(&mut self.buf, self.len))
        } else {
            None
        }
    }

    fn flush(&mut self) -> (rest: Option<Bytes>)
        ensures
            final(self).frame_len() == old(self).frame_len(),
    {
        let n = buf_len(&self.buf);
        if n > 0 {
            let rest = buf_split_to(&mut self.buf, n);
            Some(rest)
        } else {
            None
        }
    }
}

/// What a receive on the upstream delivered.
pub enum Pulled {
    /// The next chunk; the upstream goes on behind it.
    Chunk(Bytes),
    /// Orderly end of the upstream.
    End,
    /// The producer failed.
    Failed,
    /// The receive was dropped.
    Aborted,
}

/// What the driver of [`Frame::frame`] does next.
pub enum Step {
    /// Send this frame downstream, and come back when the downstream asks
    /// for the next one.
    Emit(Bytes),
    /// The framer is dry: receive on the upstream.
    Pull,
}

/// What the driver of [`Frame::frame`] does with what the upstream delivered.
pub enum Fed {
    /// The chunk is buffered: take the next step.
    More,
    /// The upstream has ended: send the remainder, if there is one, then end
    /// the downstream.
    Finish(Option<Bytes>),
    /// The upstream failed: fail the downstream.
    Fail,
    /// The upstream was dropped: stop, and send nothing.
    Stop,
}

/// What the driver of [`Frame::frame_one`] does with what the upstream
/// delivered.
pub enum One {
    /// No frame is complete yet: receive on the upstream again.
    Pull,
    /// The first frame, and the bytes buffered behind it, which go in front
    /// of what is left of the upstream.
    Head { frame: Bytes, surplus: Option<Bytes> },
    /// The upstream ended on a complete frame: the frame, with nothing
    /// behind it.
    Last(Bytes),
    /// The upstream ended before any frame was complete.
    Empty,
    /// The upstream failed: fail the downstream.
    Fail,
    /// The upstream was dropped: stop, and send nothing.
    Stop,
}

/// The step of the frame driver once the downstream wants the next frame:
/// the framer's next frame if one is complete, else a receive upstream.
pub fn frame_step<F: Framer>(framer: &mut F) -> (step: Step)
    ensures
        final(framer).rule() == old(framer).rule(),
        match head_len(old(framer).rule(), old(framer).pending()) {
            Some(n) => {
                &&& step matches Step::Emit(b)
                &&& bytes_view(b) == old(framer).pending().take(n as int)
                &&& final(framer).pending() == old(framer).pending().skip(n as int)
            },
            None => step is Pull && final(framer).pending() == old(framer).pending(),
        },
{
    match framer.next() {
        Some(bytes) => Step::Emit(bytes),
        None => Step::Pull,
    }
}

/// The step of the frame driver once the upstream has delivered: a chunk is
/// buffered, the end flushes the framer, a failure is passed on.
pub fn frame_feed<F: Framer>(framer: &mut F, pulled: Pulled) -> (fed: Fed)
    requires
        pulled matches Pulled::Chunk(c) ==> old(framer).pending().len() + bytes_view(c).len()
            <= usize::MAX,
    ensures
        final(framer).rule() == old(framer).rule(),
        match pulled {
            Pulled::Chunk(c) => fed is More && final(framer).pending() == old(framer).pending()
                + bytes_view(c),
            Pulled::End => {
                &&& final(framer).pending() == Seq::<u8>::empty()
                &&& fed matches Fed::Finish(last)
                &&& match last {
                    Some(b) => old(framer).pending().len() > 0 && bytes_view(b) == old(
                        framer,
                    ).pending(),
                    None => old(framer).pending().len() == 0,
                }
            },
            Pulled::Failed => fed is Fail && final(framer).pending() == old(framer).pending(),
            Pulled::Aborted => fed is Stop && final(framer).pending() == old(framer).pending(),
        },
{
    match pulled {
        Pulled::Chunk(chunk) => {
            framer.buffer(chunk);
            Fed::More
        },
        Pulled::End => Fed::Finish(framer.flush()),
        Pulled::Failed => Fed::Fail,
        Pulled::Aborted => Fed::Stop,
    }
}

/// The step of the one-frame driver once the upstream has delivered.
///
/// A chunk is buffered; if that completes a frame, the frame is handed out
/// together with all that is buffered behind it, and the framer is left
/// empty. At the end of the upstream a complete frame is handed out alone.
pub fn frame_one_feed<F: Framer>(framer: &mut F, pulled: Pulled) -> (one: One)
    requires
        pulled matches Pulled::Chunk(c) ==> old(framer).pending().len() + bytes_view(c).len()
            <= usize::MAX,
    ensures
        final(framer).rule() == old(framer).rule(),
        match pulled {
            Pulled::Chunk(c) => {
                let all = old(framer).pending() + bytes_view(c);
                match head_len(old(framer).rule(), all) {
                    Some(n) => {
                        &&& final(framer).pending() == Seq::<u8>::empty()
                        &&& one matches One::Head { frame, surplus }
                        &&& bytes_view(frame) == all.take(n as int)
                        &&& match surplus {
                            Some(b) => n < all.len() && bytes_view(b) == all.skip(n as int),
                            None => n == all.len(),
                        }
                    },
                    None => one is Pull && final(framer).pending() == all,
                }
            },
            Pulled::End => match head_len(old(framer).rule(), old(framer).pending()) {
                Some(n) => {
                    &&& one matches One::Last(frame)
                    &&& bytes_view(frame) == old(framer).pending().take(n as int)
                    &&& final(framer).pending() == old(framer).pending().skip(n as int)
                },
                None => one is Empty && final(framer).pending() == old(framer).pending(),
            },
            Pulled::Failed => one is Fail && final(framer).pending() == old(framer).pending(),
            Pulled::Aborted => one is Stop && final(framer).pending() == old(framer).pending(),
        },
{
    match pulled {
        Pulled::Chunk(chunk) => {
            framer.buffer(chunk);
            match framer.next() {
                Some(frame) => {
                    let surplus = framer.flush();
                    One::Head { frame, surplus }
                },
                None => One::Pull,
            }
        },
        Pulled::End => match framer.next() {
            Some(frame) => One::Last(frame),
            None => One::Empty,
        },
        Pulled::Failed => One::Fail,
        Pulled::Aborted => One::Stop,
    }
}

/// The frames that the frame driver sends downstream when its framer holds
/// `pending` and the upstream still delivers `chunks` and then ends: every
/// complete frame as soon as it is buffered, and at the end the remainder, if
/// there is one. It describes drivers whose rule makes progress.
pub open spec fn framed(
    rule: spec_fn(Seq<u8>) -> Option<nat>,
    pending: Seq<u8>,
    chunks: Seq<Seq<u8>>,
) -> Seq<Seq<u8>>
    decreases chunks.len(), pending.len(),
{
    match head_len(rule, pending) {
        Some(n) => if n > 0 {
            seq![pending.take(n as int)] + framed(rule, pending.skip(n as int), chunks)
        } else {
            Seq::empty()
        },
        None => if chunks.len() > 0 {
            framed(rule, pending + chunks.first(), chunks.drop_first())
        } else if pending.len() > 0 {
            seq![pending]
        } else {
            Seq::empty()
        },
    }
}

/// The items that the one-frame driver sends downstream when its framer holds
/// `pending` and the upstream still delivers `chunks` and then ends: the first
/// frame, the bytes buffered behind it as one item if there are any, and the
/// chunks that the upstream had left; nothing if no frame gets complete.
pub open spec fn framed_one(
    rule: spec_fn(Seq<u8>) -> Option<nat>,
    pending: Seq<u8>,
    chunks: Seq<Seq<u8>>,
) -> Seq<Seq<u8>>
    decreases chunks.len(),
{
    if chunks.len() == 0 {
        match head_len(rule, pending) {
            Some(n) => seq![pending.take(n as int)],
            None => Seq::empty(),
        }
    } else {
        let all = pending + chunks.first();
        match head_len(rule, all) {
            Some(n) => seq![all.take(n as int)] + (if n < all.len() {
                seq![all.skip(n as int)]
            } else {
                Seq::empty()
            }) + chunks.drop_first(),
            None => framed_one(rule, all, chunks.drop_first()),
        }
    }
}

/// The number of bytes in all of `chunks`, if a `usize` holds it.
pub fn total_len(chunks: &Vec<Bytes>) -> (total: Option<usize>)
    ensures
        match total {
            Some(n) => n == chunk_views(chunks@).flatten().len(),
            None => chunk_views(chunks@).flatten().len() > usize::MAX,
        },
{
    let ghost all = chunk_views(chunks@);
    let mut total: usize = 0;
    let mut i: usize = chunks.len();
    proof {
        assert(all.skip(i as int) == Seq::<Seq<u8>>::empty());
    }
    while i > 0
        invariant
            i <= chunks.len(),
            all == chunk_views(chunks@),
            total == all.skip(i as int).flatten().len(),
        decreases i,
    {
        i = i - 1;
        let ghost left = all.skip(i as int);
        proof {
            assert(left.first() == bytes_view(chunks@[i as int]));
            assert(left.drop_first() == all.skip(i + 1));
        }
        match total.checked_add(bytes_len(&chunks[i])) {
            Some(sum) => {
                total = sum;
            },
            None => {
                proof {
                    lemma_flatten_concat(all.take(i as int), left);
                    assert(all.take(i as int) + left == all);
                }
                return None;
            },
        }
    }
    proof {
        assert(all.skip(0) == all);
    }
    Some(total)
}

/// Runs the frame driver over a finished upstream.
fn frame<F: Framer>(src: &Vec<Bytes>, framer: F) -> (frames: Vec<Bytes>)
    requires
        makes_progress(framer.rule()),
        framer.pending().len() + chunk_views(src@).flatten().len() <= usize::MAX,
    ensures
        chunk_views(frames@) == framed(framer.rule(), framer.pending(), chunk_views(src@)),
{
    let ghost rule = framer.rule();
    let ghost all = chunk_views(src@);
    let ghost goal = framed(rule, framer.pending(), all);
    let mut framer = framer;
    let mut frames: Vec<Bytes> = Vec::new();
    let mut i: usize = 0;
    proof {
        assert(all.skip(0) == all);
        assert(chunk_views(frames@) == Seq::<Seq<u8>>::empty());
    }
    loop
        invariant_except_break
            i <= src.len(),
            framer.rule() == rule,
            makes_progress(rule),
            all == chunk_views(src@),
            framer.pending().len() + all.skip(i as int).flatten().len() <= usize::MAX,
            chunk_views(frames@) + framed(rule, framer.pending(), all.skip(i as int)) == goal,
        ensures
            chunk_views(frames@) == goal,
        decreases src.len() - i, framer.pending().len(),
    {
        let ghost before = chunk_views(frames@);
        let ghost held = framer.pending();
        let ghost left = all.skip(i as int);
        match frame_step(&mut framer) {
            Step::Emit(frame) => {
                frames.push(frame);
                proof {
                    let n = head_len(rule, held).unwrap();
                    assert(rule(held) != Some(0nat));
                    assert(chunk_views(frames@) == before + seq![held.take(n as int)]);
                }
            },
            Step::Pull => {
                if i < src.len() {
                    let chunk = bytes_clone(&src[i]);
                    proof {
                        assert(left.first() == bytes_view(chunk));
                        assert(left.drop_first() == all.skip(i + 1));
                    }
                    let _ = frame_feed(&mut framer, Pulled::Chunk(chunk));
                    i = i + 1;
                } else {
                    proof {
                        assert(left.len() == 0);
                    }
                    match frame_feed(&mut framer, Pulled::End) {
                        Fed::Finish(Some(last)) => {
                            frames.push(last);
                            proof {
                                assert(chunk_views(frames@) == before + seq![held]);
                            }
                        },
                        _ => {
                            proof {
                                assert(before + Seq::<Seq<u8>>::empty() == before);
                            }
                        },
                    }
                    break ;
                }
            },
        }
    }
    frames
}

/// Runs the one-frame driver over a finished upstream.
fn frame_one<F: Framer>(src: &Vec<Bytes>, framer: F) -> (items: Vec<Bytes>)
    requires
        framer.pending().len() + chunk_views(src@).flatten().len() <= usize::MAX,
    ensures
        chunk_views(items@) == framed_one(framer.rule(), framer.pending(), chunk_views(src@)),
{
    let ghost rule = framer.rule();
    let ghost all = chunk_views(src@);
    let ghost goal = framed_one(rule, framer.pending(), all);
    let mut state = framer;
    let mut items: Vec<Bytes> = Vec::new();
    let mut i: usize = 0;
    proof {
        assert(all.skip(0) == all);
    }
    while i < src.len()
        invariant
            i <= src.len(),
            items@.len() == 0,
            state.rule() == rule,
            all == chunk_views(src@),
            goal == framed_one(framer.rule(), framer.pending(), chunk_views(src@)),
            state.pending().len() + all.skip(i as int).flatten().len() <= usize::MAX,
            framed_one(rule, state.pending(), all.skip(i as int)) == goal,
        decreases src.len() - i,
    {
        let ghost held = state.pending();
        let ghost left = all.skip(i as int);
        let chunk = bytes_clone(&src[i]);
        proof {
            assert(left.first() == bytes_view(chunk));
            assert(left.drop_first() == all.skip(i + 1));
        }
        match frame_one_feed(&mut state, Pulled::Chunk(chunk)) {
            One::Head { frame, surplus } => {
                items.push(frame);
                match surplus {
                    Some(rest) => {
                        items.push(rest);
                    },
                    None => {},
                }
                i = i + 1;
                let ghost head = chunk_views(items@);
                proof {
                    assert(head + all.skip(i as int) == goal);
                }
                while i < src.len()
                    invariant
                        i <= src.len(),
                        all == chunk_views(src@),
                        chunk_views(items@) + all.skip(i as int) == goal,
                    decreases src.len() - i,
                {
                    let ghost before = chunk_views(items@);
                    let passed = bytes_clone(&src[i]);
                    items.push(passed);
                    proof {
                        assert(chunk_views(items@) == before + seq![all[i as int]]);
                        assert(seq![all[i as int]] + all.skip(i + 1) == all.skip(i as int));
                    }
                    i = i + 1;
                }
                proof {
                    assert(all.skip(i as int) == Seq::<Seq<u8>>::empty());
                    assert(chunk_views(items@) + all.skip(i as int) == chunk_views(items@));
                }
                return items;
            },
            _ => {
                i = i + 1;
            },
        }
    }
    proof {
        assert(all.skip(i as int).len() == 0);
    }
    match frame_one_feed(&mut state, Pulled::End) {
        One::Last(frame) => {
            items.push(frame);
        },
        _ => {},
    }
    proof {
        assert(chunk_views(items@) == goal);
    }
    items
}

/// Framing of a byte source.
pub trait Frame: Sized {
    /// The chunks that the source delivers before it ends, in order.
    spec fn chunks(&self) -> Seq<Seq<u8>>;

    /// All complete frames that `framer` cuts from the source, followed by
    /// the remainder, if the source ends within a frame.
    fn frame<F: Framer>(self, framer: F) -> (frames: Vec<Bytes>)
        requires
            makes_progress(framer.rule()),
            framer.pending().len() + self.chunks().flatten().len() <= usize::MAX,
        ensures
            chunk_views(frames@) == framed(framer.rule(), framer.pending(), self.chunks()),
    ;

    /// The first complete frame that `framer` cuts from the source, followed
    /// by the rest of the source, with the bytes that were buffered behind the
    /// frame at its head; nothing if the source ends before a frame is
    /// complete.
    fn frame_one<F: Framer>(self, framer: F) -> (items: Vec<Bytes>)
        requires
            framer.pending().len() + self.chunks().flatten().len() <= usize::MAX,
        ensures
            chunk_views(items@) == framed_one(framer.rule(), framer.pending(), self.chunks()),
    ;
}

impl Frame for Vec<Bytes> {
    open spec fn chunks(&self) -> Seq<Seq<u8>> {
        chunk_views(self@)
    }

    fn frame<F: Framer>(self, framer: F) -> (frames: Vec<Bytes>) {
        self::frame(&self, framer)
    }

    fn frame_one<F: Framer>(self, framer: F) -> (items: Vec<Bytes>) {
        self::frame_one(&self, framer)
    }
}

/// Cuts the bytes of a finished upstream into frames of `len` bytes, with a
/// fresh framer: the cutting of all the bytes, whatever the chunks they come
/// in. There is none for a length of zero, whose frames never end, nor where
/// the bytes are more than a `usize` counts.
pub fn frame_fixed(chunks: Vec<Bytes>, len: usize) -> (frames: Option<Vec<Bytes>>)
    ensures
        frames is Some <==> len > 0 && chunk_views(chunks@).flatten().len() <= usize::MAX,
        frames matches Some(out) ==> cut_into_frames(
            chunk_views(out@),
            chunk_views(chunks@).flatten(),
            len as nat,
        ),
{
    if len == 0 {
        return None;
    }
    match total_len(&chunks) {
        Some(_) => {
            proof {
                lemma_len_rule_progress(len as nat);
                lemma_frame_len_preserves(len as nat, chunk_views(chunks@));
            }
            Some(chunks.frame(Len::new(len)))
        },
        None => None,
    }
}

/// Cuts the first frame of `len` bytes off a finished upstream, with a fresh
/// framer. Where the upstream holds bytes, and as many as the frame takes,
/// the first item is exactly the first `len` bytes and the items behind it
/// hold all the others; where it holds fewer, there is no item. There is no
/// result where the bytes are more than a `usize` counts.
pub fn frame_one_fixed(chunks: Vec<Bytes>, len: usize) -> (items: Option<Vec<Bytes>>)
    ensures
        items is Some <==> chunk_views(chunks@).flatten().len() <= usize::MAX,
        items matches Some(out) ==> ({
            let b = chunk_views(chunks@).flatten();
            &&& chunk_views(out@) == framed_one(
                len_rule(len as nat),
                Seq::empty(),
                chunk_views(chunks@),
            )
            &&& b.len() > 0 && len <= b.len() ==> split_at_frame(chunk_views(out@), b, len as nat)
            &&& b.len() < len ==> out@.len() == 0
        }),
{
    match total_len(&chunks) {
        Some(_) => {
            proof {
                let all = chunk_views(chunks@);
                let b = all.flatten();
                assert(Seq::<u8>::empty() + b == b);
                if b.len() > 0 && len <= b.len() {
                    lemma_frame_one_len_splits(len as nat, all);
                }
                if b.len() < len {
                    lemma_framed_one_short(len as nat, Seq::empty(), all);
                }
            }
            let out = chunks.frame_one(Len::new(len));
            proof {
                assert(chunk_views(out@).len() == out@.len());
            }
            Some(out)
        },
        None => None,
    }
}

/// The cutting of `bytes` into consecutive pieces of `len` bytes, the last
/// one shorter where `len` does not divide the length.
pub open spec fn pieces(bytes: Seq<u8>, len: nat) -> Seq<Seq<u8>>
    decreases bytes.len(),
{
    if bytes.len() == 0 || len == 0 {
        Seq::empty()
    } else if bytes.len() < len {
        seq![bytes]
    } else {
        seq![bytes.take(len as int)] + pieces(bytes.skip(len as int), len)
    }
}

/// With a fixed-length rule, the frame driver sends the pieces of all the
/// bytes it is given: those that the framer holds, then those of the chunks.
pub proof fn lemma_framed_len(len: nat, pending: Seq<u8>, chunks: Seq<Seq<u8>>)
    requires
        len > 0,
    ensures
        framed(len_rule(len), pending, chunks) == pieces(pending + chunks.flatten(), len),
    decreases chunks.len(), pending.len(),
{
    let rule = len_rule(len);
    let all = pending + chunks.flatten();
    if pending.len() >= len {
        assert(head_len(rule, pending) == Some(len));
        lemma_framed_len(len, pending.skip(len as int), chunks);
        assert(all.take(len as int) == pending.take(len as int));
        assert(all.skip(len as int) == pending.skip(len as int) + chunks.flatten());
    } else {
        assert(head_len(rule, pending) is None);
        if chunks.len() > 0 {
            lemma_framed_len(len, pending + chunks.first(), chunks.drop_first());
            assert(pending + chunks.first() + chunks.drop_first().flatten() == all);
        } else {
            assert(all == pending);
        }
    }
}

/// What the pieces of `bytes` are, one by one, and that they lose nothing.
pub proof fn lemma_pieces(bytes: Seq<u8>, len: nat)
    requires
        len > 0,
    ensures
        pieces(bytes, len).len() == bytes.len() / len + if bytes.len() % len > 0 {
            1nat
        } else {
            0nat
        },
        forall|i: int|
            0 <= i < bytes.len() / len ==> #[trigger] pieces(bytes, len)[i] == bytes.subrange(
                i * len,
                i * len + len,
            ),
        bytes.len() % len > 0 ==> pieces(bytes, len)[(bytes.len() / len) as int] == bytes.skip(
            ((bytes.len() / len) * len) as int,
        ),
        pieces(bytes, len).flatten() == bytes,
    decreases bytes.len(),
{
    let out = pieces(bytes, len);
    let size = bytes.len() as int;
    let step = len as int;
    if size == 0 {
        assert(size / step == 0 && size % step == 0) by (nonlinear_arith)
            requires
                size == 0,
                step > 0,
        ;
    } else if size < step {
        assert(size / step == 0 && size % step == size) by (nonlinear_arith)
            requires
                0 < size < step,
        ;
        assert(bytes.skip(0) == bytes);
        out.lemma_flatten_one_element();
    } else {
        let head = bytes.take(step);
        let tail = bytes.skip(step);
        let rest = pieces(tail, len);
        lemma_pieces(tail, len);
        assert((size - step) / step == size / step - 1 && (size - step) % step == size % step
            && size / step >= 1) by (nonlinear_arith)
            requires
                0 < step <= size,
        ;
        assert(out.first() == head);
        assert(out.drop_first() == rest);
        assert(out.flatten() == bytes);
        assert forall|i: int| 0 <= i < size / step implies #[trigger] out[i] == bytes.subrange(
            i * step,
            i * step + step,
        ) by {
            if i == 0 {
                assert(0 * step == 0) by (nonlinear_arith);
            } else {
                assert((i - 1) * step + step == i * step && i * step + step <= (size / step)
                    * step && (size / step) * step <= size) by (nonlinear_arith)
                    requires
                        0 < i < size / step,
                        0 < step <= size,
                ;
                assert(out[i] == rest[i - 1]);
                assert(tail.subrange((i - 1) * step, (i - 1) * step + step) == bytes.subrange(
                    i * step,
                    i * step + step,
                ));
            }
        }
        if size % step > 0 {
            let k = size / step;
            assert((k - 1) * step + step == k * step && k * step <= size) by (nonlinear_arith)
                requires
                    k == size / step,
                    0 < step <= size,
            ;
            assert(out[k] == rest[k - 1]);
            assert(tail.skip((k - 1) * step) == bytes.skip(k * step));
        }
    }
}

/// Whether `out` is the cutting of `b` into frames of `len` bytes: with
/// `b.len() == k * len + r` and `r < len`, exactly `k` frames of `len` bytes,
/// then, if and only if `r > 0`, one last frame of `r` bytes; each is the
/// stretch of `b` at its place, none is empty, and put together they are
/// `b`.
pub open spec fn cut_into_frames(out: Seq<Seq<u8>>, b: Seq<u8>, len: nat) -> bool {
    let k = b.len() / len;
    let r = b.len() % len;
    &&& out.len() == k + if r > 0 {
        1nat
    } else {
        0nat
    }
    &&& forall|i: int|
        0 <= i < k ==> #[trigger] out[i] == b.subrange(i * len, i * len + len) && out[i].len()
            == len
    &&& r > 0 ==> out[k as int] == b.skip((k * len) as int) && out[k as int].len() == r
    &&& forall|i: int| 0 <= i < out.len() ==> (#[trigger] out[i]).len() > 0
    &&& out.flatten() == b
}

/// Whether `out` is `b` with its first `len` bytes as the first item: the
/// items behind it, put together, are the rest of `b`.
pub open spec fn split_at_frame(out: Seq<Seq<u8>>, b: Seq<u8>, len: nat) -> bool {
    &&& out.len() >= 1
    &&& out[0] == b.take(len as int)
    &&& out.drop_first().flatten() == b.skip(len as int)
}

/// Framing preservation: over any chunks whose bytes, put together, are `b`,
/// the frame driver of a fresh framer of length `len` sends the cutting of
/// `b` into frames of `len` bytes.
pub proof fn lemma_frame_len_preserves(len: nat, chunks: Seq<Seq<u8>>)
    requires
        len > 0,
    ensures
        ({
            let b = chunks.flatten();
            let k = b.len() / len;
            let r = b.len() % len;
            &&& b.len() == k * len + r
            &&& r < len
            &&& cut_into_frames(framed(len_rule(len), Seq::empty(), chunks), b, len)
        }),
{
    let b = chunks.flatten();
    let out = framed(len_rule(len), Seq::empty(), chunks);
    let size = b.len() as int;
    let step = len as int;
    lemma_framed_len(len, Seq::empty(), chunks);
    assert(Seq::<u8>::empty() + b == b);
    lemma_pieces(b, len);
    assert(size == (size / step) * step + size % step && 0 <= size % step < step && 0 <= size
        / step) by (nonlinear_arith)
        requires
            step > 0,
            size >= 0,
    ;
    assert forall|i: int| 0 <= i < size / step implies #[trigger] out[i] == b.subrange(
        i * step,
        i * step + step,
    ) && out[i].len() == step by {
        assert(i * step + step <= (size / step) * step && 0 <= i * step) by (nonlinear_arith)
            requires
                0 <= i < size / step,
                step > 0,
        ;
    }
    assert forall|i: int| 0 <= i < out.len() implies (#[trigger] out[i]).len() > 0 by {
        if i < size / step {
            assert(out[i].len() == step);
        } else {
            assert(i == size / step && size % step > 0);
            assert((size / step) * step <= size) by (nonlinear_arith)
                requires
                    step > 0,
                    size >= 0,
            ;
        }
    }
}

/// With a fixed-length rule and as many bytes at hand as one frame takes, the
/// one-frame driver sends the first `len` bytes as its first item, and the
/// items behind it hold all the other bytes.
pub proof fn lemma_framed_one_len(len: nat, pending: Seq<u8>, chunks: Seq<Seq<u8>>)
    requires
        pending.len() < len || chunks.len() > 0,
        len <= (pending + chunks.flatten()).len(),
    ensures
        ({
            let b = pending + chunks.flatten();
            let out = framed_one(len_rule(len), pending, chunks);
            &&& out.len() >= 1
            &&& out[0] == b.take(len as int)
            &&& out.drop_first().flatten() == b.skip(len as int)
        }),
    decreases chunks.len(),
{
    let rule = len_rule(len);
    let b = pending + chunks.flatten();
    let out = framed_one(rule, pending, chunks);
    if chunks.len() == 0 {
        assert(b == pending);
    } else {
        let all = pending + chunks.first();
        let left = chunks.drop_first();
        assert(all + left.flatten() == b);
        if all.len() >= len {
            assert(head_len(rule, all) == Some(len));
            let head = seq![all.take(len as int)];
            let surplus = if len < all.len() {
                seq![all.skip(len as int)]
            } else {
                Seq::<Seq<u8>>::empty()
            };
            assert(out == head + surplus + left);
            assert(out.drop_first() == surplus + left);
            lemma_flatten_concat(surplus, left);
            surplus.lemma_flatten_one_element();
            assert(surplus.flatten() == all.skip(len as int));
            assert(b.take(len as int) == all.take(len as int));
            assert(b.skip(len as int) == all.skip(len as int) + left.flatten());
        } else {
            assert(head_len(rule, all) is None);
            lemma_framed_one_len(len, all, left);
        }
    }
}

/// Head and tail of one frame: over any chunks whose bytes, put together, are
/// a non-empty `b` of at least `len` bytes, the one-frame driver of a fresh
/// framer of length `len` sends `b`'s first `len` bytes as its first item,
/// and the items behind it, put together, are the rest of `b`.
pub proof fn lemma_frame_one_len_splits(len: nat, chunks: Seq<Seq<u8>>)
    requires
        chunks.flatten().len() > 0,
        len <= chunks.flatten().len(),
    ensures
        split_at_frame(framed_one(len_rule(len), Seq::empty(), chunks), chunks.flatten(), len),
{
    assert(Seq::<u8>::empty() + chunks.flatten() == chunks.flatten());
    lemma_framed_one_len(len, Seq::empty(), chunks);
}

/// The end before a frame: over chunks that hold fewer bytes than one frame
/// takes, together with what the framer holds, the one-frame driver sends
/// nothing.
pub proof fn lemma_framed_one_short(len: nat, pending: Seq<u8>, chunks: Seq<Seq<u8>>)
    requires
        (pending + chunks.flatten()).len() < len,
    ensures
        framed_one(len_rule(len), pending, chunks) == Seq::<Seq<u8>>::empty(),
    decreases chunks.len(),
{
    if chunks.len() > 0 {
        let all = pending + chunks.first();
        assert(all + chunks.drop_first().flatten() == pending + chunks.flatten());
        lemma_framed_one_short(len, all, chunks.drop_first());
    }
}

} // verus!
