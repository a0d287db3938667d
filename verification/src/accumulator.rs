//! Frame accumulator: turns sample chunks of any length into frames of one
//! fixed length, oldest samples first, and keeps what does not fill a frame.
//!
//! A sample is held as the 32-bit pattern of an IEEE-754 single.

use vstd::arithmetic::div_mod::{
    lemma_fundamental_div_mod, lemma_fundamental_div_mod_converse, lemma_mod_bound,
};
use vstd::prelude::*;

verus! {

/// Duration of one frame in milliseconds.
pub const FRAME_DURATION_MS: u64 = 20;

/// Samples in one frame: those of one channel in 20 ms, rounded down, times
/// the number of channels.
pub open spec fn frame_len_of(sample_rate: u32, channel_count: u16) -> nat {
    ((sample_rate as nat * 20) / 1000) * channel_count as nat
}

/// How many whole frames of `frame_len` samples a stream holds.
pub open spec fn frame_count(stream: Seq<u32>, frame_len: nat) -> nat
    recommends
        frame_len > 0,
{
    stream.len() / frame_len
}

/// The `i`-th whole frame of a stream.
pub open spec fn frame_at(stream: Seq<u32>, frame_len: nat, i: int) -> Seq<u32>
    recommends
        frame_len > 0,
{
    stream.subrange(i * frame_len, (i + 1) * frame_len)
}

/// The whole frames of a stream, in order.
pub open spec fn frames_of(stream: Seq<u32>, frame_len: nat) -> Seq<Seq<u32>>
    recommends
        frame_len > 0,
{
    Seq::new(frame_count(stream, frame_len), |i: int| frame_at(stream, frame_len, i))
}

/// What is left of a stream behind its last whole frame.
pub open spec fn leftover(stream: Seq<u32>, frame_len: nat) -> Seq<u32>
    recommends
        frame_len > 0,
{
    stream.subrange((frame_count(stream, frame_len) * frame_len) as int, stream.len() as int)
}

/// The contents of a list of frames.
pub open spec fn frame_views(frames: Seq<Vec<u32>>) -> Seq<Seq<u32>> {
    Seq::new(frames.len(), |i: int| frames[i]@)
}

/// A quotient is known from the two multiples of the divisor that enclose
/// the dividend.
proof fn lemma_quotient(x: int, d: int, q: int)
    requires
        d > 0,
        q * d <= x < q * d + d,
    ensures
        x / d == q,
        x % d == x - q * d,
{
    lemma_fundamental_div_mod_converse(x, d, q, x - q * d);
}

/// Samples in one frame for a device format.
pub fn samples_per_frame(sample_rate: u32, channel_count: u16) -> (n: u64)
    ensures
        n == frame_len_of(sample_rate, channel_count),
{
    let per_channel: u64 = sample_rate as u64 * FRAME_DURATION_MS / 1000;
    assert(per_channel * channel_count <= 85_899_345 * 65_535) by (nonlinear_arith)
        requires
            per_channel <= 85_899_345,
            channel_count <= 65_535,
    ;
    per_channel * (channel_count as u64)
}

/// Appends `src[from..to]` to `dst`.
fn append_range(dst: &mut Vec<u32>, src: &[u32], from: usize, to: usize)
    requires
        from <= to <= src@.len(),
    ensures
        final(dst)@ == old(dst)@ + src@.subrange(from as int, to as int),
{
    let mut i: usize = from;
    while i < to
        invariant
            from <= i <= to <= src@.len(),
            dst@ == old(dst)@ + src@.subrange(from as int, i as int),
        decreases to - i,
    {
        dst.push(src[i]);
        assert(dst@ =~= old(dst)@ + src@.subrange(from as int, i + 1));
        i = i + 1;
    }
}

/// Buffer of pending samples in front of a consumer of fixed-size frames.
pub struct FrameAccumulator {
    buffer: Vec<u32>,
    frame_len: usize,
}

impl FrameAccumulator {
    /// The samples that wait for a frame to fill, oldest first.
    pub closed spec fn pending(&self) -> Seq<u32> {
        self.buffer@
    }

    /// The number of samples in each frame handed out.
    pub closed spec fn spec_frame_len(&self) -> nat {
        self.frame_len as nat
    }

    /// Frames are not empty, and less than one frame is pending.
    pub open spec fn wf(&self) -> bool {
        0 < self.spec_frame_len() && self.pending().len() < self.spec_frame_len()
    }

    /// An empty accumulator for the frames of a device format; `None` for a
    /// format whose frames would be empty or longer than memory can address.
    pub fn new(sample_rate: u32, channel_count: u16) -> (acc: Option<FrameAccumulator>)
        ensures
            acc is Some <==> 0 < frame_len_of(sample_rate, channel_count) <= usize::MAX,
            acc matches Some(a) ==> {
                &&& a.wf()
                &&& a.spec_frame_len() == frame_len_of(sample_rate, channel_count)
                &&& a.pending() == Seq::<u32>::empty()
            },
    {
        let n: u64 = samples_per_frame(sample_rate, channel_count);
        if n == 0 || n > usize::MAX as u64 {
            None
        } else {
            Some(FrameAccumulator { buffer: Vec::new(), frame_len: n as usize })
        }
    }

    /// The number of samples in each frame handed out.
    pub fn frame_len(&self) -> (n: usize)
        ensures
            n == self.spec_frame_len(),
    {
        self.frame_len
    }

    /// The number of samples that wait for a frame to fill.
    pub fn pending_len(&self) -> (n: usize)
        ensures
            n == self.pending().len(),
    {
        self.buffer.len()
    }

    /// Takes a chunk of samples and hands out every frame that is now full:
    /// the whole frames of the pending samples followed by the chunk. What
    /// follows the last whole frame stays pending.
    pub fn push(&mut self, samples: &[u32]) -> (frames: Vec<Vec<u32>>)
        requires
            old(self).wf(),
        ensures
            final(self).wf(),
            final(self).spec_frame_len() == old(self).spec_frame_len(),
            frame_views(frames@) == frames_of(
                old(self).pending() + samples@,
                old(self).spec_frame_len(),
            ),
            final(self).pending() == leftover(
                old(self).pending() + samples@,
                old(self).spec_frame_len(),
            ),
    {
        let n: usize = self.frame_len;
        let held: usize = self.buffer.len();
        let ghost pending = self.buffer@;
        let ghost stream = pending + samples@;
        let mut frames: Vec<Vec<u32>> = Vec::new();
        if samples.len() < n - held {
            append_range(&mut self.buffer, samples, 0, samples.len());
            proof {
                lemma_quotient(stream.len() as int, n as int, 0);
                assert(samples@.subrange(0, samples@.len() as int) =~= samples@);
                assert(self.buffer@ =~= leftover(stream, n as nat));
                assert(frame_views(frames@) =~= frames_of(stream, n as nat));
            }
            return frames;
        }
        let mut first: Vec<u32> = Vec::new();
        append_range(&mut first, self.buffer.as_slice(), 0, held);
        let mut pos: usize = n - held;
        append_range(&mut first, samples, 0, pos);
        assert(first@ =~= frame_at(stream, n as nat, 0));
        frames.push(first);
        while samples.len() - pos >= n
            invariant
                n > 0,
                held < n,
                pos <= samples@.len(),
                stream.len() == held + samples@.len(),
                frames@.len() >= 1,
                held + pos == frames@.len() * n,
                forall|i: int|
                    0 <= i < frames@.len() ==> (#[trigger] frames@[i])@ == frame_at(
                        stream,
                        n as nat,
                        i,
                    ),
                pending.len() == held,
                stream == pending + samples@,
            decreases samples@.len() - pos,
        {
            let mut frame: Vec<u32> = Vec::new();
            append_range(&mut frame, samples, pos, pos + n);
            proof {
                let k = frames@.len() as int;
                assert((k + 1) * n == k * n + n) by (nonlinear_arith);
                assert(frame@ =~= frame_at(stream, n as nat, k));
            }
            frames.push(frame);
            pos = pos + n;
        }
        let mut rest: Vec<u32> = Vec::new();
        append_range(&mut rest, samples, pos, samples.len());
        self.buffer = rest;
        proof {
            let k = frames@.len() as int;
            lemma_quotient(stream.len() as int, n as int, k);
            assert(self.buffer@ =~= leftover(stream, n as nat));
            assert(frame_views(frames@) =~= frames_of(stream, n as nat));
        }
        frames
    }
}

/// The chunks of a capture joined into one stream, in order of delivery.
pub open spec fn joined(chunks: Seq<Seq<u32>>) -> Seq<u32>
    decreases chunks.len(),
{
    if chunks.len() == 0 {
        Seq::empty()
    } else {
        joined(chunks.drop_last()) + chunks.last()
    }
}

/// The samples that are pending after the chunks were pushed one by one into
/// an accumulator that held `pending`.
pub open spec fn pending_after(pending: Seq<u32>, chunks: Seq<Seq<u32>>, frame_len: nat) -> Seq<u32>
    decreases chunks.len(),
{
    if chunks.len() == 0 {
        pending
    } else {
        leftover(pending_after(pending, chunks.drop_last(), frame_len) + chunks.last(), frame_len)
    }
}

/// The frames handed out, in order, while the chunks were pushed one by one
/// into an accumulator that held `pending`.
pub open spec fn emitted(pending: Seq<u32>, chunks: Seq<Seq<u32>>, frame_len: nat) -> Seq<
    Seq<u32>,
>
    decreases chunks.len(),
{
    if chunks.len() == 0 {
        Seq::empty()
    } else {
        emitted(pending, chunks.drop_last(), frame_len) + frames_of(
            pending_after(pending, chunks.drop_last(), frame_len) + chunks.last(),
            frame_len,
        )
    }
}

/// Cutting a stream after its whole frames and going on with the leftover
/// and a further chunk gives the frames and the leftover of the longer stream.
proof fn lemma_push_continues(stream: Seq<u32>, chunk: Seq<u32>, frame_len: nat)
    requires
        frame_len > 0,
    ensures
        frames_of(stream + chunk, frame_len) == frames_of(stream, frame_len) + frames_of(
            leftover(stream, frame_len) + chunk,
            frame_len,
        ),
        leftover(stream + chunk, frame_len) == leftover(
            leftover(stream, frame_len) + chunk,
            frame_len,
        ),
{
    let n = frame_len as int;
    let q = (stream.len() / frame_len) as int;
    let tail = leftover(stream, frame_len) + chunk;
    let qt = (tail.len() / frame_len) as int;
    let whole = stream + chunk;
    lemma_fundamental_div_mod(stream.len() as int, n);
    lemma_fundamental_div_mod(tail.len() as int, n);
    assert(n * q == q * n && n * qt == qt * n && (q + qt) * n == q * n + qt * n)
        by (nonlinear_arith);
    lemma_quotient(whole.len() as int, n, q + qt);
    let left = frames_of(stream, frame_len);
    let right = frames_of(tail, frame_len);
    let both = frames_of(whole, frame_len);
    assert(both.len() == left.len() + right.len());
    assert forall|i: int| 0 <= i < both.len() implies both[i] == (left + right)[i] by {
        if i < q {
            assert((i + 1) * n <= q * n && i * n >= 0 && (i + 1) * n == i * n + n)
                by (nonlinear_arith)
                requires
                    0 <= i < q,
                    n > 0,
            ;
            assert(frame_at(whole, frame_len, i) =~= frame_at(stream, frame_len, i));
        } else {
            let j = i - q;
            assert(i * n == q * n + j * n && (i + 1) * n == i * n + n && (j + 1) * n == j * n + n
                && j * n >= 0 && (j + 1) * n <= qt * n) by (nonlinear_arith)
                requires
                    j == i - q,
                    0 <= j < qt,
                    n > 0,
            ;
            assert(frame_at(whole, frame_len, i) =~= frame_at(tail, frame_len, j));
        }
    }
    assert(both =~= left + right);
    assert(leftover(whole, frame_len) =~= leftover(tail, frame_len));
}

/// How a capture is cut into chunks does not matter: pushing the chunks one
/// by one hands out the whole frames of the joined stream, in order, and
/// leaves pending what follows the last of them.
pub proof fn lemma_chunking_is_irrelevant(
    pending: Seq<u32>,
    chunks: Seq<Seq<u32>>,
    frame_len: nat,
)
    requires
        frame_len > 0,
        pending.len() < frame_len,
    ensures
        emitted(pending, chunks, frame_len) == frames_of(pending + joined(chunks), frame_len),
        pending_after(pending, chunks, frame_len) == leftover(
            pending + joined(chunks),
            frame_len,
        ),
        pending_after(pending, chunks, frame_len).len() < frame_len,
    decreases chunks.len(),
{
    if chunks.len() == 0 {
        lemma_quotient(pending.len() as int, frame_len as int, 0);
        assert(pending + joined(chunks) =~= pending);
        assert(leftover(pending, frame_len) =~= pending);
        assert(frames_of(pending, frame_len) =~= Seq::<Seq<u32>>::empty());
    } else {
        let before = chunks.drop_last();
        let stream = pending + joined(before);
        lemma_chunking_is_irrelevant(pending, before, frame_len);
        lemma_push_continues(stream, chunks.last(), frame_len);
        assert(pending + joined(chunks) =~= stream + chunks.last());
        let whole = pending + joined(chunks);
        lemma_fundamental_div_mod(whole.len() as int, frame_len as int);
        lemma_mod_bound(whole.len() as int, frame_len as int);
        assert(frame_len * (whole.len() / frame_len) == (whole.len() / frame_len) * frame_len)
            by (nonlinear_arith);
    }
}

/// Samples that add up to `k` whole frames, pushed in any chunks into an
/// empty accumulator, come out as exactly `k` frames of `frame_len` samples
/// each, in the order in which they went in, and nothing stays pending.
pub proof fn lemma_whole_frames(chunks: Seq<Seq<u32>>, frame_len: nat, k: nat)
    requires
        frame_len > 0,
        joined(chunks).len() == k * frame_len,
    ensures
        emitted(Seq::empty(), chunks, frame_len).len() == k,
        forall|i: int|
            0 <= i < k ==> {
                &&& (#[trigger] emitted(Seq::empty(), chunks, frame_len)[i]).len() == frame_len
                &&& emitted(Seq::empty(), chunks, frame_len)[i] == joined(chunks).subrange(
                    i * frame_len,
                    (i + 1) * frame_len,
                )
            },
        pending_after(Seq::empty(), chunks, frame_len) == Seq::<u32>::empty(),
{
    let stream = joined(chunks);
    let n = frame_len as int;
    lemma_chunking_is_irrelevant(Seq::empty(), chunks, frame_len);
    assert(Seq::<u32>::empty() + stream =~= stream);
    lemma_quotient(stream.len() as int, n, k as int);
    assert(leftover(stream, frame_len) =~= Seq::<u32>::empty());
    assert forall|i: int| 0 <= i < k implies (#[trigger] frames_of(stream, frame_len)[i]).len()
        == frame_len by {
        assert((i + 1) * n <= k * n && i * n >= 0 && (i + 1) * n == i * n + n)
            by (nonlinear_arith)
            requires
                0 <= i < k,
                n > 0,
        ;
    }
}

/// Fewer samples than one frame holds, pushed in any chunks into an empty
/// accumulator, never bring a frame out: they all stay pending.
pub proof fn lemma_short_stream_emits_nothing(chunks: Seq<Seq<u32>>, frame_len: nat)
    requires
        frame_len > 0,
        joined(chunks).len() < frame_len,
    ensures
        emitted(Seq::empty(), chunks, frame_len) == Seq::<Seq<u32>>::empty(),
        pending_after(Seq::empty(), chunks, frame_len) == joined(chunks),
{
    let stream = joined(chunks);
    lemma_chunking_is_irrelevant(Seq::empty(), chunks, frame_len);
    assert(Seq::<u32>::empty() + stream =~= stream);
    lemma_quotient(stream.len() as int, frame_len as int, 0);
    assert(frames_of(stream, frame_len) =~= Seq::<Seq<u32>>::empty());
    assert(leftover(stream, frame_len) =~= stream);
}

} // verus!
