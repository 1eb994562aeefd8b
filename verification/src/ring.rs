//! The ring of decoded samples between the decoder and the output device.
//! Samples are carried as the bits of their 32-bit form; silence is all zeros.

use ringbuf::storage::Heap;
use ringbuf::traits::{Consumer, Producer};
use ringbuf::SharedRb;
use vstd::prelude::*;

use crate::playout::{self, samples_of, RING_SEGMENTS, SAMPLE_BYTES};

verus! {

/// A `ringbuf::HeapRb` of samples that is not split into its two ends.
#[verifier::external_body]
pub struct SampleQueue {
    ring: SharedRb<Heap<u32>>,
}

/// The samples in a queue, oldest first.
pub uninterp spec fn queued(queue: SampleQueue) -> Seq<u32>;

/// How many samples a queue was made for.
pub uninterp spec fn room(queue: SampleQueue) -> nat;

/// `ringbuf::HeapRb::new`: an empty ring for exactly `capacity` items. It panics
/// on 0 and on more bytes than one allocation can have.
#[verifier::external_body]
fn new_queue(capacity: usize) -> (queue: SampleQueue)
    requires
        0 < capacity,
        capacity * SAMPLE_BYTES <= isize::MAX,
    ensures
        queued(queue) == Seq::<u32>::empty(),
        room(queue) == capacity,
{
    SampleQueue { ring: SharedRb::new(capacity) }
}

/// `ringbuf`'s `Producer::push_slice`: appends as many items from the front of
/// the slice as there is room for and returns their number.
#[verifier::external_body]
fn push_slice(queue: &mut SampleQueue, samples: &[u32]) -> (n: usize)
    requires
        queued(*old(queue)).len() <= room(*old(queue)),
    ensures
        n == if samples@.len() <= room(*old(queue)) - queued(*old(queue)).len() {
            samples@.len() as int
        } else {
            room(*old(queue)) - queued(*old(queue)).len()
        },
        queued(*final(queue)) == queued(*old(queue)) + samples@.take(n as int),
        room(*final(queue)) == room(*old(queue)),
{
    queue.ring.push_slice(samples)
}

/// `ringbuf`'s `Consumer::pop_slice`: moves the oldest items to the front of the
/// slice, as many as there are and fit, and returns their number. The rest of
/// the slice stays.
#[verifier::external_body]
fn pop_slice(queue: &mut SampleQueue, out: &mut [u32]) -> (n: usize)
    ensures
        n == if old(out)@.len() <= queued(*old(queue)).len() {
            old(out)@.len()
        } else {
            queued(*old(queue)).len()
        },
        final(out)@ == queued(*old(queue)).take(n as int) + old(out)@.skip(n as int),
        queued(*final(queue)) == queued(*old(queue)).skip(n as int),
        room(*final(queue)) == room(*old(queue)),
{
    queue.ring.pop_slice(out)
}

/// `ringbuf`'s `Consumer::clear`: drops every item and returns their number.
#[verifier::external_body]
fn clear(queue: &mut SampleQueue) -> (n: usize)
    ensures
        n == queued(*old(queue)).len(),
        queued(*final(queue)) == Seq::<u32>::empty(),
        room(*final(queue)) == room(*old(queue)),
{
    queue.ring.clear()
}

/// Decoded samples on their way to the output device.
pub struct SampleRing {
    queue: SampleQueue,
}

impl SampleRing {
    /// The samples that wait, oldest first.
    pub closed spec fn waiting(&self) -> Seq<u32> {
        queued(self.queue)
    }

    /// How many samples can wait.
    pub closed spec fn limit(&self) -> nat {
        room(self.queue)
    }

    /// No more samples wait than can.
    pub open spec fn wf(&self) -> bool {
        self.waiting().len() <= self.limit()
    }

    /// A ring for a few segments' worth of samples.
    pub fn new(segment_ms: u32, sample_rate: u32) -> (ring: Self)
        requires
            0 < playout::samples_in(segment_ms, sample_rate),
            playout::samples_in(segment_ms, sample_rate) * RING_SEGMENTS * SAMPLE_BYTES
                <= isize::MAX,
        ensures
            ring.wf(),
            ring.waiting() == Seq::<u32>::empty(),
            ring.limit() == playout::samples_in(segment_ms, sample_rate) * RING_SEGMENTS,
            ring.limit() == 8 * playout::samples_in(segment_ms, sample_rate),
    {
        let capacity: u64 = samples_of(segment_ms, sample_rate) * RING_SEGMENTS;
        SampleRing { queue: new_queue(capacity as usize) }
    }

    /// Appends samples from an index on, as far as there is room. Returns the
    /// index of the first one that is still to be fed.
    pub fn feed(&mut self, samples: &Vec<u32>, from: usize) -> (next: usize)
        requires
            old(self).wf(),
            from <= samples@.len(),
        ensures
            final(self).wf(),
            final(self).limit() == old(self).limit(),
            next == if samples@.len() - from <= old(self).limit() - old(self).waiting().len() {
                samples@.len() as int
            } else {
                from + old(self).limit() - old(self).waiting().len()
            },
            final(self).waiting() == old(self).waiting() + samples@.subrange(
                from as int,
                next as int,
            ),
    {
        let rest = vstd::slice::slice_subrange(samples.as_slice(), from, samples.len());
        let n: usize = push_slice(&mut self.queue, rest);
        assert(rest@.take(n as int) =~= samples@.subrange(from as int, from + n));
        from + n
    }

    /// Fills an output buffer with the oldest samples, and with silence where
    /// there are too few. Returns the number of samples.
    pub fn fill(&mut self, out: &mut Vec<u32>) -> (filled: usize)
        requires
            old(self).wf(),
        ensures
            final(self).wf(),
            final(self).limit() == old(self).limit(),
            filled == if old(out)@.len() <= old(self).waiting().len() {
                old(out)@.len()
            } else {
                old(self).waiting().len()
            },
            final(self).waiting() == old(self).waiting().skip(filled as int),
            final(out)@ == old(self).waiting().take(filled as int) + Seq::new(
                (old(out)@.len() - filled) as nat,
                |i: int| 0u32,
            ),
            final(out)@.take(filled as int) + final(self).waiting() == old(self).waiting(),
    {
        let len: usize = out.len();
        let ghost before = self.waiting();
        let filled: usize = pop_slice(&mut self.queue, out.as_mut_slice());
        let mut i: usize = filled;
        while i < len
            invariant
                filled <= i <= len,
                out@.len() == len,
                filled <= before.len(),
                out@.take(filled as int) == before.take(filled as int),
                forall|j: int| filled <= j < i ==> out@[j] == 0,
            decreases len - i,
        {
            out.set(i, 0);
            assert(out@.take(filled as int) =~= before.take(filled as int));
            i = i + 1;
        }
        assert(out@ =~= before.take(filled as int) + Seq::new((len - filled) as nat, |i: int| 0u32))
            by {
            assert forall|j: int| 0 <= j < filled implies out@[j] == before[j] by {
                assert(out@.take(filled as int)[j] == before.take(filled as int)[j]);
            }
        }
        assert(out@.take(filled as int) + self.waiting() =~= before);
        filled
    }

    /// Drops what waits: after a jump it is no longer wanted. Returns how many
    /// samples that were.
    pub fn flush(&mut self) -> (n: usize)
        ensures
            final(self).wf(),
            final(self).limit() == old(self).limit(),
            final(self).waiting() == Seq::<u32>::empty(),
            n == old(self).waiting().len(),
    {
        clear(&mut self.queue)
    }
}

/// Samples come out in the order in which they went in, none twice and none left
/// out: if everything fed so far is what has come out followed by what waits,
/// then this is so again after feeding `n` more samples and after taking `m` out.
pub proof fn law_samples_keep_their_order(
    fed: Seq<u32>,
    played: Seq<u32>,
    waiting: Seq<u32>,
    more: Seq<u32>,
    m: int,
)
    requires
        fed == played + waiting,
        0 <= m <= waiting.len(),
    ensures
        fed + more == played + (waiting + more),
        fed == (played + waiting.take(m)) + waiting.skip(m),
{
    assert(fed + more =~= played + (waiting + more));
    assert(waiting =~= waiting.take(m) + waiting.skip(m));
    assert(fed =~= (played + waiting.take(m)) + waiting.skip(m));
}

} // verus!
