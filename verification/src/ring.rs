//! The lock-free queue between the capture callback and the worker.
//!
//! The callback holds the producer half and the worker the consumer half.
//! Neither half ever blocks: a push into a full ring drops what does not
//! fit, and a pop from an empty ring returns at once. What one half sees
//! depends on what the other thread has done in the meantime, so nothing
//! is claimed of the contents of the ring.

use vstd::prelude::*;
use vstd::arithmetic::div_mod::{
    lemma_fundamental_div_mod,
    lemma_fundamental_div_mod_converse,
    lemma_mod_bound,
};
use crate::audio_config::RING_BUFFER_SAMPLES;
use crate::level::{lemma_count_step, strided_count};
use crate::overflow::{OverflowMonitor, OverflowSignal};

verus! {

/// The producer half of a heap-allocated `ringbuf` ring, a
/// `ringbuf::HeapProd`. Its inside is hidden from proofs.
#[verifier::external_body]
#[verifier::reject_recursive_types(T)]
pub struct RingProducer<T> {
    inner: ringbuf::HeapProd<T>,
}

/// The consumer half of a heap-allocated `ringbuf` ring, a
/// `ringbuf::HeapCons`. Its inside is hidden from proofs.
#[verifier::external_body]
#[verifier::reject_recursive_types(T)]
pub struct RingConsumer<T> {
    inner: ringbuf::HeapCons<T>,
}

/// `ringbuf::HeapRb::try_new` followed by `Split::split`: allocates a ring
/// of the given capacity and hands out its two halves, or nothing if the
/// allocation fails. The constructor panics on a capacity of zero, and the
/// ring counts positions up to four times its capacity; both kinds of
/// capacity are left out. Nothing is claimed of the halves, nor of when
/// the allocation succeeds.
#[verifier::external_body]
fn split_ring<T>(capacity: usize) -> (halves: Option<(RingProducer<T>, RingConsumer<T>)>)
    requires
        0 < capacity <= usize::MAX / 4,
{
    match ringbuf::HeapRb::<T>::try_new(capacity) {
        Ok(ring) => {
            let (producer, consumer) = ringbuf::traits::Split::split(ring);
            Some((RingProducer { inner: producer }, RingConsumer { inner: consumer }))
        },
        Err(_) => None,
    }
}

/// `ringbuf::traits::Producer::push_slice`: appends as many leading items
/// of `samples` as there is room for and returns their number, which is
/// never more than the length of `samples`.
#[verifier::external_body]
fn push_slice<T: Copy>(producer: &mut RingProducer<T>, samples: &[T]) -> (accepted: usize)
    ensures
        accepted <= samples@.len(),
{
    ringbuf::traits::Producer::push_slice(&mut producer.inner, samples)
}

/// `ringbuf::traits::Producer::try_push`: appends one item if there is
/// room. The result says whether it did; nothing is claimed of when it
/// does.
#[verifier::external_body]
fn try_push<T>(producer: &mut RingProducer<T>, sample: T) -> (accepted: bool) {
    ringbuf::traits::Producer::try_push(&mut producer.inner, sample).is_ok()
}

/// `ringbuf::traits::Consumer::try_pop`: removes the oldest item if there
/// is one. Nothing is claimed of whether there is one, nor of its value.
#[verifier::external_body]
fn try_pop<T>(consumer: &mut RingConsumer<T>) -> (sample: Option<T>) {
    ringbuf::traits::Consumer::try_pop(&mut consumer.inner)
}

/// Allocates a ring for `capacity` samples. A capacity of zero or of more
/// than a quarter of the address space is refused; any other may still
/// fail for want of memory.
pub fn ring<T>(capacity: usize) -> (halves: Option<(RingProducer<T>, RingConsumer<T>)>)
    ensures
        capacity == 0 || capacity > usize::MAX / 4 ==> halves.is_none(),
{
    if capacity == 0 || capacity > usize::MAX / 4 {
        None
    } else {
        split_ring(capacity)
    }
}

/// Allocates the ring of a capture source, for [`RING_BUFFER_SAMPLES`]
/// samples. It may fail for want of memory.
pub fn capture_ring<T>() -> (halves: Option<(RingProducer<T>, RingConsumer<T>)>) {
    split_ring(RING_BUFFER_SAMPLES)
}

/// Number of interleaved frames in a buffer of `len` samples of `channels`
/// channels.
pub fn count_frames(len: usize, channels: usize) -> (frames: usize)
    ensures
        frames == frame_count(len as nat, channels),
        frames <= len,
{
    let width: usize = if channels > 1 {
        channels
    } else {
        1
    };
    let whole: usize = len / width;
    let rest: usize = len % width;
    proof {
        let d = width as int;
        lemma_fundamental_div_mod(len as int, d);
        lemma_mod_bound(len as int, d);
        assert(whole + rest <= len) by (nonlinear_arith)
            requires
                len == d * whole + rest,
                d >= 1,
                whole >= 0,
        ;
        if rest == 0 {
            assert(len + d - 1 == whole * d + (d - 1)) by (nonlinear_arith)
                requires
                    len == d * whole,
            ;
            lemma_fundamental_div_mod_converse(len + d - 1, d, whole as int, d - 1);
        } else {
            assert(len + d - 1 == (whole + 1) * d + (rest - 1)) by (nonlinear_arith)
                requires
                    len == d * whole + rest,
            ;
            lemma_fundamental_div_mod_converse(len + d - 1, d, whole + 1, rest - 1);
        }
    }
    if rest == 0 {
        whole
    } else {
        whole + 1
    }
}

/// The sample of the first channel in the `k`-th interleaved frame of a
/// buffer.
pub fn first_channel_sample<S: Copy>(samples: &[S], channels: usize, k: usize) -> (s: S)
    requires
        k < frame_count(samples@.len(), channels),
    ensures
        s == samples@[k * frame_width(channels)],
{
    let width: usize = if channels > 1 {
        channels
    } else {
        1
    };
    let n: usize = samples.len();
    proof {
        lemma_frames_fit(n as nat, width as nat);
        lemma_count_step(k as nat, n as nat, width as nat);
        assert(k * width < n);
    }
    samples[k * width]
}

impl<T: Copy> RingProducer<T> {
    /// Offers one buffer of the callback to the ring and records in
    /// `monitor` how much of it was accepted. However much that was, the
    /// monitor and the signal are those of [`OverflowMonitor::record`] for
    /// some number of accepted samples up to the length of the buffer.
    pub fn push(&mut self, monitor: &mut OverflowMonitor, samples: &[T]) -> (signal:
        OverflowSignal)
        ensures
            exists|accepted: usize|
                {
                    &&& accepted <= samples@.len()
                    &&& final(monitor)@ == #[trigger] old(monitor)@.record(
                        samples@.len() as usize,
                        accepted,
                    )
                    &&& signal == old(monitor)@.signal(samples@.len() as usize, accepted)
                },
    {
        let accepted: usize = push_slice(self, samples);
        let signal: OverflowSignal = monitor.record(samples.len(), accepted);
        assert(monitor@ == old(monitor)@.record(samples@.len() as usize, accepted));
        signal
    }

    /// Offers the first channel of interleaved frames to the ring: for
    /// each frame in order, the sample that [`first_channel_sample`] gives,
    /// through `convert`. Records in `monitor` how many of the frames the
    /// ring took a sample of. With `channels` of 0 or 1 every sample is a
    /// frame of its own; a trailing frame that is cut short still offers
    /// its first sample.
    pub fn push_first_channel<S: Copy, F: Fn(S) -> T>(
        &mut self,
        monitor: &mut OverflowMonitor,
        samples: &[S],
        channels: usize,
        convert: F,
    ) -> (signal: OverflowSignal)
        requires
            forall|s: S| convert.requires((s,)),
        ensures
            exists|accepted: usize|
                {
                    &&& accepted <= frame_count(samples@.len(), channels)
                    &&& final(monitor)@ == #[trigger] old(monitor)@.record(
                        frame_count(samples@.len(), channels),
                        accepted,
                    )
                    &&& signal == old(monitor)@.signal(
                        frame_count(samples@.len(), channels),
                        accepted,
                    )
                },
    {
        let frames: usize = count_frames(samples.len(), channels);
        let mut accepted: usize = 0;
        let mut k: usize = 0;
        while k < frames
            invariant
                frames == frame_count(samples@.len(), channels),
                forall|s: S| convert.requires((s,)),
                accepted <= k <= frames,
            decreases frames - k,
        {
            let sample: S = first_channel_sample(samples, channels, k);
            if try_push(self, convert(sample)) {
                accepted = accepted + 1;
            }
            k = k + 1;
        }
        let signal: OverflowSignal = monitor.record(frames, accepted);
        assert(monitor@ == old(monitor)@.record(frame_count(samples@.len(), channels), accepted));
        signal
    }
}

impl<T> RingConsumer<T> {
    /// Moves samples from the ring to the end of `batch` until the batch
    /// holds `limit` samples or the ring is empty. What was in the batch
    /// stays in front, and a batch that already holds `limit` samples or
    /// more is left as it is.
    pub fn drain(&mut self, batch: &mut Vec<T>, limit: usize)
        ensures
            old(batch)@.is_prefix_of(final(batch)@),
            final(batch)@.len() <= limit || final(batch)@ == old(batch)@,
    {
        while batch.len() < limit
            invariant
                old(batch)@.is_prefix_of(batch@),
                batch@.len() <= limit || batch@ == old(batch)@,
            decreases limit - batch@.len(),
        {
            match try_pop(self) {
                Some(sample) => {
                    batch.push(sample);
                },
                None => {
                    break ;
                },
            }
        }
    }
}

/// Samples per interleaved frame for a stream of `channels` channels.
pub open spec fn frame_width(channels: usize) -> usize {
    if channels > 1 {
        channels
    } else {
        1
    }
}

/// Number of interleaved frames in a buffer of `len` samples, a trailing
/// frame that is cut short counted as one.
pub open spec fn frame_count(len: nat, channels: usize) -> usize {
    strided_count(len, frame_width(channels) as nat) as usize
}

/// A buffer has at most as many frames as samples.
proof fn lemma_frames_fit(len: nat, width: nat)
    requires
        width > 0,
    ensures
        strided_count(len, width) <= len,
{
    lemma_count_step(len, len, width);
    assert(len * width >= len) by (nonlinear_arith)
        requires
            width >= 1,
    ;
}

} // verus!
