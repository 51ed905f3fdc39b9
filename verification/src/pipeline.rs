//! One capture pipeline as the worker runs it: resampler, frame assembler
//! and silence suppressor in that order.

use vstd::prelude::*;
use vstd::arithmetic::div_mod::{lemma_fundamental_div_mod, lemma_mod_bound};
use crate::audio_config::{DRAIN_BATCH_SAMPLES, FRAME_SAMPLES, SAMPLE_RATE};
use crate::error::CaptureError;
use crate::frame_assembler::FrameAssembler;
use crate::ring::RingConsumer;
use crate::level::rms_at_least;
use crate::silence_suppression::{
    lemma_counters_step,
    FrameAction,
    LEVEL_STRIDE,
    SilenceSuppressionConfig,
    SilenceSuppressor,
    SuppressorModel,
};
use crate::streaming_resampler::{
    concat,
    lemma_output_count_is_least,
    lemma_rate_correctness,
    ResamplerModel,
    StreamingResampler,
};

verus! {

/// What is left of `pending` once every whole frame was handed to the
/// suppressor at time `now`, with the suppressor's state and the frames
/// that go to the sink, in order.
pub struct Drained {
    /// Samples behind the last whole frame.
    pub pending: Seq<i16>,
    /// State of the suppressor after the last whole frame.
    pub suppressor: SuppressorModel,
    /// Frames for the sink.
    pub delivered: Seq<Seq<i16>>,
}

/// Hands the whole frames of `pending` to the suppressor, one after the
/// other, all at time `now`.
pub open spec fn drain_frames(pending: Seq<i16>, suppressor: SuppressorModel, now: u64) -> Drained
    decreases pending.len(),
{
    if pending.len() < FRAME_SAMPLES {
        Drained { pending, suppressor, delivered: Seq::empty() }
    } else {
        let frame = pending.take(FRAME_SAMPLES as int);
        let rest = drain_frames(
            pending.skip(FRAME_SAMPLES as int),
            suppressor.step(frame, now),
            now,
        );
        let head = match suppressor.action(frame, now).payload() {
            Some(samples) => seq![samples],
            None => Seq::empty(),
        };
        Drained { delivered: head + rest.delivered, ..rest }
    }
}

/// The state of a pipeline.
pub struct PipelineModel {
    /// State of the resampler.
    pub resampler: ResamplerModel,
    /// Resampled audio that does not fill a frame yet.
    pub pending: Seq<i16>,
    /// State of the suppressor.
    pub suppressor: SuppressorModel,
}

impl PipelineModel {
    /// A pipeline that has seen no input.
    pub open spec fn initial(input_rate: nat, config: SilenceSuppressionConfig) -> PipelineModel {
        PipelineModel {
            resampler: ResamplerModel::fresh(input_rate, SAMPLE_RATE as nat),
            pending: Seq::empty(),
            suppressor: SuppressorModel::initial(config, 0),
        }
    }

    /// The resampler is well formed and less than a frame is pending.
    pub open spec fn wf(self) -> bool {
        &&& self.resampler.wf()
        &&& self.resampler.output_rate == SAMPLE_RATE
        &&& self.pending.len() < FRAME_SAMPLES
    }

    /// The resampled audio that stands in front of the suppressor once
    /// `batch` has gone through the resampler.
    pub open spec fn assembled(self, batch: Seq<i16>) -> Seq<i16> {
        self.pending + self.resampler.outputs(batch)
    }

    /// The state after `batch` was fed at time `now`.
    pub open spec fn feed(self, batch: Seq<i16>, now: u64) -> PipelineModel {
        let drained = drain_frames(self.assembled(batch), self.suppressor, now);
        PipelineModel {
            resampler: self.resampler.advance(batch),
            pending: drained.pending,
            suppressor: drained.suppressor,
        }
    }

    /// The frames that go to the sink when `batch` is fed at time `now`.
    pub open spec fn delivered(self, batch: Seq<i16>, now: u64) -> Seq<Seq<i16>> {
        drain_frames(self.assembled(batch), self.suppressor, now).delivered
    }
}

/// Whether `batch` is what `quantize` makes of `raw`, sample by sample.
pub open spec fn quantized<T, F: Fn(T) -> i16>(raw: Seq<T>, batch: Seq<i16>, quantize: F) -> bool {
    &&& batch.len() == raw.len()
    &&& forall|i: int| 0 <= i < raw.len() ==> quantize.ensures((raw[i],), #[trigger] batch[i])
}

/// The frames of a vector of frames, each as a sequence.
pub open spec fn frames_view(frames: Vec<Vec<i16>>) -> Seq<Seq<i16>> {
    frames@.map_values(|frame: Vec<i16>| frame@)
}

/// Draining leaves less than a frame, keeps the samples it did not consume,
/// delivers only whole frames, and counts every whole frame once.
pub proof fn lemma_drain_frames(pending: Seq<i16>, suppressor: SuppressorModel, now: u64)
    ensures
        drain_frames(pending, suppressor, now).pending.len() == pending.len() % (
        FRAME_SAMPLES as nat),
        drain_frames(pending, suppressor, now).pending == pending.skip(
            pending.len() - pending.len() % (FRAME_SAMPLES as nat),
        ),
        drain_frames(pending, suppressor, now).delivered.len() <= pending.len() / (
        FRAME_SAMPLES as nat),
        forall|i: int|
            0 <= i < drain_frames(pending, suppressor, now).delivered.len() ==> (
            #[trigger] drain_frames(pending, suppressor, now).delivered[i]).len() == FRAME_SAMPLES,
        drain_frames(pending, suppressor, now).suppressor.config == suppressor.config,
        suppressor.frames_sent + suppressor.frames_suppressed + pending.len() / (
        FRAME_SAMPLES as nat) <= u64::MAX ==> drain_frames(
            pending,
            suppressor,
            now,
        ).suppressor.frames_sent + drain_frames(pending, suppressor, now).suppressor.frames_suppressed
            == suppressor.frames_sent + suppressor.frames_suppressed + pending.len() / (
        FRAME_SAMPLES as nat),
    decreases pending.len(),
{
    if pending.len() >= FRAME_SAMPLES {
        let frame = pending.take(FRAME_SAMPLES as int);
        let tail = pending.skip(FRAME_SAMPLES as int);
        lemma_drain_frames(tail, suppressor.step(frame, now), now);
        lemma_counters_step(suppressor, frame, now);
        assert(tail.skip(tail.len() - tail.len() % (FRAME_SAMPLES as nat)) == pending.skip(
            pending.len() - pending.len() % (FRAME_SAMPLES as nat),
        ));
    } else {
        assert(pending.skip(0) == pending);
    }
}

/// Frame size: every frame that a pipeline hands to the sink has exactly
/// [`FRAME_SAMPLES`] samples, and less than one frame stays behind.
pub proof fn lemma_delivered_frames_are_whole(m: PipelineModel, batch: Seq<i16>, now: u64)
    ensures
        forall|i: int|
            0 <= i < m.delivered(batch, now).len() ==> (#[trigger] m.delivered(
                batch,
                now,
            )[i]).len() == FRAME_SAMPLES,
        m.feed(batch, now).pending.len() < FRAME_SAMPLES,
{
    lemma_drain_frames(m.assembled(batch), m.suppressor, now);
}

/// Lowest input rate for which one batch of the worker fills at most three
/// frames, in Hz.
pub const STEADY_INPUT_RATE: u32 = 8_000;

/// The assembler stays small: for a source of at least
/// [`STEADY_INPUT_RATE`] and batches of at most [`DRAIN_BATCH_SAMPLES`]
/// samples it never holds more than four frames.
pub proof fn lemma_assembled_bound(m: PipelineModel, batch: Seq<i16>)
    requires
        m.wf(),
        m.resampler.input_rate >= STEADY_INPUT_RATE,
        batch.len() <= DRAIN_BATCH_SAMPLES,
    ensures
        m.assembled(batch).len() <= 4 * FRAME_SAMPLES,
{
    let r = m.resampler;
    let n = batch.len();
    lemma_output_count_is_least(r, n);
    if r.output_count(n) > 960 {
        assert(r.position(960) < n * r.output_rate);
        assert(r.position(960) >= 960 * 8000) by (nonlinear_arith)
            requires
                r.position(960) == r.phase + 960 * r.input_rate,
                r.input_rate >= 8000,
        ;
        assert(n * r.output_rate <= 480 * 16000) by (nonlinear_arith)
            requires
                n <= 480,
                r.output_rate == 16000,
        ;
    }
}

/// One batch of input samples with the time at which the worker feeds it.
pub struct Batch {
    /// The samples of the batch.
    pub samples: Seq<i16>,
    /// Time in nanoseconds on the suppressor's clock.
    pub time: u64,
}

/// The samples of each batch, in order.
pub open spec fn batch_samples(batches: Seq<Batch>) -> Seq<Seq<i16>> {
    batches.map_values(|batch: Batch| batch.samples)
}

impl PipelineModel {
    /// The state after the batches were fed one after the other.
    pub open spec fn feed_all(self, batches: Seq<Batch>) -> PipelineModel
        decreases batches.len(),
    {
        if batches.len() == 0 {
            self
        } else {
            self.feed_all(batches.drop_last()).feed(batches.last().samples, batches.last().time)
        }
    }

    /// Number of frames the suppressor has judged.
    pub open spec fn frames_judged(self) -> nat {
        (self.suppressor.frames_sent + self.suppressor.frames_suppressed) as nat
    }
}

/// No sample is lost or made up on the way to the suppressor: after any
/// number of batches, the frames judged since the start and the samples
/// still pending add up to what was pending at the start and what the
/// resampler has produced. The resampler is where it would be had it seen
/// the batches alone.
pub proof fn lemma_samples_conserved(m: PipelineModel, batches: Seq<Batch>)
    requires
        m.resampler.wf(),
        m.frames_judged() * FRAME_SAMPLES + m.pending.len() + m.resampler.outputs_all(
            batch_samples(batches),
        ).len() <= u64::MAX,
    ensures
        m.feed_all(batches).resampler == m.resampler.advance_all(batch_samples(batches)),
        m.feed_all(batches).frames_judged() * FRAME_SAMPLES + m.feed_all(batches).pending.len()
            == m.frames_judged() * FRAME_SAMPLES + m.pending.len() + m.resampler.outputs_all(
            batch_samples(batches),
        ).len(),
        batches.len() > 0 ==> m.feed_all(batches).pending.len() < FRAME_SAMPLES,
    decreases batches.len(),
{
    if batches.len() > 0 {
        let init = batches.drop_last();
        let last = batches.last();
        let before = m.feed_all(init);
        assert(batch_samples(batches).drop_last() =~= batch_samples(init));
        assert(batch_samples(batches).last() == last.samples);
        lemma_samples_conserved(m, init);
        let assembled = before.assembled(last.samples);
        lemma_drain_frames(assembled, before.suppressor, last.time);
        let frame = FRAME_SAMPLES as int;
        let whole = assembled.len() as int;
        assert(whole == frame * (whole / frame) + whole % frame) by {
            lemma_fundamental_div_mod(whole, frame);
        }
    }
}

/// Rate correctness of a pipeline: fed `n` input samples from its initial
/// state, in whatever batches, it has turned them into the least number of
/// 16 kHz samples that covers `n * 16000 / input_rate`, all of which are
/// either in a judged frame or pending.
pub proof fn lemma_pipeline_rate(
    input_rate: nat,
    config: SilenceSuppressionConfig,
    batches: Seq<Batch>,
)
    requires
        input_rate > 0,
        concat(batch_samples(batches)).len() * SAMPLE_RATE / (input_rate as int) < u64::MAX,
    ensures
        ({
            let end = PipelineModel::initial(input_rate, config).feed_all(batches);
            let n = concat(batch_samples(batches)).len();
            let produced = end.frames_judged() * FRAME_SAMPLES + end.pending.len();
            n * SAMPLE_RATE / (input_rate as int) <= produced <= n * SAMPLE_RATE / (
            input_rate as int) + 1
        }),
{
    let m = PipelineModel::initial(input_rate, config);
    lemma_rate_correctness(m.resampler, batch_samples(batches));
    lemma_samples_conserved(m, batches);
}

/// The worker's side of one capture pipeline.
pub struct CapturePipeline {
    resampler: StreamingResampler,
    assembler: FrameAssembler,
    suppressor: SilenceSuppressor,
}

impl View for CapturePipeline {
    type V = PipelineModel;

    closed spec fn view(&self) -> PipelineModel {
        PipelineModel {
            resampler: self.resampler@,
            pending: self.assembler@,
            suppressor: self.suppressor@,
        }
    }
}

impl CapturePipeline {
    /// Creates the pipeline for a source that delivers `input_rate` samples
    /// per second, with the given suppressor settings. A rate of zero is
    /// refused.
    pub fn new(input_rate: u32, config: SilenceSuppressionConfig) -> (pipeline: Result<
        Self,
        CaptureError,
    >)
        ensures
            match pipeline {
                Ok(p) => input_rate > 0 && p@ == PipelineModel::initial(input_rate as nat, config)
                    && p@.wf(),
                Err(e) => input_rate == 0 && e == CaptureError::InvalidSampleRate,
            },
    {
        if input_rate == 0 {
            return Err(CaptureError::InvalidSampleRate);
        }
        Ok(
            CapturePipeline {
                resampler: StreamingResampler::new(input_rate, SAMPLE_RATE),
                assembler: FrameAssembler::new(),
                suppressor: SilenceSuppressor::new(config),
            },
        )
    }

    /// Creates the pipeline for a microphone.
    pub fn for_microphone(input_rate: u32) -> (pipeline: Result<Self, CaptureError>)
        ensures
            match pipeline {
                Ok(p) => input_rate > 0 && p@ == PipelineModel::initial(
                    input_rate as nat,
                    SilenceSuppressionConfig::for_microphone(),
                ) && p@.wf(),
                Err(e) => input_rate == 0 && e == CaptureError::InvalidSampleRate,
            },
    {
        Self::new(input_rate, SilenceSuppressionConfig::for_microphone())
    }

    /// Creates the pipeline for system audio.
    pub fn for_system_audio(input_rate: u32) -> (pipeline: Result<Self, CaptureError>)
        ensures
            match pipeline {
                Ok(p) => input_rate > 0 && p@ == PipelineModel::initial(
                    input_rate as nat,
                    SilenceSuppressionConfig::for_system_audio(),
                ) && p@.wf(),
                Err(e) => input_rate == 0 && e == CaptureError::InvalidSampleRate,
            },
    {
        Self::new(input_rate, SilenceSuppressionConfig::for_system_audio())
    }

    /// Number of resampled samples that wait for the rest of their frame.
    pub fn pending(&self) -> (n: usize)
        ensures
            n == self@.pending.len(),
    {
        self.assembler.len()
    }

    /// Frames passed on and frames suppressed so far.
    pub fn stats(&self) -> (counts: (u64, u64))
        ensures
            counts.0 == self@.suppressor.frames_sent,
            counts.1 == self@.suppressor.frames_suppressed,
    {
        self.suppressor.stats()
    }

    /// Feeds one batch of input samples, judged at the current reading of
    /// the suppressor's clock, and returns the frames for the sink in
    /// order. Whatever the clock reads, the result is that of
    /// [`Self::feed_at`] for some time.
    pub fn feed(&mut self, batch: &[i16]) -> (frames: Vec<Vec<i16>>)
        ensures
            exists|now: u64|
                {
                    &&& final(self)@ == #[trigger] old(self)@.feed(batch@, now)
                    &&& frames_view(frames) == old(self)@.delivered(batch@, now)
                },
            final(self)@.resampler.wf(),
            final(self)@.pending.len() < FRAME_SAMPLES,
            forall|i: int| 0 <= i < frames@.len() ==> (#[trigger] frames@[i])@.len() == FRAME_SAMPLES,
    {
        let now: u64 = self.suppressor.now();
        self.feed_at(batch, now)
    }

    /// One tick of the worker: takes up to [`DRAIN_BATCH_SAMPLES`] samples
    /// from the ring and feeds them by [`Self::feed_raw`] at the current
    /// reading of the suppressor's clock. Whatever the ring holds and
    /// whatever the clock reads, the result is that of [`Self::feed_at`]
    /// for some time and for the batch that `quantize` makes of some raw
    /// samples, at most that many.
    pub fn tick<T: Copy, F: Fn(T) -> i16>(
        &mut self,
        consumer: &mut RingConsumer<T>,
        quantize: F,
    ) -> (frames: Vec<Vec<i16>>)
        requires
            forall|s: T| quantize.requires((s,)),
        ensures
            exists|raw: Seq<T>, batch: Seq<i16>, now: u64|
                {
                    &&& raw.len() <= DRAIN_BATCH_SAMPLES
                    &&& #[trigger] quantized(raw, batch, quantize)
                    &&& final(self)@ == #[trigger] old(self)@.feed(batch, now)
                    &&& frames_view(frames) == old(self)@.delivered(batch, now)
                },
            final(self)@.resampler.wf(),
            final(self)@.pending.len() < FRAME_SAMPLES,
            forall|i: int| 0 <= i < frames@.len() ==> (#[trigger] frames@[i])@.len() == FRAME_SAMPLES,
    {
        let mut raw: Vec<T> = Vec::new();
        consumer.drain(&mut raw, DRAIN_BATCH_SAMPLES);
        let now: u64 = self.suppressor.now();
        let frames: Vec<Vec<i16>> = self.feed_raw(raw.as_slice(), &quantize, now);
        proof {
            let batch = choose|batch: Seq<i16>|
                {
                    &&& #[trigger] quantized(raw@, batch, quantize)
                    &&& self@ == old(self)@.feed(batch, now)
                    &&& frames_view(frames) == old(self)@.delivered(batch, now)
                };
            assert(quantized(raw@, batch, quantize));
            assert(self@ == old(self)@.feed(batch, now));
        }
        frames
    }

    /// Feeds one batch of raw samples at time `now`: turns each into a
    /// 16-bit sample by `quantize`, in order, and feeds the result by
    /// [`Self::feed_at`].
    pub fn feed_raw<T: Copy, F: Fn(T) -> i16>(&mut self, raw: &[T], quantize: &F, now: u64) -> (frames:
        Vec<Vec<i16>>)
        requires
            forall|s: T| quantize.requires((s,)),
        ensures
            exists|batch: Seq<i16>|
                {
                    &&& #[trigger] quantized(raw@, batch, *quantize)
                    &&& final(self)@ == old(self)@.feed(batch, now)
                    &&& frames_view(frames) == old(self)@.delivered(batch, now)
                },
            final(self)@.resampler.wf(),
            final(self)@.pending.len() < FRAME_SAMPLES,
            forall|i: int| 0 <= i < frames@.len() ==> (#[trigger] frames@[i])@.len() == FRAME_SAMPLES,
    {
        let mut batch: Vec<i16> = Vec::new();
        let mut i: usize = 0;
        while i < raw.len()
            invariant
                i <= raw@.len(),
                batch@.len() == i,
                forall|s: T| quantize.requires((s,)),
                forall|j: int| 0 <= j < i ==> quantize.ensures((raw@[j],), #[trigger] batch@[j]),
            decreases raw@.len() - i,
        {
            batch.push(quantize(raw[i]));
            i += 1;
        }
        let frames: Vec<Vec<i16>> = self.feed_at(batch.as_slice(), now);
        assert(quantized(raw@, batch@, *quantize));
        frames
    }

    /// Feeds one batch of input samples at time `now`, in nanoseconds on the
    /// suppressor's clock: resamples it, appends the result to what is
    /// pending, and hands every whole frame to the suppressor. Returns the
    /// frames for the sink in order.
    pub fn feed_at(&mut self, batch: &[i16], now: u64) -> (frames: Vec<Vec<i16>>)
        ensures
            final(self)@ == old(self)@.feed(batch@, now),
            frames_view(frames) == old(self)@.delivered(batch@, now),
            final(self)@.resampler.wf(),
            final(self)@.pending.len() < FRAME_SAMPLES,
            forall|i: int| 0 <= i < frames@.len() ==> (#[trigger] frames@[i])@.len() == FRAME_SAMPLES,
    {
        let ghost start = self@;
        let resampled: Vec<i16> = self.resampler.resample(batch);
        self.assembler.extend(resampled.as_slice());
        let mut frames: Vec<Vec<i16>> = Vec::new();
        let ghost assembled = start.assembled(batch@);
        let ghost goal = drain_frames(assembled, start.suppressor, now);
        proof {
            lemma_drain_frames(assembled, start.suppressor, now);
            assert(frames_view(frames) =~= Seq::<Seq<i16>>::empty());
        }
        loop
            invariant
                self.resampler@ == start.resampler.advance(batch@),
                self.resampler@.wf(),
                goal == drain_frames(assembled, start.suppressor, now),
                goal.pending == drain_frames(self.assembler@, self.suppressor@, now).pending,
                goal.suppressor == drain_frames(self.assembler@, self.suppressor@, now).suppressor,
                goal.delivered == frames_view(frames) + drain_frames(
                    self.assembler@,
                    self.suppressor@,
                    now,
                ).delivered,
                forall|i: int|
                    0 <= i < frames@.len() ==> (#[trigger] frames@[i])@.len() == FRAME_SAMPLES,
            ensures
                self.resampler@ == start.resampler.advance(batch@),
                self.resampler@.wf(),
                self.assembler@ == goal.pending,
                self.assembler@.len() < FRAME_SAMPLES,
                self.suppressor@ == goal.suppressor,
                frames_view(frames) == goal.delivered,
                forall|i: int|
                    0 <= i < frames@.len() ==> (#[trigger] frames@[i])@.len() == FRAME_SAMPLES,
            decreases self.assembler@.len(),
        {
            let ghost before = self.assembler@;
            let ghost judge = self.suppressor@;
            let ghost sent = frames_view(frames);
            match self.assembler.pop_frame() {
                None => {
                    assert(frames_view(frames) + Seq::<Seq<i16>>::empty() =~= frames_view(frames));
                    break ;
                },
                Some(frame) => {
                    let action: FrameAction = self.suppressor.process_at(frame.as_slice(), now);
                    match action.payload() {
                        Some(samples) => {
                            frames.push(samples);
                            assert(frames_view(frames) =~= sent + seq![samples@]);
                        },
                        None => {
                            assert(sent + Seq::<Seq<i16>>::empty() =~= sent);
                        },
                    }
                    let ghost head = match judge.action(frame@, now).payload() {
                        Some(samples) => seq![samples],
                        None => Seq::<Seq<i16>>::empty(),
                    };
                    let ghost rest = drain_frames(self.assembler@, self.suppressor@, now);
                    assert(drain_frames(before, judge, now).delivered == head + rest.delivered);
                    assert(frames_view(frames) == sent + head);
                    assert(sent + (head + rest.delivered) =~= (sent + head) + rest.delivered);
                },
            }
        }
        frames
    }
}

/// The whole frames at the front of a stream of samples, in order.
pub open spec fn whole_frames(stream: Seq<i16>) -> Seq<Seq<i16>> {
    Seq::new(
        stream.len() / (FRAME_SAMPLES as nat),
        |k: int| stream.subrange(k * FRAME_SAMPLES, k * FRAME_SAMPLES + FRAME_SAMPLES),
    )
}

/// Whether every whole frame of a stream carries speech for a suppressor
/// with these settings.
pub open spec fn all_loud(stream: Seq<i16>, config: SilenceSuppressionConfig) -> bool {
    forall|k: int|
        0 <= k < whole_frames(stream).len() ==> rms_at_least(
            #[trigger] whole_frames(stream)[k],
            LEVEL_STRIDE as nat,
            config.speech_threshold_rms as nat,
        )
}

/// The whole frames of a stream that begins with `whole` frames: those
/// frames, then the whole frames of the rest.
pub proof fn lemma_whole_frames_split(stream: Seq<i16>, whole: nat)
    requires
        whole * FRAME_SAMPLES <= stream.len(),
    ensures
        whole_frames(stream) == whole_frames(stream.take(whole * FRAME_SAMPLES)) + whole_frames(
            stream.skip(whole * FRAME_SAMPLES),
        ),
        whole_frames(stream.take(whole * FRAME_SAMPLES)).len() == whole,
{
    let size = FRAME_SAMPLES as int;
    let cut = whole * size;
    let head = stream.take(cut);
    let tail = stream.skip(cut);
    assert(head.len() / (FRAME_SAMPLES as nat) == whole) by (nonlinear_arith)
        requires
            head.len() == whole * 320,
            FRAME_SAMPLES == 320,
    ;
    assert(stream.len() / (FRAME_SAMPLES as nat) == whole + tail.len() / (FRAME_SAMPLES as nat))
        by (nonlinear_arith)
        requires
            stream.len() == whole * 320 + tail.len(),
            FRAME_SAMPLES == 320,
    ;
    let joined = whole_frames(head) + whole_frames(tail);
    assert forall|k: int| 0 <= k < whole_frames(stream).len() implies whole_frames(stream)[k]
        == joined[k] by {
        if k < whole {
            assert(k * size + size <= cut) by (nonlinear_arith)
                requires
                    k + 1 <= whole,
                    cut == whole * size,
                    size > 0,
            ;
            assert(stream.subrange(k * size, k * size + size) =~= head.subrange(
                k * size,
                k * size + size,
            ));
        } else {
            let j = k - whole;
            assert(j * size + cut == k * size) by (nonlinear_arith)
                requires
                    j == k - whole,
                    cut == whole * size,
            ;
            assert(k * size + size <= stream.len()) by (nonlinear_arith)
                requires
                    k + 1 <= stream.len() / 320,
                    size == 320,
            ;
            assert(stream.subrange(k * size, k * size + size) =~= tail.subrange(
                j * size,
                j * size + size,
            ));
        }
    }
    assert(whole_frames(stream) =~= joined);
}

/// Where every whole frame carries speech, draining hands every whole
/// frame to the sink as it is, in order, and suppresses none.
pub proof fn lemma_loud_frames_all_delivered(
    pending: Seq<i16>,
    suppressor: SuppressorModel,
    now: u64,
)
    requires
        all_loud(pending, suppressor.config),
    ensures
        drain_frames(pending, suppressor, now).delivered == whole_frames(pending),
        drain_frames(pending, suppressor, now).suppressor.frames_suppressed
            == suppressor.frames_suppressed,
    decreases pending.len(),
{
    let size = FRAME_SAMPLES as int;
    if pending.len() >= FRAME_SAMPLES {
        let frame = pending.take(size);
        let tail = pending.skip(size);
        assert(1 * FRAME_SAMPLES == size);
        lemma_whole_frames_split(pending, 1);
        assert(whole_frames(frame).len() == 1);
        assert(whole_frames(frame)[0] =~= frame);
        assert(whole_frames(pending)[0] == frame);
        assert(suppressor.hears_speech(frame));
        let next = suppressor.step(frame, now);
        assert forall|k: int| 0 <= k < whole_frames(tail).len() implies rms_at_least(
            #[trigger] whole_frames(tail)[k],
            LEVEL_STRIDE as nat,
            next.config.speech_threshold_rms as nat,
        ) by {
            assert(whole_frames(tail)[k] == whole_frames(pending)[k + 1]);
        }
        lemma_loud_frames_all_delivered(tail, next, now);
        assert(whole_frames(frame) =~= seq![frame]);
    } else {
        assert(pending.len() / (FRAME_SAMPLES as nat) == 0);
        assert(whole_frames(pending) =~= Seq::<Seq<i16>>::empty());
    }
}

impl PipelineModel {
    /// The frames that go to the sink while the batches are fed one after
    /// the other, in order.
    pub open spec fn delivered_all(self, batches: Seq<Batch>) -> Seq<Seq<i16>>
        decreases batches.len(),
    {
        if batches.len() == 0 {
            Seq::empty()
        } else {
            self.delivered_all(batches.drop_last()) + self.feed_all(batches.drop_last()).delivered(
                batches.last().samples,
                batches.last().time,
            )
        }
    }

    /// Everything that stands in front of the suppressor over a run of
    /// batches: what was pending, then all that the resampler makes of the
    /// batches.
    pub open spec fn resampled(self, batches: Seq<Batch>) -> Seq<i16> {
        self.pending + self.resampler.outputs_all(batch_samples(batches))
    }
}

/// Loud audio reaches the sink whole: where every whole frame of the
/// resampled stream carries speech, the frames handed to the sink over
/// any run of batches are exactly the whole frames of that stream, in
/// order, and what stays pending is the rest behind the last of them.
pub proof fn lemma_loud_stream_reaches_sink(m: PipelineModel, batches: Seq<Batch>)
    requires
        m.resampler.wf(),
        m.pending.len() < FRAME_SAMPLES,
        all_loud(m.resampled(batches), m.suppressor.config),
    ensures
        m.delivered_all(batches) == whole_frames(m.resampled(batches)),
        m.feed_all(batches).pending == m.resampled(batches).skip(
            whole_frames(m.resampled(batches)).len() * FRAME_SAMPLES,
        ),
        m.feed_all(batches).suppressor.config == m.suppressor.config,
        m.feed_all(batches).resampler == m.resampler.advance_all(batch_samples(batches)),
    decreases batches.len(),
{
    let size = FRAME_SAMPLES as int;
    if batches.len() == 0 {
        assert(batch_samples(batches) =~= Seq::<Seq<i16>>::empty());
        assert(m.resampled(batches) =~= m.pending);
        assert(m.pending.len() / (FRAME_SAMPLES as nat) == 0);
        assert(m.pending.skip(0) =~= m.pending);
    } else {
        let init = batches.drop_last();
        let last = batches.last();
        let whole = m.resampled(batches);
        let front = m.resampled(init);
        let before = m.feed_all(init);
        assert(batch_samples(batches).drop_last() =~= batch_samples(init));
        assert(batch_samples(batches).last() == last.samples);
        let fresh = m.resampler.advance_all(batch_samples(init)).outputs(last.samples);
        assert(whole =~= front + fresh);
        let d = front.len() / (FRAME_SAMPLES as nat);
        let cut = d * size;
        lemma_fundamental_div_mod(front.len() as int, size);
        lemma_mod_bound(front.len() as int, size);
        assert(cut <= front.len()) by (nonlinear_arith)
            requires
                front.len() == size * d + front.len() % (size as nat),
                0 <= front.len() % (size as nat),
                cut == d * size,
        ;
        assert(front.len() - cut < size) by (nonlinear_arith)
            requires
                front.len() == size * d + front.len() % (size as nat),
                front.len() % (size as nat) < size,
                cut == d * size,
        ;
        lemma_whole_frames_split(whole, d);
        lemma_whole_frames_split(front, d);
        assert(whole.take(cut) =~= front.take(cut));
        assert(front.skip(cut).len() / (FRAME_SAMPLES as nat) == 0);
        assert(whole_frames(front.skip(cut)) =~= Seq::<Seq<i16>>::empty());
        assert(whole_frames(front) =~= whole_frames(whole.take(cut)));
        // The frames of the front are the first frames of the whole.
        assert forall|k: int| 0 <= k < whole_frames(front).len() implies rms_at_least(
            #[trigger] whole_frames(front)[k],
            LEVEL_STRIDE as nat,
            m.suppressor.config.speech_threshold_rms as nat,
        ) by {
            assert(whole_frames(front)[k] == whole_frames(whole)[k]);
        }
        lemma_loud_stream_reaches_sink(m, init);
        let assembled = before.assembled(last.samples);
        assert(assembled =~= whole.skip(cut));
        assert forall|k: int| 0 <= k < whole_frames(assembled).len() implies rms_at_least(
            #[trigger] whole_frames(assembled)[k],
            LEVEL_STRIDE as nat,
            before.suppressor.config.speech_threshold_rms as nat,
        ) by {
            assert(whole_frames(assembled)[k] == whole_frames(whole)[d + k]);
        }
        lemma_loud_frames_all_delivered(assembled, before.suppressor, last.time);
        lemma_drain_frames(assembled, before.suppressor, last.time);
        let taken = assembled.len() - assembled.len() % (FRAME_SAMPLES as nat);
        lemma_fundamental_div_mod(assembled.len() as int, size);
        assert(taken == (assembled.len() / (FRAME_SAMPLES as nat)) * size) by (nonlinear_arith)
            requires
                assembled.len() == size * (assembled.len() / (size as nat)) + assembled.len() % (
                size as nat),
                taken == assembled.len() - assembled.len() % (size as nat),
                size == FRAME_SAMPLES,
        ;
        assert(whole_frames(whole).len() * FRAME_SAMPLES == cut + taken) by (nonlinear_arith)
            requires
                whole_frames(whole).len() == d + assembled.len() / (FRAME_SAMPLES as nat),
                cut == d * size,
                taken == (assembled.len() / (FRAME_SAMPLES as nat)) * size,
                size == FRAME_SAMPLES,
        ;
        assert(whole.skip(cut).skip(taken) =~= whole.skip(cut + taken));
    }
}

/// Rate of loud audio at the sink: a pipeline that is fed `n` input
/// samples from its initial state, all of them loud enough to be sent,
/// hands to the sink every whole frame of what the resampler produced,
/// and that is the least number of 16 kHz samples that covers
/// `n * 16000 / input_rate`.
pub proof fn lemma_loud_pipeline_rate(
    input_rate: nat,
    config: SilenceSuppressionConfig,
    batches: Seq<Batch>,
)
    requires
        input_rate > 0,
        all_loud(PipelineModel::initial(input_rate, config).resampled(batches), config),
    ensures
        ({
            let m = PipelineModel::initial(input_rate, config);
            let n = concat(batch_samples(batches)).len();
            let produced = m.resampled(batches).len();
            &&& n * SAMPLE_RATE / (input_rate as int) <= produced <= n * SAMPLE_RATE / (
            input_rate as int) + 1
            &&& m.delivered_all(batches).len() == produced / (FRAME_SAMPLES as nat)
            &&& forall|k: int|
                0 <= k < m.delivered_all(batches).len() ==> (#[trigger] m.delivered_all(
                    batches,
                )[k]).len() == FRAME_SAMPLES
        }),
{
    let m = PipelineModel::initial(input_rate, config);
    lemma_rate_correctness(m.resampler, batch_samples(batches));
    lemma_loud_stream_reaches_sink(m, batches);
    assert(m.resampled(batches) =~= m.resampler.outputs_all(batch_samples(batches)));
    assert forall|k: int| 0 <= k < m.delivered_all(batches).len() implies (
    #[trigger] m.delivered_all(batches)[k]).len() == FRAME_SAMPLES by {
        let stream = m.resampled(batches);
        assert(k * FRAME_SAMPLES + FRAME_SAMPLES <= stream.len()) by (nonlinear_arith)
            requires
                k + 1 <= stream.len() / 320,
                FRAME_SAMPLES == 320,
        ;
    }
}

} // verus!
