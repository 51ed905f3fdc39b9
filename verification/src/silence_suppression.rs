//! Silence suppression for a streaming recognizer that must never see a gap
//! in time.
//!
//! Frames that carry speech are always passed on at once. After speech ends
//! the suppressor keeps passing frames for a hangover period and then
//! replaces the stream by a zero frame every keep-alive interval.

use vstd::prelude::*;
use vstd::slice::slice_to_vec;
use crate::audio_config::FRAME_SAMPLES;
use crate::clock::{at_least, elapsed, longer_than, MonotonicClock, NANOS_PER_MILLI};
use crate::level::{lemma_zero_energy, rms_at_least, strided_count, Level};

verus! {

/// Every how many samples of a frame the suppressor measures loudness.
pub const LEVEL_STRIDE: usize = 4;

/// Settings of a suppressor.
#[derive(Clone, Copy, Debug, PartialEq, Eq, Structural)]
pub struct SilenceSuppressionConfig {
    /// Root mean square, on the scale of 16-bit samples, from which a frame
    /// counts as speech.
    pub speech_threshold_rms: u32,
    /// How long after the last speech frame silent frames are still passed
    /// on, in milliseconds.
    pub speech_hangover_ms: u64,
    /// Time between two keep-alive frames during silence, in milliseconds.
    pub silence_keepalive_interval_ms: u64,
}

impl SilenceSuppressionConfig {
    /// The settings for system audio.
    pub open spec fn spec_for_system_audio() -> Self {
        SilenceSuppressionConfig {
            speech_threshold_rms: 30,
            speech_hangover_ms: 300,
            silence_keepalive_interval_ms: 100,
        }
    }

    /// The settings for a microphone.
    pub open spec fn spec_for_microphone() -> Self {
        SilenceSuppressionConfig {
            speech_threshold_rms: 100,
            speech_hangover_ms: 200,
            silence_keepalive_interval_ms: 100,
        }
    }

    /// Settings for system audio, which is quieter than a microphone.
    #[verifier::when_used_as_spec(spec_for_system_audio)]
    pub fn for_system_audio() -> (config: Self)
        ensures
            config == Self::spec_for_system_audio(),
    {
        SilenceSuppressionConfig {
            speech_threshold_rms: 30,
            speech_hangover_ms: 300,
            silence_keepalive_interval_ms: 100,
        }
    }

    /// Settings for a microphone.
    #[verifier::when_used_as_spec(spec_for_microphone)]
    pub fn for_microphone() -> (config: Self)
        ensures
            config == Self::spec_for_microphone(),
    {
        SilenceSuppressionConfig {
            speech_threshold_rms: 100,
            speech_hangover_ms: 200,
            silence_keepalive_interval_ms: 100,
        }
    }
}

impl Default for SilenceSuppressionConfig {
    fn default() -> (config: Self)
        ensures
            config == SilenceSuppressionConfig::spec_for_microphone(),
    {
        SilenceSuppressionConfig::for_microphone()
    }
}

/// Where a suppressor stands.
#[derive(Clone, Copy, Debug, PartialEq, Eq, Structural)]
pub enum SuppressionState {
    /// The last frame carried speech.
    Active,
    /// Speech ended a short while ago; frames are still passed on.
    Hangover,
    /// Silence is confirmed; only keep-alive frames are sent.
    Suppressed,
}

/// What to do with a frame.
#[derive(Debug)]
pub enum FrameAction {
    /// Pass these samples on.
    Send(Vec<i16>),
    /// Pass on a frame of zeros in place of the frame.
    SendSilence,
    /// Pass nothing on.
    Suppress,
}

/// A [`FrameAction`] with its samples as a sequence.
pub enum FrameActionView {
    /// Pass these samples on.
    Send(Seq<i16>),
    /// Pass on a frame of zeros in place of the frame.
    SendSilence,
    /// Pass nothing on.
    Suppress,
}

impl View for FrameAction {
    type V = FrameActionView;

    open spec fn view(&self) -> FrameActionView {
        match self {
            FrameAction::Send(samples) => FrameActionView::Send(samples@),
            FrameAction::SendSilence => FrameActionView::SendSilence,
            FrameAction::Suppress => FrameActionView::Suppress,
        }
    }
}

/// A frame of `size` zeros.
pub open spec fn silence(size: nat) -> Seq<i16> {
    Seq::new(size, |i: int| 0i16)
}

impl FrameActionView {
    /// Whether the action puts a frame on the wire.
    pub open spec fn emits(self) -> bool {
        !(self is Suppress)
    }

    /// The samples that go to the sink, if any.
    pub open spec fn payload(self) -> Option<Seq<i16>> {
        match self {
            FrameActionView::Send(samples) => Some(samples),
            FrameActionView::SendSilence => Some(silence(FRAME_SAMPLES as nat)),
            FrameActionView::Suppress => None,
        }
    }
}

impl Clone for FrameAction {
    fn clone(&self) -> (copy: Self)
        ensures
            copy@ == self@,
    {
        match self {
            FrameAction::Send(samples) => FrameAction::Send(samples.clone()),
            FrameAction::SendSilence => FrameAction::SendSilence,
            FrameAction::Suppress => FrameAction::Suppress,
        }
    }
}

impl FrameAction {
    /// The samples that go to the sink: the frame itself, a frame of zeros
    /// for a keep-alive, nothing for a suppressed frame.
    pub fn payload(self) -> (frame: Option<Vec<i16>>)
        ensures
            frame.is_some() == self@.payload().is_some(),
            frame.is_some() ==> frame.unwrap()@ == self@.payload().unwrap(),
    {
        match self {
            FrameAction::Send(samples) => Some(samples),
            FrameAction::SendSilence => Some(generate_silence_frame(FRAME_SAMPLES)),
            FrameAction::Suppress => None,
        }
    }
}

/// A counter after one more event; it stays at `u64::MAX` once there.
pub open spec fn counted(counter: u64) -> u64 {
    if counter < u64::MAX {
        (counter + 1) as u64
    } else {
        counter
    }
}

/// The state of a suppressor. Times are nanoseconds on the suppressor's
/// clock.
pub struct SuppressorModel {
    /// The settings, fixed at construction.
    pub config: SilenceSuppressionConfig,
    /// Where the state machine stands.
    pub state: SuppressionState,
    /// When the last speech frame was seen.
    pub last_speech_time: u64,
    /// When the last keep-alive frame was sent.
    pub last_keepalive_time: u64,
    /// Frames passed on, keep-alives included.
    pub frames_sent: u64,
    /// Frames dropped.
    pub frames_suppressed: u64,
}

impl SuppressorModel {
    /// A suppressor created at time `now`: active, so that the first words
    /// are never dropped.
    pub open spec fn initial(config: SilenceSuppressionConfig, now: u64) -> SuppressorModel {
        SuppressorModel {
            config,
            state: SuppressionState::Active,
            last_speech_time: now,
            last_keepalive_time: now,
            frames_sent: 0,
            frames_suppressed: 0,
        }
    }

    /// Whether `frame` carries speech: the root mean square of every fourth
    /// sample reaches the threshold.
    pub open spec fn hears_speech(self, frame: Seq<i16>) -> bool {
        rms_at_least(frame, LEVEL_STRIDE as nat, self.config.speech_threshold_rms as nat)
    }

    /// Whether a silent frame at time `now` still falls into the hangover
    /// after speech.
    pub open spec fn in_hangover(self, now: u64) -> bool {
        &&& self.state != SuppressionState::Suppressed
        &&& elapsed(now, self.last_speech_time) <= self.config.speech_hangover_ms
            * NANOS_PER_MILLI
    }

    /// Whether a keep-alive frame is due at time `now`.
    pub open spec fn keepalive_due(self, now: u64) -> bool {
        elapsed(now, self.last_keepalive_time) >= self.config.silence_keepalive_interval_ms
            * NANOS_PER_MILLI
    }

    /// The action for `frame` arriving at time `now`. Speech is tested
    /// first, before anything that depends on the state.
    pub open spec fn action(self, frame: Seq<i16>, now: u64) -> FrameActionView {
        if self.hears_speech(frame) || self.in_hangover(now) {
            FrameActionView::Send(frame)
        } else if self.keepalive_due(now) {
            FrameActionView::SendSilence
        } else {
            FrameActionView::Suppress
        }
    }

    /// The state after `frame` arrived at time `now`.
    pub open spec fn step(self, frame: Seq<i16>, now: u64) -> SuppressorModel {
        if self.hears_speech(frame) {
            SuppressorModel {
                state: SuppressionState::Active,
                last_speech_time: now,
                frames_sent: counted(self.frames_sent),
                ..self
            }
        } else if self.in_hangover(now) {
            SuppressorModel {
                state: SuppressionState::Hangover,
                frames_sent: counted(self.frames_sent),
                ..self
            }
        } else if self.keepalive_due(now) {
            SuppressorModel {
                state: SuppressionState::Suppressed,
                last_keepalive_time: now,
                frames_sent: counted(self.frames_sent),
                ..self
            }
        } else {
            SuppressorModel {
                state: SuppressionState::Suppressed,
                frames_suppressed: counted(self.frames_suppressed),
                ..self
            }
        }
    }

    /// The state after a reset at time `now`. Settings and counters stay.
    pub open spec fn reset(self, now: u64) -> SuppressorModel {
        SuppressorModel {
            state: SuppressionState::Active,
            last_speech_time: now,
            last_keepalive_time: now,
            ..self
        }
    }

    /// Whether frames are currently passed on in full.
    pub open spec fn is_speech(self) -> bool {
        self.state != SuppressionState::Suppressed
    }
}

/// The silence suppression state machine: one frame in, one action out.
pub struct SilenceSuppressor {
    config: SilenceSuppressionConfig,
    state: SuppressionState,
    clock: MonotonicClock,
    last_speech_time: u64,
    last_keepalive_time: u64,
    frames_sent: u64,
    frames_suppressed: u64,
}

impl View for SilenceSuppressor {
    type V = SuppressorModel;

    closed spec fn view(&self) -> SuppressorModel {
        SuppressorModel {
            config: self.config,
            state: self.state,
            last_speech_time: self.last_speech_time,
            last_keepalive_time: self.last_keepalive_time,
            frames_sent: self.frames_sent,
            frames_suppressed: self.frames_suppressed,
        }
    }
}

impl SilenceSuppressor {
    /// Creates a suppressor and starts its clock; the suppressor is in its
    /// initial state at time zero of that clock.
    pub fn new(config: SilenceSuppressionConfig) -> (suppressor: Self)
        ensures
            suppressor@ == SuppressorModel::initial(config, 0),
    {
        SilenceSuppressor {
            config,
            state: SuppressionState::Active,
            clock: MonotonicClock::start(),
            last_speech_time: 0,
            last_keepalive_time: 0,
            frames_sent: 0,
            frames_suppressed: 0,
        }
    }

    /// Decides what to do with `frame`, which arrives now. Whatever the
    /// clock reads, the result is that of [`Self::process_at`] for some
    /// time, and a frame that carries speech is sent.
    pub fn process(&mut self, frame: &[i16]) -> (action: FrameAction)
        ensures
            exists|now: u64|
                {
                    &&& final(self)@ == #[trigger] old(self)@.step(frame@, now)
                    &&& action@ == old(self)@.action(frame@, now)
                },
            old(self)@.hears_speech(frame@) ==> action@ == FrameActionView::Send(frame@),
    {
        let now: u64 = self.clock.now();
        self.process_at(frame, now)
    }

    /// Decides what to do with `frame`, which arrives at time `now` in
    /// nanoseconds on the suppressor's clock.
    pub fn process_at(&mut self, frame: &[i16], now: u64) -> (action: FrameAction)
        ensures
            final(self)@ == old(self)@.step(frame@, now),
            action@ == old(self)@.action(frame@, now),
    {
        let level: Level = Level::measure(frame, LEVEL_STRIDE);
        let has_speech: bool = level.at_least(self.config.speech_threshold_rms);
        if has_speech {
            self.state = SuppressionState::Active;
            self.last_speech_time = now;
            self.frames_sent = self.frames_sent.saturating_add(1);
            return FrameAction::Send(slice_to_vec(frame));
        }
        let in_hangover: bool = match self.state {
            SuppressionState::Suppressed => false,
            _ => !longer_than(now, self.last_speech_time, self.config.speech_hangover_ms),
        };
        if in_hangover {
            self.state = SuppressionState::Hangover;
            self.frames_sent = self.frames_sent.saturating_add(1);
            return FrameAction::Send(slice_to_vec(frame));
        }
        self.state = SuppressionState::Suppressed;
        if at_least(now, self.last_keepalive_time, self.config.silence_keepalive_interval_ms) {
            self.last_keepalive_time = now;
            self.frames_sent = self.frames_sent.saturating_add(1);
            FrameAction::SendSilence
        } else {
            self.frames_suppressed = self.frames_suppressed.saturating_add(1);
            FrameAction::Suppress
        }
    }

    /// The current reading of the suppressor's clock in nanoseconds. The
    /// reading depends on the machine, so nothing is promised of it.
    pub fn now(&self) -> (nanos: u64) {
        self.clock.now()
    }

    /// Frames passed on and frames suppressed so far.
    pub fn stats(&self) -> (counts: (u64, u64))
        ensures
            counts.0 == self@.frames_sent,
            counts.1 == self@.frames_suppressed,
    {
        (self.frames_sent, self.frames_suppressed)
    }

    /// Whether frames are currently passed on in full.
    pub fn is_speech(&self) -> (r: bool)
        ensures
            r == self@.is_speech(),
    {
        match self.state {
            SuppressionState::Suppressed => false,
            _ => true,
        }
    }

    /// The settings the suppressor was created with.
    pub fn config(&self) -> (config: SilenceSuppressionConfig)
        ensures
            config == self@.config,
    {
        self.config
    }

    /// Returns to the active state as of now. Whatever the clock reads, the
    /// result is that of [`Self::reset_at`] for some time.
    pub fn reset(&mut self)
        ensures
            exists|now: u64| final(self)@ == #[trigger] old(self)@.reset(now),
    {
        let now: u64 = self.clock.now();
        self.reset_at(now);
    }

    /// Returns to the active state as of time `now`.
    pub fn reset_at(&mut self, now: u64)
        ensures
            final(self)@ == old(self)@.reset(now),
    {
        self.state = SuppressionState::Active;
        self.last_speech_time = now;
        self.last_keepalive_time = now;
    }
}

/// A frame of `size` zeros, the payload of a keep-alive.
pub fn generate_silence_frame(size: usize) -> (frame: Vec<i16>)
    ensures
        frame@ == silence(size as nat),
{
    let mut frame: Vec<i16> = Vec::new();
    let mut i: usize = 0;
    while i < size
        invariant
            i <= size,
            frame@ == silence(i as nat),
        decreases size - i,
    {
        frame.push(0i16);
        i += 1;
    }
    frame
}

/// One frame with the time at which it arrives.
pub struct Arrival {
    /// The samples of the frame.
    pub frame: Seq<i16>,
    /// Arrival time in nanoseconds on the suppressor's clock.
    pub time: u64,
}

impl SuppressorModel {
    /// The state after the arrivals were processed in order.
    pub open spec fn run(self, arrivals: Seq<Arrival>) -> SuppressorModel
        decreases arrivals.len(),
    {
        if arrivals.len() == 0 {
            self
        } else {
            self.run(arrivals.drop_last()).step(arrivals.last().frame, arrivals.last().time)
        }
    }

    /// The action for the `i`-th of the arrivals.
    pub open spec fn action_at(self, arrivals: Seq<Arrival>, i: int) -> FrameActionView
        recommends
            0 <= i < arrivals.len(),
    {
        self.run(arrivals.take(i)).action(arrivals[i].frame, arrivals[i].time)
    }
}

/// Arrival times never go back, and two arrivals in a row are at most
/// `period` nanoseconds apart.
pub open spec fn paced(arrivals: Seq<Arrival>, period: nat) -> bool {
    forall|i: int|
        0 <= i < arrivals.len() - 1 ==> (#[trigger] arrivals[i]).time <= arrivals[i + 1].time
            <= arrivals[i].time + period
}

/// Speech is never delayed: a frame whose level reaches the threshold is
/// sent as it is, in every state and at every time, and leaves the
/// suppressor active.
pub proof fn lemma_speech_never_delayed(m: SuppressorModel, frame: Seq<i16>, now: u64)
    requires
        m.hears_speech(frame),
    ensures
        m.action(frame, now) == FrameActionView::Send(frame),
        m.step(frame, now).state == SuppressionState::Active,
        m.step(frame, now).last_speech_time == now,
        m.step(frame, now).frames_sent == counted(m.frames_sent),
        m.step(frame, now).frames_suppressed == m.frames_suppressed,
{
}

/// One frame moves exactly one counter, by one, and never back: the
/// counter of sent frames if something goes to the sink, the counter of
/// suppressed frames if not.
pub proof fn lemma_counters_step(m: SuppressorModel, frame: Seq<i16>, now: u64)
    ensures
        m.step(frame, now).frames_sent >= m.frames_sent,
        m.step(frame, now).frames_suppressed >= m.frames_suppressed,
        m.action(frame, now).emits() ==> {
            &&& m.step(frame, now).frames_sent == counted(m.frames_sent)
            &&& m.step(frame, now).frames_suppressed == m.frames_suppressed
        },
        !m.action(frame, now).emits() ==> {
            &&& m.step(frame, now).frames_sent == m.frames_sent
            &&& m.step(frame, now).frames_suppressed == counted(m.frames_suppressed)
        },
        m.step(frame, now).config == m.config,
{
}

/// Monotonic counters: over any run of frames neither counter decreases,
/// and as long as no counter has reached `u64::MAX` their sum grows by the
/// number of frames processed.
pub proof fn lemma_counters_count_frames(m: SuppressorModel, arrivals: Seq<Arrival>)
    ensures
        m.run(arrivals).frames_sent >= m.frames_sent,
        m.run(arrivals).frames_suppressed >= m.frames_suppressed,
        m.frames_sent + m.frames_suppressed + arrivals.len() <= u64::MAX ==> m.run(
            arrivals,
        ).frames_sent + m.run(arrivals).frames_suppressed == m.frames_sent + m.frames_suppressed
            + arrivals.len(),
    decreases arrivals.len(),
{
    if arrivals.len() > 0 {
        let before = m.run(arrivals.drop_last());
        lemma_counters_count_frames(m, arrivals.drop_last());
        lemma_counters_step(before, arrivals.last().frame, arrivals.last().time);
    }
}

/// Along paced arrivals, time does not go back between any two of them.
pub proof fn lemma_paced_times_ordered(arrivals: Seq<Arrival>, period: nat, i: int, j: int)
    requires
        paced(arrivals, period),
        0 <= i <= j < arrivals.len(),
    ensures
        arrivals[i].time <= arrivals[j].time,
    decreases j - i,
{
    if i < j {
        lemma_paced_times_ordered(arrivals, period, i, j - 1);
        assert(arrivals[j - 1].time <= arrivals[j - 1 + 1].time);
    }
}

/// After the first `n` of paced arrivals the last keep-alive is not later
/// than the last of them, and the settings are unchanged.
pub proof fn lemma_keepalive_not_in_future(
    m: SuppressorModel,
    arrivals: Seq<Arrival>,
    period: nat,
    n: int,
)
    requires
        paced(arrivals, period),
        0 < n <= arrivals.len(),
        m.last_keepalive_time <= arrivals[0].time,
    ensures
        m.run(arrivals.take(n)).last_keepalive_time <= arrivals[n - 1].time,
        m.run(arrivals.take(n)).config == m.config,
    decreases n,
{
    let prefix = arrivals.take(n);
    assert(prefix.drop_last() =~= arrivals.take(n - 1));
    assert(prefix.last() == arrivals[n - 1]);
    if n > 1 {
        lemma_keepalive_not_in_future(m, arrivals, period, n - 1);
        assert(arrivals[n - 2].time <= arrivals[n - 2 + 1].time);
    } else {
        assert(arrivals.take(0) =~= Seq::<Arrival>::empty());
    }
}

/// While nothing goes to the sink, the time of the last keep-alive stays.
pub proof fn lemma_keepalive_time_stays(
    m: SuppressorModel,
    arrivals: Seq<Arrival>,
    i: int,
    k: int,
)
    requires
        0 <= i < k <= arrivals.len(),
        forall|x: int| i < x < k ==> !(#[trigger] m.action_at(arrivals, x)).emits(),
    ensures
        m.run(arrivals.take(k)).last_keepalive_time == m.run(
            arrivals.take(i + 1),
        ).last_keepalive_time,
    decreases k - i,
{
    if k > i + 1 {
        lemma_keepalive_time_stays(m, arrivals, i, k - 1);
        let prefix = arrivals.take(k);
        assert(prefix.drop_last() =~= arrivals.take(k - 1));
        assert(prefix.last() == arrivals[k - 1]);
        assert(!m.action_at(arrivals, k - 1).emits());
    }
}

/// Timing continuity: when frames arrive at most `period` nanoseconds
/// apart, two frames that go to the sink one after the other, with nothing
/// sent between them, are at most the keep-alive interval plus `period`
/// apart. This holds for every content of the frames, silence included.
pub proof fn lemma_timing_continuity(
    m: SuppressorModel,
    arrivals: Seq<Arrival>,
    period: nat,
    i: int,
    j: int,
)
    requires
        paced(arrivals, period),
        0 <= i < j < arrivals.len(),
        m.last_keepalive_time <= arrivals[0].time,
        m.action_at(arrivals, i).emits(),
        m.action_at(arrivals, j).emits(),
        forall|k: int| i < k < j ==> !(#[trigger] m.action_at(arrivals, k)).emits(),
    ensures
        arrivals[j].time - arrivals[i].time <= m.config.silence_keepalive_interval_ms
            * NANOS_PER_MILLI + period,
{
    lemma_paced_times_ordered(arrivals, period, i, j - 1);
    assert(arrivals[j - 1].time <= arrivals[j - 1 + 1].time <= arrivals[j - 1].time + period);
    if j > i + 1 {
        let k = j - 1;
        let before = m.run(arrivals.take(k));
        lemma_keepalive_time_stays(m, arrivals, i, k);
        lemma_keepalive_not_in_future(m, arrivals, period, i + 1);
        if k > 0 {
            lemma_keepalive_not_in_future(m, arrivals, period, k);
        }
        assert(!m.action_at(arrivals, k).emits());
        assert(!before.keepalive_due(arrivals[k].time));
    }
}

/// A frame without speech leaves the time of the last speech as it was,
/// and is not sent as it is once the hangover after that time is over.
pub proof fn lemma_silence_after_hangover(m: SuppressorModel, frame: Seq<i16>, now: u64)
    requires
        !m.hears_speech(frame),
    ensures
        m.step(frame, now).last_speech_time == m.last_speech_time,
        elapsed(now, m.last_speech_time) > m.config.speech_hangover_ms * NANOS_PER_MILLI ==> !(
        m.action(frame, now) is Send),
        m.state == SuppressionState::Suppressed ==> !(m.action(frame, now) is Send),
{
}

/// Two keep-alive frames are never closer than the keep-alive interval:
/// when a keep-alive goes out, at least the interval has passed since the
/// one before, and the suppressor remembers the new one.
pub proof fn lemma_keepalives_are_spaced(m: SuppressorModel, frame: Seq<i16>, now: u64)
    requires
        m.action(frame, now) is SendSilence,
    ensures
        elapsed(now, m.last_keepalive_time) >= m.config.silence_keepalive_interval_ms
            * NANOS_PER_MILLI,
        m.step(frame, now).last_keepalive_time == now,
        m.step(frame, now).state == SuppressionState::Suppressed,
{
}

/// Nanoseconds between two frames of a stream of 20 ms frames.
pub const FRAME_PERIOD_NANOS: u64 = 20_000_000;

/// The first `n` frames of a silent stream that starts with the
/// suppressor's clock and brings one frame every 20 ms.
pub open spec fn paced_silence(n: nat) -> Seq<Arrival> {
    Seq::new(
        n,
        |k: int| Arrival { frame: silence(FRAME_SAMPLES as nat), time: (k * FRAME_PERIOD_NANOS) as u64 },
    )
}

/// A frame of zeros carries no speech for any threshold above zero.
pub proof fn lemma_silence_is_not_speech(m: SuppressorModel)
    requires
        m.config.speech_threshold_rms > 0,
    ensures
        !m.hears_speech(silence(FRAME_SAMPLES as nat)),
{
    let frame = silence(FRAME_SAMPLES as nat);
    let count = strided_count(frame.len(), LEVEL_STRIDE as nat);
    assert(count == 80);
    lemma_zero_energy(frame, LEVEL_STRIDE as nat, count);
    let t = m.config.speech_threshold_rms as nat;
    assert(t * t * count > 0) by (nonlinear_arith)
        requires
            t > 0,
            count == 80,
    ;
}

/// What a microphone suppressor has counted after the first `n` frames of
/// paced silence: the first eleven frames, up to 200 ms, fall into the
/// hangover and are sent; from 220 ms on one frame in five is a keep-alive
/// and the other four are suppressed.
pub proof fn lemma_paced_silence_counts(n: nat)
    requires
        n <= 1_000_000,
    ensures
        ({
            let end = SuppressorModel::initial(SilenceSuppressionConfig::for_microphone(), 0).run(
                paced_silence(n),
            );
            &&& end.frames_sent == if n <= 11 {
                n as int
            } else {
                12 + (n - 12) / 5
            }
            &&& end.frames_sent + end.frames_suppressed == n
            &&& end.last_speech_time == 0
            &&& end.last_keepalive_time == if n <= 11 {
                0
            } else {
                (11 + 5 * ((n - 12) / 5)) * FRAME_PERIOD_NANOS
            }
            &&& end.state == if n == 0 {
                SuppressionState::Active
            } else if n <= 11 {
                SuppressionState::Hangover
            } else {
                SuppressionState::Suppressed
            }
            &&& end.config == SilenceSuppressionConfig::for_microphone()
        }),
    decreases n,
{
    let start = SuppressorModel::initial(SilenceSuppressionConfig::for_microphone(), 0);
    if n > 0 {
        let k = (n - 1) as nat;
        lemma_paced_silence_counts(k);
        assert(paced_silence(n).drop_last() =~= paced_silence(k));
        let before = start.run(paced_silence(k));
        let arrival = paced_silence(n).last();
        assert(arrival.time == k * FRAME_PERIOD_NANOS);
        lemma_silence_is_not_speech(before);
        if k >= 12 {
            let q = (k - 12) / 5;
            let r = (k - 12) % 5;
            assert(k - 12 == 5 * q + r && 0 <= r < 5);
            if r == 4 {
                assert((k + 1 - 12) / 5 == q + 1);
            } else {
                assert((k + 1 - 12) / 5 == q);
            }
        }
    }
}

/// A thousand silent frames at 20 ms, from a fresh microphone suppressor:
/// 209 go to the sink and 791 are suppressed.
pub proof fn lemma_thousand_silent_frames()
    ensures
        SuppressorModel::initial(SilenceSuppressionConfig::for_microphone(), 0).run(
            paced_silence(1000),
        ).frames_sent == 209,
        SuppressorModel::initial(SilenceSuppressionConfig::for_microphone(), 0).run(
            paced_silence(1000),
        ).frames_suppressed == 791,
{
    lemma_paced_silence_counts(1000);
}

} // verus!
