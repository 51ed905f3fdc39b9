//! Voice-activity indicator for display.
//!
//! The indicator only reports a state. It never gates the audio that goes
//! to the recognizer; that is the task of the silence suppressor.

use vstd::prelude::*;
use crate::audio_config::{VAD_END_RMS, VAD_HANGOVER_MS, VAD_START_RMS};
use crate::clock::{elapsed, longer_than, MonotonicClock, NANOS_PER_MILLI};
use crate::level::{lemma_rms_floor_bound, rms_above, rms_at_least, rms_floor, Level};

verus! {

/// Every how many samples of a chunk the indicator measures loudness.
pub const VAD_LEVEL_STRIDE: usize = 10;

/// What the indicator shows.
#[derive(Debug, Clone, Copy, PartialEq, Eq, Structural)]
pub enum VadState {
    /// Nobody speaks.
    Idle,
    /// Somebody speaks.
    Speech,
    /// Speech has just ended.
    Hangover,
}

/// The state of an indicator. Times are nanoseconds on the indicator's
/// clock.
pub struct VadModel {
    /// What the indicator shows.
    pub state: VadState,
    /// Level above which speech starts.
    pub start_threshold: u32,
    /// Level below which speech ends.
    pub end_threshold: u32,
    /// How long the indicator lingers after speech, in milliseconds.
    pub hangover_duration_ms: u64,
    /// When the current hangover began.
    pub hangover_start_time: u64,
    /// Level of the last chunk, rounded down.
    pub last_rms: u32,
}

impl VadModel {
    /// An indicator that has seen no audio.
    pub open spec fn initial() -> VadModel {
        VadModel {
            state: VadState::Idle,
            start_threshold: VAD_START_RMS,
            end_threshold: VAD_END_RMS,
            hangover_duration_ms: VAD_HANGOVER_MS,
            hangover_start_time: 0,
            last_rms: 0,
        }
    }

    /// Whether the level of `chunk` is above the start threshold.
    pub open spec fn loud(self, chunk: Seq<i16>) -> bool {
        rms_above(chunk, VAD_LEVEL_STRIDE as nat, self.start_threshold as nat)
    }

    /// Whether the level of `chunk` is below the end threshold.
    pub open spec fn quiet(self, chunk: Seq<i16>) -> bool {
        !rms_at_least(chunk, VAD_LEVEL_STRIDE as nat, self.end_threshold as nat)
    }

    /// Whether the hangover that is running has lasted longer than its
    /// duration at time `now`.
    pub open spec fn hangover_over(self, now: u64) -> bool {
        elapsed(now, self.hangover_start_time) > self.hangover_duration_ms * NANOS_PER_MILLI
    }

    /// What the indicator shows after `chunk` arrived at time `now`.
    pub open spec fn next_state(self, chunk: Seq<i16>, now: u64) -> VadState {
        match self.state {
            VadState::Idle => if self.loud(chunk) {
                VadState::Speech
            } else {
                VadState::Idle
            },
            VadState::Speech => if self.quiet(chunk) {
                VadState::Hangover
            } else {
                VadState::Speech
            },
            VadState::Hangover => if self.loud(chunk) {
                VadState::Speech
            } else if self.hangover_over(now) {
                VadState::Idle
            } else {
                VadState::Hangover
            },
        }
    }

    /// The state after `chunk` arrived at time `now`.
    pub open spec fn update(self, chunk: Seq<i16>, now: u64) -> VadModel {
        VadModel {
            state: self.next_state(chunk, now),
            hangover_start_time: if self.state == VadState::Speech && self.quiet(chunk) {
                now
            } else {
                self.hangover_start_time
            },
            last_rms: rms_floor(chunk, VAD_LEVEL_STRIDE as nat) as u32,
            ..self
        }
    }

    /// Whether the indicator shows speech or its hangover.
    pub open spec fn is_speech(self) -> bool {
        self.state != VadState::Idle
    }
}

/// Voice-activity detector that reports a state for display.
pub struct VadIndicator {
    state: VadState,
    start_threshold: u32,
    end_threshold: u32,
    hangover_duration_ms: u64,
    hangover_start_time: u64,
    last_rms: u32,
    clock: MonotonicClock,
}

/// The indicator under the name of its use as a gate.
pub type VadGate = VadIndicator;

impl View for VadIndicator {
    type V = VadModel;

    closed spec fn view(&self) -> VadModel {
        VadModel {
            state: self.state,
            start_threshold: self.start_threshold,
            end_threshold: self.end_threshold,
            hangover_duration_ms: self.hangover_duration_ms,
            hangover_start_time: self.hangover_start_time,
            last_rms: self.last_rms,
        }
    }
}

impl VadIndicator {
    /// Creates an idle indicator and starts its clock.
    pub fn new() -> (indicator: Self)
        ensures
            indicator@ == VadModel::initial(),
    {
        VadIndicator {
            state: VadState::Idle,
            start_threshold: VAD_START_RMS,
            end_threshold: VAD_END_RMS,
            hangover_duration_ms: VAD_HANGOVER_MS,
            hangover_start_time: 0,
            last_rms: 0,
            clock: MonotonicClock::start(),
        }
    }

    /// Takes in one chunk, which arrives now, and returns what to show.
    /// Whatever the clock reads, the result is that of [`Self::update_at`]
    /// for some time.
    pub fn update(&mut self, chunk: &[i16]) -> (state: VadState)
        ensures
            exists|now: u64| final(self)@ == #[trigger] old(self)@.update(chunk@, now),
            state == final(self)@.state,
    {
        let now: u64 = self.clock.now();
        self.update_at(chunk, now)
    }

    /// Takes in one chunk, which arrives at time `now` in nanoseconds on
    /// the indicator's clock, and returns what to show.
    pub fn update_at(&mut self, chunk: &[i16], now: u64) -> (state: VadState)
        ensures
            final(self)@ == old(self)@.update(chunk@, now),
            state == final(self)@.state,
    {
        let level: Level = Level::measure(chunk, VAD_LEVEL_STRIDE);
        proof {
            lemma_rms_floor_bound(chunk@, VAD_LEVEL_STRIDE as nat);
        }
        self.last_rms = level.rms_floor() as u32;
        match self.state {
            VadState::Idle => {
                if level.above(self.start_threshold) {
                    self.state = VadState::Speech;
                }
            },
            VadState::Speech => {
                if !level.at_least(self.end_threshold) {
                    self.state = VadState::Hangover;
                    self.hangover_start_time = now;
                }
            },
            VadState::Hangover => {
                if level.above(self.start_threshold) {
                    self.state = VadState::Speech;
                } else if longer_than(now, self.hangover_start_time, self.hangover_duration_ms) {
                    self.state = VadState::Idle;
                }
            },
        }
        self.state
    }

    /// Whether the indicator shows speech or its hangover.
    pub fn is_speech(&self) -> (r: bool)
        ensures
            r == self@.is_speech(),
    {
        match self.state {
            VadState::Idle => false,
            _ => true,
        }
    }

    /// Level of the last chunk, rounded down.
    pub fn last_rms(&self) -> (rms: u32)
        ensures
            rms == self@.last_rms,
    {
        self.last_rms
    }

    /// Shows idle again. Thresholds and the last level stay.
    pub fn reset(&mut self)
        ensures
            final(self)@ == (VadModel { state: VadState::Idle, ..old(self)@ }),
    {
        self.state = VadState::Idle;
    }

    /// Gates a chunk by the indicator: the chunk comes back while speech or
    /// its hangover is shown, nothing while idle. Whatever the clock reads,
    /// the result is that of [`Self::process_at`] for some time.
    pub fn process(&mut self, chunk: Vec<i16>) -> (passed: Vec<Vec<i16>>)
        ensures
            exists|now: u64| final(self)@ == #[trigger] old(self)@.update(chunk@, now),
            final(self)@.is_speech() ==> passed@.len() == 1 && passed@[0]@ == chunk@,
            !final(self)@.is_speech() ==> passed@.len() == 0,
    {
        let now: u64 = self.clock.now();
        self.process_at(chunk, now)
    }

    /// Gates a chunk that arrives at time `now`.
    pub fn process_at(&mut self, chunk: Vec<i16>, now: u64) -> (passed: Vec<Vec<i16>>)
        ensures
            final(self)@ == old(self)@.update(chunk@, now),
            final(self)@.is_speech() ==> passed@.len() == 1 && passed@[0]@ == chunk@,
            !final(self)@.is_speech() ==> passed@.len() == 0,
    {
        let state: VadState = self.update_at(chunk.as_slice(), now);
        let mut passed: Vec<Vec<i16>> = Vec::new();
        match state {
            VadState::Idle => {},
            _ => {
                passed.push(chunk);
            },
        }
        passed
    }
}

} // verus!
