//! Constants shared by the capture pipeline.

use vstd::prelude::*;

verus! {

/// Sample rate of every frame handed to the sink, in Hz.
pub const SAMPLE_RATE: u32 = 16_000;

/// Duration of one frame in milliseconds.
pub const FRAME_MS: u32 = 20;

/// Samples per frame: 20 ms at 16 kHz.
pub const FRAME_SAMPLES: usize = 320;

/// Samples per chunk handed to the sink: one frame.
pub const CHUNK_SAMPLES: usize = FRAME_SAMPLES;

/// Level above which the voice-activity indicator reports the start of speech.
pub const VAD_START_RMS: u32 = 185;

/// Level below which the voice-activity indicator reports the end of speech.
pub const VAD_END_RMS: u32 = 100;

/// Chunks kept before the start of speech by consumers of the indicator.
pub const VAD_PREROLL_CHUNKS: usize = 3;

/// How long the voice-activity indicator lingers after speech, in milliseconds.
pub const VAD_HANGOVER_MS: u64 = 500;

/// Pause of the worker between polls of the ring, in milliseconds.
pub const DSP_POLL_MS: u64 = 1;

/// Upper bound on the samples taken from the ring in one worker tick.
pub const DRAIN_BATCH_SAMPLES: usize = 480;

/// Capacity of the ring between the capture callback and the worker, in samples.
pub const RING_BUFFER_SAMPLES: usize = 32768;

} // verus!
