//! Verified core of a real-time audio capture pipeline for streaming
//! speech recognition.
//!
//! Samples enter as 16-bit PCM at the rate of the capture device, are
//! converted to 16 kHz by a streaming linear resampler, cut into 20 ms
//! frames and gated by a silence suppressor that replaces long silence with
//! sparse keep-alive frames.

pub mod audio_config;
pub mod clock;
pub mod devices;
pub mod error;
pub mod frame_assembler;
pub mod level;
pub mod lifecycle;
pub mod overflow;
pub mod pipeline;
pub mod ring;
pub mod silence_suppression;
pub mod speaker;
pub mod streaming_resampler;
pub mod vad;
pub mod wire;
