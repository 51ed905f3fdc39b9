//! System-audio capture: the choice between the two backends, and the
//! source for platforms that have neither.

use vstd::prelude::*;
use crate::error::CaptureError;

verus! {

/// A way to capture what the machine plays.
#[derive(Debug, Clone, Copy, PartialEq, Eq, Structural)]
pub enum Backend {
    /// An audio tap on the output device, through an aggregate device.
    AudioTap,
    /// The audio output of a screen capture.
    ScreenCapture,
}

/// Bytes of one sample as the backends deliver it.
pub const SOURCE_SAMPLE_BYTES: usize = 4;

/// Sample rate that the screen-capture backend is configured for, in Hz.
pub const SCREEN_CAPTURE_SAMPLE_RATE: u32 = 48_000;

/// Whether a caller's device identifier asks for the screen-capture
/// backend.
pub open spec fn forces_screen_capture(device_id: Option<String>) -> bool {
    match device_id {
        Some(id) => id@ == "sck"@,
        None => false,
    }
}

/// The backend to try first: the audio tap, unless the caller's identifier
/// asks for screen capture.
pub fn preferred_backend(device_id: &Option<String>) -> (backend: Backend)
    ensures
        backend == if forces_screen_capture(*device_id) {
            Backend::ScreenCapture
        } else {
            Backend::AudioTap
        },
{
    match device_id {
        Some(id) => {
            let sentinel: String = "sck".to_owned();
            if *id == sentinel {
                Backend::ScreenCapture
            } else {
                Backend::AudioTap
            }
        },
        None => Backend::AudioTap,
    }
}

/// The backend to try after `failed` could not be opened, if one is left.
pub fn fallback_backend(failed: Backend) -> (next: Option<Backend>)
    ensures
        next == match failed {
            Backend::AudioTap => Some(Backend::ScreenCapture),
            Backend::ScreenCapture => None::<Backend>,
        },
{
    match failed {
        Backend::AudioTap => Some(Backend::ScreenCapture),
        Backend::ScreenCapture => None,
    }
}

/// Number of samples in a buffer of `byte_count` bytes, if the buffer
/// holds whole samples and is not empty.
pub fn buffer_samples(byte_count: usize) -> (samples: Option<usize>)
    ensures
        samples == if byte_count > 0 && byte_count % SOURCE_SAMPLE_BYTES == 0 {
            Some(byte_count / SOURCE_SAMPLE_BYTES)
        } else {
            None
        },
{
    if byte_count == 0 || byte_count % SOURCE_SAMPLE_BYTES != 0 {
        None
    } else {
        Some(byte_count / SOURCE_SAMPLE_BYTES)
    }
}

/// The system-audio source of a platform without a backend.
#[derive(Debug)]
pub struct SpeakerInput;

impl SpeakerInput {
    /// There is nothing to open: the platform is not supported.
    pub fn new(device_id: Option<String>) -> (input: Result<Self, CaptureError>)
        ensures
            input is Err,
            input->Err_0 == CaptureError::UnsupportedPlatform,
    {
        Err(CaptureError::UnsupportedPlatform)
    }
}

/// The output devices of a platform without a backend: none.
pub fn list_output_devices() -> (devices: Result<Vec<(String, String)>, CaptureError>)
    ensures
        devices is Ok,
        devices->Ok_0@.len() == 0,
{
    Ok(Vec::new())
}

} // verus!
