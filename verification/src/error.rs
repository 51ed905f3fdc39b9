//! Errors that the capture core reports itself.

use vstd::prelude::*;

verus! {

/// Why the core refused a request.
#[derive(Debug, Clone, Copy, PartialEq, Eq, Structural)]
pub enum CaptureError {
    /// No system-audio backend exists for this platform.
    UnsupportedPlatform,
    /// A source reported a sample rate of zero.
    InvalidSampleRate,
    /// A controller that is running was asked to start.
    AlreadyRunning,
}

impl CaptureError {
    /// The text of the error.
    pub open spec fn spec_message(self) -> Seq<char> {
        match self {
            CaptureError::UnsupportedPlatform => "Unsupported platform"@,
            CaptureError::InvalidSampleRate => "Invalid sample rate"@,
            CaptureError::AlreadyRunning => "Capture is already running"@,
        }
    }

    /// The text of the error, for display.
    pub fn message(&self) -> (text: String)
        ensures
            text@ == self.spec_message(),
    {
        match self {
            CaptureError::UnsupportedPlatform => "Unsupported platform".to_owned(),
            CaptureError::InvalidSampleRate => "Invalid sample rate".to_owned(),
            CaptureError::AlreadyRunning => "Capture is already running".to_owned(),
        }
    }
}

} // verus!
