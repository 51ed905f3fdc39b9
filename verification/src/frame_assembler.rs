//! Cuts a stream of samples into frames of fixed size.

use vstd::prelude::*;
use crate::audio_config::FRAME_SAMPLES;

verus! {

/// Buffer that collects resampled audio and hands it out in whole frames of
/// [`FRAME_SAMPLES`] samples. Its view is the sequence of samples that were
/// appended and not yet handed out.
pub struct FrameAssembler {
    buffer: Vec<i16>,
}

impl View for FrameAssembler {
    type V = Seq<i16>;

    closed spec fn view(&self) -> Seq<i16> {
        self.buffer@
    }
}

impl FrameAssembler {
    /// Creates an empty assembler.
    pub fn new() -> (assembler: Self)
        ensures
            assembler@ == Seq::<i16>::empty(),
    {
        FrameAssembler { buffer: Vec::new() }
    }

    /// Number of samples waiting in the buffer.
    pub fn len(&self) -> (n: usize)
        ensures
            n == self@.len(),
    {
        self.buffer.len()
    }

    /// Whether a whole frame is waiting.
    pub fn has_frame(&self) -> (r: bool)
        ensures
            r == (self@.len() >= FRAME_SAMPLES),
    {
        self.buffer.len() >= FRAME_SAMPLES
    }

    /// Appends `samples` behind what is waiting.
    pub fn extend(&mut self, samples: &[i16])
        ensures
            final(self)@ == old(self)@ + samples@,
    {
        self.buffer.extend_from_slice(samples);
        assert(self.buffer@ =~= old(self).buffer@ + samples@);
    }

    /// Detaches the leading frame if a whole one is waiting; otherwise the
    /// buffer is left as it is.
    pub fn pop_frame(&mut self) -> (frame: Option<Vec<i16>>)
        ensures
            match frame {
                Some(samples) => {
                    &&& old(self)@.len() >= FRAME_SAMPLES
                    &&& samples@ == old(self)@.take(FRAME_SAMPLES as int)
                    &&& final(self)@ == old(self)@.skip(FRAME_SAMPLES as int)
                },
                None => old(self)@.len() < FRAME_SAMPLES && final(self)@ == old(self)@,
            },
    {
        if self.buffer.len() < FRAME_SAMPLES {
            return None;
        }
        let mut frame: Vec<i16> = self.buffer.split_off(FRAME_SAMPLES);
        core::mem::swap(&mut self.buffer, &mut frame);
        Some(frame)
    }
}

} // verus!
