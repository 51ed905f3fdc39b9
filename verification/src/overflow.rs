//! Overflow policy of the ring between the capture callback and the worker.
//!
//! The callback never blocks: what does not fit into the ring is dropped.
//! A run of callbacks that each dropped something is counted; a long run
//! means the worker has stalled and ends the capture.

use vstd::prelude::*;

verus! {

/// Length of a run of dropping callbacks from which a warning is due.
pub const DROP_WARNING_RUN: u32 = 25;

/// Length of a run of dropping callbacks beyond which the capture ends.
pub const DROP_FATAL_RUN: u32 = 50;

/// What the callback learns from one push into the ring.
#[derive(Clone, Copy, Debug, PartialEq, Eq, Structural)]
pub enum OverflowSignal {
    /// Everything was accepted.
    Clear,
    /// Samples were dropped; the run is still short.
    Dropped,
    /// Samples were dropped and the run has reached the warning length.
    Warning,
    /// Samples were dropped and the run is longer than the fatal length:
    /// the capture must stop.
    Terminate,
}

/// The state of an overflow monitor.
pub struct OverflowModel {
    /// Length of the current run of callbacks that dropped samples.
    pub consecutive_drops: u32,
    /// Whether the capture was told to stop.
    pub should_terminate: bool,
}

impl OverflowModel {
    /// The run after one more dropping callback; it stays at `u32::MAX`
    /// once there.
    pub open spec fn longer_run(self) -> u32 {
        if self.consecutive_drops < u32::MAX {
            (self.consecutive_drops + 1) as u32
        } else {
            self.consecutive_drops
        }
    }

    /// The signal for a push that offered `offered` samples of which
    /// `accepted` went into the ring.
    pub open spec fn signal(self, offered: usize, accepted: usize) -> OverflowSignal {
        if accepted >= offered {
            OverflowSignal::Clear
        } else if self.longer_run() > DROP_FATAL_RUN {
            OverflowSignal::Terminate
        } else if self.longer_run() >= DROP_WARNING_RUN {
            OverflowSignal::Warning
        } else {
            OverflowSignal::Dropped
        }
    }

    /// The state after that push.
    pub open spec fn record(self, offered: usize, accepted: usize) -> OverflowModel {
        if accepted >= offered {
            OverflowModel { consecutive_drops: 0, ..self }
        } else {
            OverflowModel {
                consecutive_drops: self.longer_run(),
                should_terminate: self.should_terminate || self.longer_run() > DROP_FATAL_RUN,
            }
        }
    }
}

/// Counts consecutive callbacks that lost samples to a full ring.
#[derive(Debug)]
pub struct OverflowMonitor {
    consecutive_drops: u32,
    should_terminate: bool,
}

impl View for OverflowMonitor {
    type V = OverflowModel;

    closed spec fn view(&self) -> OverflowModel {
        OverflowModel {
            consecutive_drops: self.consecutive_drops,
            should_terminate: self.should_terminate,
        }
    }
}

impl OverflowMonitor {
    /// Creates a monitor that has seen no drop.
    pub fn new() -> (monitor: Self)
        ensures
            monitor@ == (OverflowModel { consecutive_drops: 0, should_terminate: false }),
    {
        OverflowMonitor { consecutive_drops: 0, should_terminate: false }
    }

    /// Records one push of `offered` samples of which the ring took
    /// `accepted`, and says what follows from it.
    pub fn record(&mut self, offered: usize, accepted: usize) -> (signal: OverflowSignal)
        ensures
            final(self)@ == old(self)@.record(offered, accepted),
            signal == old(self)@.signal(offered, accepted),
    {
        if accepted >= offered {
            self.consecutive_drops = 0;
            return OverflowSignal::Clear;
        }
        let run: u32 = self.consecutive_drops.saturating_add(1);
        self.consecutive_drops = run;
        if run > DROP_FATAL_RUN {
            self.should_terminate = true;
            OverflowSignal::Terminate
        } else if run >= DROP_WARNING_RUN {
            OverflowSignal::Warning
        } else {
            OverflowSignal::Dropped
        }
    }

    /// Length of the current run of dropping callbacks.
    pub fn consecutive_drops(&self) -> (run: u32)
        ensures
            run == self@.consecutive_drops,
    {
        self.consecutive_drops
    }

    /// Whether the capture was told to stop.
    pub fn should_terminate(&self) -> (r: bool)
        ensures
            r == self@.should_terminate,
    {
        self.should_terminate
    }
}

} // verus!
