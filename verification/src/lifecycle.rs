//! Start and stop of a capture controller.
//!
//! The controller's thread performs what a plan lists: it opens or releases
//! the source and spawns or joins the worker. Here is decided what each
//! request amounts to in each state.

use vstd::prelude::*;
use crate::error::CaptureError;

verus! {

/// What a controller owns at the moment.
#[derive(Debug, Clone, Copy, PartialEq, Eq, Structural)]
pub struct Lifecycle {
    /// Whether a worker is running.
    pub running: bool,
    /// Whether the source is open.
    pub source_open: bool,
}

/// What the controller has to do to start.
#[derive(Debug, Clone, Copy, PartialEq, Eq, Structural)]
pub struct StartPlan {
    /// Whether the source must be opened first.
    pub open_source: bool,
}

/// What the controller has to do to stop.
#[derive(Debug, Clone, Copy, PartialEq, Eq, Structural)]
pub struct StopPlan {
    /// Whether a worker must be told to end and joined.
    pub join_worker: bool,
    /// Whether the source must be released.
    pub release_source: bool,
}

impl Lifecycle {
    /// The state after a successful start.
    pub open spec fn spec_started(self) -> Lifecycle {
        Lifecycle { running: true, source_open: true }
    }

    /// The state after a stop.
    pub open spec fn spec_stopped(self) -> Lifecycle {
        Lifecycle { running: false, source_open: false }
    }

    /// The plan of a stop in this state.
    pub open spec fn stop_plan(self) -> StopPlan {
        StopPlan { join_worker: self.running, release_source: self.source_open }
    }

    /// The plan of a start in this state, if a start is possible.
    pub open spec fn start_plan(self) -> Result<StartPlan, CaptureError> {
        if self.running {
            Err(CaptureError::AlreadyRunning)
        } else {
            Ok(StartPlan { open_source: !self.source_open })
        }
    }

    /// A controller that opens its source at its first start.
    pub fn deferred() -> (lifecycle: Self)
        ensures
            lifecycle == (Lifecycle { running: false, source_open: false }),
    {
        Lifecycle { running: false, source_open: false }
    }

    /// A controller whose source was opened at construction.
    pub fn with_open_source() -> (lifecycle: Self)
        ensures
            lifecycle == (Lifecycle { running: false, source_open: true }),
    {
        Lifecycle { running: false, source_open: true }
    }

    /// Plans a start: a running controller refuses, a stopped one opens its
    /// source unless it is open. The state changes only with
    /// [`Self::started`], once the plan was carried out.
    pub fn begin_start(&self) -> (plan: Result<StartPlan, CaptureError>)
        ensures
            plan == self.start_plan(),
    {
        if self.running {
            Err(CaptureError::AlreadyRunning)
        } else {
            Ok(StartPlan { open_source: !self.source_open })
        }
    }

    /// Records that the source is open and a worker runs.
    pub fn started(&mut self)
        ensures
            *final(self) == old(self).spec_started(),
    {
        self.running = true;
        self.source_open = true;
    }

    /// Stops: the plan names what there is to join and to release, and the
    /// controller owns neither afterwards.
    pub fn stop(&mut self) -> (plan: StopPlan)
        ensures
            plan == old(self).stop_plan(),
            *final(self) == old(self).spec_stopped(),
    {
        let plan = StopPlan { join_worker: self.running, release_source: self.source_open };
        self.running = false;
        self.source_open = false;
        plan
    }

    /// Whether a worker is running.
    pub fn is_running(&self) -> (r: bool)
        ensures
            r == self.running,
    {
        self.running
    }
}

/// Lifecycle idempotence: a second stop finds nothing to join and nothing
/// to release and leaves the state as the first stop left it, and a start
/// after a stop is accepted, opens the source anew and ends with a worker
/// running.
pub proof fn lemma_lifecycle_idempotence(state: Lifecycle)
    ensures
        state.spec_stopped().stop_plan() == (StopPlan {
            join_worker: false,
            release_source: false,
        }),
        state.spec_stopped().spec_stopped() == state.spec_stopped(),
        state.spec_stopped().start_plan() == Ok::<StartPlan, CaptureError>(
            StartPlan { open_source: true },
        ),
        state.spec_stopped().spec_started().running,
        state.spec_stopped().spec_started().source_open,
{
}

} // verus!
