//! The status that a system service reports to the service manager.
use vstd::prelude::*;

verus! {

/// The states a service reports.
#[derive(Clone, Copy, Debug, PartialEq, Eq, Structural)]
pub enum ServicePhase {
    StartPending,
    Running,
    StopPending,
    Stopped,
}

/// One status report: the state, whether a stop request is accepted, and
/// the progress checkpoint.
#[derive(Clone, Copy, Debug, PartialEq, Eq, Structural)]
pub struct StatusReport {
    pub phase: ServicePhase,
    pub accepts_stop: bool,
    pub checkpoint: u32,
}

/// Counts the checkpoints of pending states and remembers whether the
/// service reported that it stopped.
#[derive(Clone, Copy, Debug, PartialEq, Eq, Structural)]
pub struct ServiceStatusTracker {
    pub checkpoint: u32,
    pub stopped_reported: bool,
}

/// Whether a state is one of the pending ones.
pub open spec fn is_pending(phase: ServicePhase) -> bool {
    phase == ServicePhase::StartPending || phase == ServicePhase::StopPending
}

impl ServiceStatusTracker {
    pub fn new() -> (r: ServiceStatusTracker)
        ensures
            r == (ServiceStatusTracker { checkpoint: 0, stopped_reported: false }),
    {
        ServiceStatusTracker { checkpoint: 0, stopped_reported: false }
    }

    /// The report for `phase`: only a running service accepts a stop
    /// request; a pending state advances the checkpoint, any other state
    /// resets it.
    pub fn report(&mut self, phase: ServicePhase) -> (r: StatusReport)
        requires
            is_pending(phase) ==> old(self).checkpoint < u32::MAX,
        ensures
            final(self).checkpoint == if is_pending(phase) { (old(self).checkpoint + 1) as u32 } else { 0 },
            final(self).stopped_reported == (old(self).stopped_reported || phase == ServicePhase::Stopped),
            r == (StatusReport {
                phase,
                accepts_stop: phase == ServicePhase::Running,
                checkpoint: final(self).checkpoint,
            }),
    {
        if phase == ServicePhase::StartPending || phase == ServicePhase::StopPending {
            self.checkpoint = self.checkpoint + 1;
        } else {
            self.checkpoint = 0;
        }
        if phase == ServicePhase::Stopped {
            self.stopped_reported = true;
        }
        StatusReport { phase, accepts_stop: phase == ServicePhase::Running, checkpoint: self.checkpoint }
    }

    /// Whether a final `Stopped` report is still owed.
    pub fn must_report_stop(&self) -> (b: bool)
        ensures
            b == !self.stopped_reported,
    {
        !self.stopped_reported
    }
}

} // verus!
