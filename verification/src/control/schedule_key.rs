//! Scheduler request key before the runtime assigns the deterministic sequence.

use vstd::prelude::*;

use crate::model::SimulationTime;

verus! {

/// Scheduler request key before the runtime assigns the deterministic sequence.
#[derive(Clone, Copy, Debug, PartialEq, Eq, Structural, PartialOrd, Ord, Hash)]
pub struct WakeupScheduleKey {
    time: SimulationTime,
    phase: u16,
    priority: i32,
}

impl WakeupScheduleKey {
    /// Scheduled simulation time.
    pub closed spec fn spec_time(self) -> SimulationTime {
        self.time
    }

    /// Same-time scheduler phase.
    pub closed spec fn spec_phase(self) -> u16 {
        self.phase
    }

    /// Phase-local priority.
    pub closed spec fn spec_priority(self) -> i32 {
        self.priority
    }

    /// Creates a scheduler key without the runtime-owned sequence.
    pub fn new(time: SimulationTime, phase: u16, priority: i32) -> (r: Self)
        ensures
            r.spec_time() == time,
            r.spec_phase() == phase,
            r.spec_priority() == priority,
    {
        WakeupScheduleKey { time, phase, priority }
    }

    /// Returns the scheduled simulation time.
    pub fn time(self) -> (r: SimulationTime)
        ensures
            r == self.spec_time(),
    {
        self.time
    }

    /// Returns the same-time scheduler phase.
    pub fn phase(self) -> (r: u16)
        ensures
            r == self.spec_phase(),
    {
        self.phase
    }

    /// Returns the phase-local priority.
    pub fn priority(self) -> (r: i32)
        ensures
            r == self.spec_priority(),
    {
        self.priority
    }
}

} // verus!
