//! Admission control: how many tasks may run at once.

use vstd::prelude::*;

verus! {

/// The scheduler is a single cap on the number of active tasks.
#[derive(Debug, Clone, Copy, PartialEq, Eq, Structural)]
pub struct Scheduler {
    pub max_active: usize,
}

impl Scheduler {
    pub fn new(max_active: usize) -> (s: Scheduler)
        ensures
            s.max_active == max_active,
    {
        Scheduler { max_active }
    }

    /// Admission predicate: a further task may start only while the active
    /// count is below the cap.
    pub fn can_start(&self, active_count: usize) -> (r: bool)
        ensures
            r == (active_count < self.max_active),
    {
        active_count < self.max_active
    }
}

} // verus!
