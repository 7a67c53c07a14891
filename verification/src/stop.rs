//! The shared stop signal through which pause, cancel, and failure unwind
//! parallel segment workers.

use vstd::prelude::*;

verus! {

/// What a worker finds when it polls for a reason to stop. The first
/// non-`Clear` writer wins; later writes change nothing.
#[derive(Debug, Clone, Copy, PartialEq, Eq, Structural)]
pub enum StopSignal {
    Clear,
    Paused,
    Canceled,
    Failed,
}

/// The position of a signal in the total order
/// `Clear < Paused < Canceled < Failed`.
pub open spec fn spec_stop_rank(s: StopSignal) -> int {
    match s {
        StopSignal::Clear => 0,
        StopSignal::Paused => 1,
        StopSignal::Canceled => 2,
        StopSignal::Failed => 3,
    }
}

impl StopSignal {
    /// Whether a worker must stop.
    pub fn is_set(&self) -> (r: bool)
        ensures
            r == (*self != StopSignal::Clear),
    {
        match self {
            StopSignal::Clear => false,
            _ => true,
        }
    }

    /// Write `requested` into the signal: only an upgrade from `Clear`
    /// takes effect, so the first writer wins and the rank never falls.
    pub fn upgrade(&mut self, requested: StopSignal)
        ensures
            *final(self) == if *old(self) == StopSignal::Clear {
                requested
            } else {
                *old(self)
            },
            spec_stop_rank(*final(self)) >= spec_stop_rank(*old(self)),
    {
        if let StopSignal::Clear = self {
            *self = requested;
        }
    }
}

/// The first writer wins: once a signal is set, no later upgrade moves it.
pub proof fn law_stop_first_writer(first: StopSignal, later: StopSignal)
    requires
        first != StopSignal::Clear,
    ensures
        (if first == StopSignal::Clear {
            later
        } else {
            first
        }) == first,
{
}

} // verus!
