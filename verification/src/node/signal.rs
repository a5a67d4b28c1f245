//! The signals that wake a node's shipping loops: a fixed period, or never.

use vstd::prelude::*;

use core::time::Duration;

verus! {

/// A signal that fires once the given time has passed.
#[derive(Clone, Copy)]
pub struct TimedSignal {
    duration: Duration,
}

impl TimedSignal {
    pub fn new(duration: Duration) -> (res: Self)
        ensures
            res.period() == duration,
    {
        Self { duration }
    }

    pub closed spec fn period(&self) -> Duration {
        self.duration
    }

    /// How long the signal waits before it fires.
    pub fn duration(&self) -> (res: Duration)
        ensures
            res == self.period(),
    {
        self.duration
    }
}

/// A signal that never fires.
#[derive(Clone, Copy)]
pub struct Never;

} // verus!
