//! The simulation clock: a fixed-period repeating timer, polled by the
//! host with the elapsed milliseconds of each frame. It fires at most one
//! tick per poll, and the remainder of an overlong gap is discarded.
use vstd::prelude::*;

verus! {

/// Milliseconds of the default tick period.
pub const DEFAULT_PERIOD_MS: u64 = 500;

/// A fixed-period polled timer. `elapsed_ms` accumulates the time handed
/// in since the last fired tick and always stays below the period.
pub struct SimClock {
    pub period_ms: u64,
    pub elapsed_ms: u64,
}

impl SimClock {
    pub open spec fn wf(self) -> bool {
        0 < self.period_ms && self.elapsed_ms < self.period_ms
    }

    /// A clock with the default period of half a second.
    pub fn new() -> (c: SimClock)
        ensures
            c.wf(),
            c.period_ms == DEFAULT_PERIOD_MS,
            c.elapsed_ms == 0,
    {
        SimClock { period_ms: DEFAULT_PERIOD_MS, elapsed_ms: 0 }
    }

    /// A clock with the given period.
    pub fn with_period(period_ms: u64) -> (c: SimClock)
        requires
            period_ms > 0,
        ensures
            c.wf(),
            c.period_ms == period_ms,
            c.elapsed_ms == 0,
    {
        SimClock { period_ms, elapsed_ms: 0 }
    }

    /// One poll with `delta_ms` newly elapsed milliseconds. Fires exactly
    /// when a full period has accumulated; on firing the accumulator is
    /// reset to zero, so any surplus beyond one period is discarded and at
    /// most one tick fires per poll. A poll with delta 0 never fires.
    pub fn tick(&mut self, delta_ms: u64) -> (fired: bool)
        requires
            old(self).wf(),
        ensures
            final(self).wf(),
            final(self).period_ms == old(self).period_ms,
            fired == (old(self).elapsed_ms + delta_ms >= old(self).period_ms),
            fired ==> final(self).elapsed_ms == 0,
            !fired ==> final(self).elapsed_ms == old(self).elapsed_ms + delta_ms,
            delta_ms == 0 ==> !fired,
    {
        if delta_ms >= self.period_ms - self.elapsed_ms {
            self.elapsed_ms = 0;
            true
        } else {
            self.elapsed_ms = self.elapsed_ms + delta_ms;
            false
        }
    }
}

} // verus!
