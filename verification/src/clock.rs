use crate::storage::{clock_now_nanos, CLOCK_LIMIT_NANOS};
use vstd::prelude::*;

verus! {

/// A record of the readings of the system clock taken through it, oldest
/// first. The record is ghost: it costs nothing at run time, and only
/// `read` adds to it, with the value the clock gave.
pub struct ClockLog {
    readings: Ghost<Seq<u128>>,
}

impl ClockLog {
    /// The readings taken so far, oldest first.
    pub closed spec fn readings(&self) -> Seq<u128> {
        self.readings@
    }

    /// A record with no readings.
    pub fn new() -> (log: Self)
        ensures
            log.readings() == Seq::<u128>::empty(),
    {
        ClockLog { readings: Ghost(Seq::empty()) }
    }

    /// Reads the system clock and records the reading.
    pub fn read(&mut self) -> (t: u128)
        ensures
            t < CLOCK_LIMIT_NANOS,
            final(self).readings() == old(self).readings().push(t),
    {
        let t = clock_now_nanos();
        self.readings = Ghost(self.readings@.push(t));
        t
    }
}

} // verus!
