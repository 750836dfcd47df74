//! The delay and sound timers: simple counters that decrement once per
//! machine cycle while non-zero.

use vstd::prelude::*;

verus! {

/// The value a timer holds after one cycle's tick: one less when it was
/// non-zero, still zero otherwise (a timer never underflows).
pub open spec fn spec_tick(t: usize) -> usize {
    if t > 0 {
        (t - 1) as usize
    } else {
        0
    }
}

/// A countdown timer. A non-zero sound timer is the machine's sole audio
/// signal; the delay timer is read and written by programs.
pub struct EmuTimer {
    pub time_left: usize,
}

impl EmuTimer {
    pub fn new(time_left: usize) -> (t: EmuTimer)
        ensures
            t.time_left == time_left,
    {
        EmuTimer { time_left }
    }

    pub fn get_time_left(&self) -> (r: usize)
        ensures
            r == self.time_left,
    {
        self.time_left
    }

    pub fn set_time_left(&mut self, time_left: usize)
        ensures
            final(self).time_left == time_left,
    {
        self.time_left = time_left;
    }

    /// One cycle's tick.
    pub fn decr_time_left(&mut self)
        ensures
            final(self).time_left == spec_tick(old(self).time_left),
    {
        if self.time_left > 0 {
            self.time_left = self.time_left - 1;
        }
    }

    pub fn incr_time_left(&mut self)
        requires
            old(self).time_left < usize::MAX,
        ensures
            final(self).time_left == old(self).time_left + 1,
    {
        self.time_left = self.time_left + 1;
    }
}

} // verus!
