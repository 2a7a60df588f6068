//! The state of a repeating timer.
use vstd::prelude::*;

verus! {

/// A timer that calls back every `interval` milliseconds until it is
/// cleared. This is its state; whoever drives the timer calls back, sleeps,
/// and asks after each round whether to go on.
#[derive(Clone, Copy, Debug)]
pub struct Interval {
    started: bool,
    interval: u32,
}

impl Interval {
    /// Whether the timer is still running.
    pub closed spec fn is_started(&self) -> bool {
        self.started
    }

    /// The time between two callbacks, in milliseconds.
    pub closed spec fn period(&self) -> u32 {
        self.interval
    }

    /// A running timer with the given period in milliseconds.
    pub fn new(interval: u32) -> (timer: Interval)
        ensures
            timer.is_started(),
            timer.period() == interval,
    {
        Interval { started: true, interval }
    }

    /// The time between two callbacks, in milliseconds.
    pub fn interval(&self) -> (interval: u32)
        ensures
            interval == self.period(),
    {
        self.interval
    }

    /// Whether the timer goes on for another round.
    pub fn running(&self) -> (running: bool)
        ensures
            running == self.is_started(),
    {
        self.started
    }

    /// Stops the timer: the round in progress is its last.
    pub fn clear(&mut self)
        ensures
            !final(self).is_started(),
            final(self).period() == old(self).period(),
    {
        self.started = false;
    }
}

} // verus!
