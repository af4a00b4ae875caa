//! A stopwatch that can be paused.

use vstd::prelude::*;
use crate::fixed::{fx_add, Fixed};

verus! {

/// The view of a [`Stopwatch`]: the time it has counted, and whether it is
/// paused.
pub struct StopwatchModel {
    pub elapsed: int,
    pub paused: bool,
}

/// Counts the time that passes while it is not paused, in seconds.
#[derive(Clone, Copy, Debug, PartialEq, Eq, Structural)]
pub struct Stopwatch {
    elapsed: Fixed,
    paused: bool,
}

impl View for Stopwatch {
    type V = StopwatchModel;

    closed spec fn view(&self) -> StopwatchModel {
        StopwatchModel { elapsed: self.elapsed@, paused: self.paused }
    }
}

impl Default for Stopwatch {
    fn default() -> (r: Stopwatch)
        ensures
            r@ == (StopwatchModel { elapsed: 0, paused: false }),
    {
        Stopwatch { elapsed: Fixed::zero(), paused: false }
    }
}

/// A stopwatch after `delta` has passed: a paused one stays as it is.
pub open spec fn ticked(s: StopwatchModel, delta: int) -> StopwatchModel {
    if s.paused {
        s
    } else {
        StopwatchModel { elapsed: fx_add(s.elapsed, delta), ..s }
    }
}

impl Stopwatch {
    /// A running stopwatch that has counted nothing yet.
    pub fn new() -> (r: Stopwatch)
        ensures
            r@ == (StopwatchModel { elapsed: 0, paused: false }),
    {
        Stopwatch { elapsed: Fixed::zero(), paused: false }
    }

    /// The time counted so far.
    pub fn elapsed_secs(&self) -> (r: Fixed)
        ensures
            r@ == self@.elapsed,
    {
        self.elapsed
    }

    pub fn paused(&self) -> (r: bool)
        ensures
            r == self@.paused,
    {
        self.paused
    }

    /// Adds `delta` to the time counted, unless the stopwatch is paused.
    pub fn tick(&mut self, delta: Fixed)
        ensures
            final(self)@ == ticked(old(self)@, delta@),
    {
        if !self.paused {
            self.elapsed = self.elapsed.add(delta);
        }
    }

    pub fn pause(&mut self)
        ensures
            final(self)@ == (StopwatchModel { paused: true, ..old(self)@ }),
    {
        self.paused = true;
    }

    pub fn unpause(&mut self)
        ensures
            final(self)@ == (StopwatchModel { paused: false, ..old(self)@ }),
    {
        self.paused = false;
    }

    /// Sets the time counted back to zero.
    pub fn reset(&mut self)
        ensures
            final(self)@ == (StopwatchModel { elapsed: 0, ..old(self)@ }),
    {
        self.elapsed = Fixed::zero();
    }
}

} // verus!
