//! Transitions: timed crossfades from the pose of one state to the pose of another.
use vstd::prelude::*;

verus! {

/// A crossfade of `duration` nanoseconds from state slot `from` to state slot `to`.
/// The weight of the destination pose is `seek / duration`, that of the source the rest.
#[derive(Clone, Copy, Debug)]
pub struct Transition {
    pub duration: u64,
    pub seek: u64,
    pub from: usize,
    pub to: usize,
    pub started: bool,
}

impl Transition {
    pub fn new(duration: u64, from: usize, to: usize) -> (r: Transition)
        ensures
            r == (Transition { duration, seek: 0, from, to, started: false }),
    {
        Transition { duration, seek: 0, from, to, started: false }
    }

    /// Time after `dt` more nanoseconds, held at the largest representable value.
    pub open spec fn seek_after(self, dt: u64) -> u64 {
        if self.seek as int + dt as int > u64::MAX as int { u64::MAX } else { (self.seek + dt) as u64 }
    }

    /// Adds `dt` to the running time and reports whether the crossfade is complete.
    pub fn advance(&mut self, dt: u64) -> (complete: bool)
        ensures
            *final(self) == (Transition { seek: old(self).seek_after(dt), started: true, ..*old(self) }),
            complete == (old(self).seek_after(dt) >= old(self).duration),
    {
        self.seek = self.seek.saturating_add(dt);
        self.started = true;
        self.seek >= self.duration
    }

    /// Makes the transition ready to be traversed again.
    pub fn reset(&mut self)
        ensures
            *final(self) == (Transition { seek: 0, started: false, ..*old(self) }),
    {
        self.seek = 0;
        self.started = false;
    }

    /// The weight of the destination pose as the fraction `(min(seek, duration), duration)`;
    /// the source pose weighs the complement.
    pub fn blend_ratio(&self) -> (r: (u64, u64))
        ensures
            r.1 == self.duration,
            r.0 == (if self.seek <= self.duration { self.seek } else { self.duration }),
    {
        if self.seek <= self.duration {
            (self.seek, self.duration)
        } else {
            (self.duration, self.duration)
        }
    }
}

} // verus!
