//! Time, counted from the start of the match.

use vstd::prelude::*;

verus! {

/// Milliseconds since the start of the match.
pub type Millis = u64;

/// A source of time.
pub trait Clock {
    /// The current moment.
    spec fn moment(&self) -> Millis;

    /// Tells the current moment.
    fn now(&self) -> (r: Millis)
        ensures
            r == self.moment(),
    ;
}

/// A clock that is moved by hand, so that every run can be repeated.
#[derive(Debug, Clone)]
pub struct VirtualClock {
    now: Millis,
}

impl VirtualClock {
    pub closed spec fn at(&self) -> Millis {
        self.now
    }

    /// A clock at the start of the match.
    pub fn new() -> (r: Self)
        ensures
            r.at() == 0,
    {
        Self { now: 0 }
    }

    /// Moves to a moment that is not in the past.
    pub fn set(&mut self, now: Millis)
        requires
            now >= old(self).at(),
        ensures
            final(self).at() == now,
    {
        self.now = now;
    }

    /// Moves forward by `delta`.
    pub fn advance(&mut self, delta: Millis)
        requires
            old(self).at() + delta <= u64::MAX,
        ensures
            final(self).at() == old(self).at() + delta,
    {
        self.now += delta;
    }
}

impl Clock for VirtualClock {
    open spec fn moment(&self) -> Millis {
        self.at()
    }

    fn now(&self) -> (r: Millis) {
        self.now
    }
}

impl Default for VirtualClock {
    fn default() -> (r: Self)
        ensures
            r.at() == 0,
    {
        Self::new()
    }
}

} // verus!
