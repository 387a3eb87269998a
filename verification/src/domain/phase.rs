//! The phases of one fifteen-minute match, which only ever move forward.

use vstd::prelude::*;

verus! {

/// A phase of the match.
#[derive(Debug, Clone, Copy, PartialEq, Eq, Structural)]
pub enum Phase {
    /// Lay a base position with maker bids on both sides.
    Building,
    /// Keep buying and taking profit, lot by lot. Losses are not cut: a lot stays on offer
    /// above its cost, or waits for settlement.
    Cycling,
    /// No new bids; keep offering what is held.
    Harvesting,
    /// Nothing more is traded; what is held waits for settlement.
    Settled,
}

impl Phase {
    /// The phase's place in the match; later phases have larger ones.
    pub open spec fn rank(self) -> nat {
        match self {
            Phase::Building => 0,
            Phase::Cycling => 1,
            Phase::Harvesting => 2,
            Phase::Settled => 3,
        }
    }

    fn order(self) -> (r: u8)
        ensures
            r == self.rank(),
    {
        match self {
            Phase::Building => 0,
            Phase::Cycling => 1,
            Phase::Harvesting => 2,
            Phase::Settled => 3,
        }
    }

    /// Tells whether the match may move to `target`: forward, skipping allowed, or
    /// not at all.
    pub fn can_transition_to(self, target: Phase) -> (r: bool)
        ensures
            r == (target.rank() >= self.rank()),
    {
        target.order() >= self.order()
    }

    /// Tells whether no phase comes after this one.
    pub fn is_terminal(self) -> (r: bool)
        ensures
            r == (self == Phase::Settled),
            r == (forall|target: Phase| target.rank() >= self.rank() ==> target == self),
    {
        proof {
            assert(Phase::Settled.rank() >= self.rank());
        }
        matches!(self, Phase::Settled)
    }
}

impl Default for Phase {
    fn default() -> (r: Self)
        ensures
            r == Phase::Building,
    {
        Phase::Building
    }
}

/// Moves that are each allowed lead forward together: if the match moved from `a` to
/// `b` and on to `c`, it may move from `a` to `c`, and back to `a` only if it never left.
pub proof fn phases_never_go_back(a: Phase, b: Phase, c: Phase)
    requires
        b.rank() >= a.rank(),
        c.rank() >= b.rank(),
    ensures
        c.rank() >= a.rank(),
        c == a ==> b == a,
{
}

} // verus!
