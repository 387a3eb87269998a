//! What the robot remembers across its states during one match.

use crate::domain::state::RobotState;
use crate::domain::types::Side;
use crate::exchange::clock::Millis;
use vstd::prelude::*;

verus! {

/// The memory of one match.
#[derive(Debug, Clone, Copy, PartialEq, Eq, Structural)]
pub struct RoundState {
    pub state: RobotState,
    /// The side of the first fill; it stays for the whole match.
    pub main_field: Option<Side>,
    /// Whether the main side takes no more bids for the rest of the match.
    pub main_field_frozen: bool,
    /// When the latest hedge was sent.
    pub last_hedge_at: Option<Millis>,
    /// Whether the dynamic pool ran out; it stays so for the rest of the match.
    pub funds_exhausted: bool,
    /// How often both settlements turned negative.
    pub double_negative_count: u8,
    /// Whether both settlements were negative at the previous decision.
    pub was_double_negative: bool,
    /// Since when the spreads have been calm, while the circuit breaker is open.
    pub calm_since: Option<Millis>,
}

/// The memory at the start of a match.
pub open spec fn fresh_round() -> RoundState {
    RoundState {
        state: RobotState::Building,
        main_field: None,
        main_field_frozen: false,
        last_hedge_at: None,
        funds_exhausted: false,
        double_negative_count: 0,
        was_double_negative: false,
        calm_since: None,
    }
}

impl RoundState {
    /// The memory after a fill of `side`.
    pub open spec fn locked(self, side: Side) -> RoundState {
        RoundState {
            main_field: if self.main_field is None {
                Some(side)
            } else {
                self.main_field
            },
            ..self
        }
    }

    /// The memory after the spreads were seen to be calm or not.
    pub open spec fn calmed(self, is_calm: bool, now: Millis) -> RoundState {
        RoundState {
            calm_since: if !is_calm {
                None
            } else if self.calm_since is None {
                Some(now)
            } else {
                self.calm_since
            },
            ..self
        }
    }

    /// The memory at the start of a match.
    pub fn new() -> (r: Self)
        ensures
            r == fresh_round(),
    {
        Self {
            state: RobotState::Building,
            main_field: None,
            main_field_frozen: false,
            last_hedge_at: None,
            funds_exhausted: false,
            double_negative_count: 0,
            was_double_negative: false,
            calm_since: None,
        }
    }

    /// Makes `side` the main side, unless there is one already.
    pub fn lock_main_field(&mut self, side: Side)
        ensures
            *final(self) == old(self).locked(side),
    {
        if self.main_field.is_none() {
            self.main_field = Some(side);
        }
    }

    /// Stops bids on the main side for good.
    pub fn freeze_main_field(&mut self)
        ensures
            *final(self) == (RoundState { main_field_frozen: true, ..*old(self) }),
    {
        self.main_field_frozen = true;
    }

    /// Notes for good that the funds ran out.
    pub fn mark_funds_exhausted(&mut self)
        ensures
            *final(self) == (RoundState { funds_exhausted: true, ..*old(self) }),
    {
        self.funds_exhausted = true;
    }

    /// Notes when a hedge was sent.
    pub fn record_hedge_at(&mut self, now: Millis)
        ensures
            *final(self) == (RoundState { last_hedge_at: Some(now), ..*old(self) }),
    {
        self.last_hedge_at = Some(now);
    }

    /// Notes the count of double negatives and whether there is one now.
    pub fn update_double_negative(&mut self, count: u8, was: bool)
        ensures
            *final(self) == (RoundState {
                double_negative_count: count,
                was_double_negative: was,
                ..*old(self)
            }),
    {
        self.double_negative_count = count;
        self.was_double_negative = was;
    }

    /// Notes whether the spreads are calm: the first calm moment is kept until they
    /// are not.
    pub fn update_calm(&mut self, is_calm: bool, now: Millis)
        ensures
            *final(self) == old(self).calmed(is_calm, now),
    {
        if is_calm {
            if self.calm_since.is_none() {
                self.calm_since = Some(now);
            }
        } else {
            self.calm_since = None;
        }
    }
}

impl Default for RoundState {
    fn default() -> (r: Self)
        ensures
            r == fresh_round(),
    {
        Self::new()
    }
}

/// The main side is locked once: whatever is filled later, the first side stays.
pub proof fn main_field_is_locked_once(round: RoundState, first: Side, later: Side)
    ensures
        round.locked(first).main_field is Some,
        round.locked(first).locked(later) == round.locked(first),
{
}

/// While the spreads stay calm, the first calm moment is kept.
pub proof fn calm_start_is_held(round: RoundState, first: Millis, later: Millis)
    ensures
        round.calmed(true, first).calm_since is Some,
        round.calmed(true, first).calmed(true, later) == round.calmed(true, first),
        round.calmed(false, first).calm_since is None,
{
}

} // verus!
