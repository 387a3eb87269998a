//! Which state may follow which. What to do is decided elsewhere.

use crate::domain::state::RobotState;
use vstd::prelude::*;

verus! {

/// Whether the robot may go from `from` to `to`.
///
/// Staying is always legal, and nothing leaves `SettlementWait`. From anywhere else
/// the time red line leads to `SettlementWait` and the circuit breaker to
/// `CircuitBreaker`, from where every working state can be resumed. The working
/// states follow one another: `Building`, `Pairing`, `DynamicHedge`, `EvHedge`, with
/// a short cut from `Pairing` to `EvHedge`.
pub open spec fn legal(from: RobotState, to: RobotState) -> bool {
    ||| from == to
    ||| from != RobotState::SettlementWait && (to == RobotState::SettlementWait || to
        == RobotState::CircuitBreaker)
    ||| from == RobotState::CircuitBreaker
    ||| from == RobotState::Building && to == RobotState::Pairing
    ||| from == RobotState::Pairing && (to is DynamicHedge || to == RobotState::EvHedge)
    ||| from is DynamicHedge && to == RobotState::EvHedge
}

/// Tells whether the robot may go from `from` to `to`.
pub fn is_legal_transition(from: RobotState, to: RobotState) -> (r: bool)
    ensures
        r == legal(from, to),
{
    if from == to {
        return true;
    }
    if from.is_terminal() {
        return false;
    }
    if to == RobotState::SettlementWait {
        return true;
    }
    if to == RobotState::CircuitBreaker {
        return from != RobotState::CircuitBreaker;
    }
    match (from, to) {
        (RobotState::Building, RobotState::Pairing) => true,
        (RobotState::Pairing, RobotState::DynamicHedge { .. }) => true,
        (RobotState::DynamicHedge { .. }, RobotState::EvHedge) => true,
        (RobotState::Pairing, RobotState::EvHedge) => true,
        (RobotState::CircuitBreaker, RobotState::Building) => true,
        (RobotState::CircuitBreaker, RobotState::Pairing) => true,
        (RobotState::CircuitBreaker, RobotState::DynamicHedge { .. }) => true,
        (RobotState::CircuitBreaker, RobotState::EvHedge) => true,
        _ => false,
    }
}

/// Remembers the current state and moves along legal transitions only.
#[derive(Debug, Clone)]
pub struct StateMachine {
    state: RobotState,
}

impl StateMachine {
    /// The current state.
    pub closed spec fn current(&self) -> RobotState {
        self.state
    }

    /// A machine in `Building`.
    pub fn new() -> (r: Self)
        ensures
            r.current() == RobotState::Building,
    {
        Self { state: RobotState::Building }
    }

    /// The current state.
    pub fn state(&self) -> (r: RobotState)
        ensures
            r == self.current(),
    {
        self.state
    }

    /// Moves to `to` and returns true if that is legal; otherwise stays.
    pub fn transition_to(&mut self, to: RobotState) -> (r: bool)
        ensures
            r == legal(old(self).current(), to),
            final(self).current() == (if r {
                to
            } else {
                old(self).current()
            }),
    {
        if is_legal_transition(self.state, to) {
            self.state = to;
            true
        } else {
            false
        }
    }
}

impl Default for StateMachine {
    fn default() -> (r: Self)
        ensures
            r.current() == RobotState::Building,
    {
        Self::new()
    }
}

/// Nothing leaves the waiting for settlement.
pub proof fn settlement_has_no_exit(to: RobotState)
    ensures
        legal(RobotState::SettlementWait, to) <==> to == RobotState::SettlementWait,
{
}

/// The time red line can strike in every state.
pub proof fn settlement_is_always_reachable(from: RobotState)
    ensures
        legal(from, RobotState::SettlementWait),
{
}

/// The circuit breaker can open in every state but the last, and leads back to any.
pub proof fn circuit_breaker_opens_and_resumes(from: RobotState, to: RobotState)
    ensures
        legal(from, RobotState::CircuitBreaker) <==> from != RobotState::SettlementWait,
        legal(RobotState::CircuitBreaker, to),
{
}

/// The place of a working state; the other two have none.
pub open spec fn stage(state: RobotState) -> Option<nat> {
    match state {
        RobotState::Building => Some(0),
        RobotState::Pairing => Some(1),
        RobotState::DynamicHedge { .. } => Some(2),
        RobotState::EvHedge => Some(3),
        _ => None,
    }
}

/// Between working states a legal move never goes back, and building is only left
/// for pairing.
pub proof fn working_states_never_go_back(from: RobotState, to: RobotState)
    requires
        stage(from) is Some,
        stage(to) is Some,
        legal(from, to),
    ensures
        stage(from)->0 <= stage(to)->0,
        from == RobotState::Building ==> stage(to)->0 <= 1,
{
}

/// Between working states a move is legal if and only if it stays, goes one stage on, or
/// goes from pairing straight to the expected-value hedge.
pub proof fn working_states_go_stage_by_stage(from: RobotState, to: RobotState)
    requires
        stage(from) is Some,
        stage(to) is Some,
    ensures
        legal(from, to) <==> from == to || stage(to)->0 == stage(from)->0 + 1 || from
            == RobotState::Pairing && to == RobotState::EvHedge,
{
}

} // verus!
