//! The states of the hedging robot.

use vstd::prelude::*;

verus! {

/// A state of the robot. Priority, from high to low: the time red line, the circuit
/// breaker, the expected-value hedge, the dynamic hedge, building and pairing.
#[derive(Debug, Clone, Copy, PartialEq, Eq, Structural)]
pub enum RobotState {
    /// A ladder of three bids on the main side, waiting for the first fill.
    Building,
    /// After the first fill: each fill of the main side recomputes its pair.
    Pairing,
    /// Maker bids fill up the side that holds less. Carries how often both
    /// settlements had turned negative when the state was entered.
    DynamicHedge { double_negative_count: u8 },
    /// Takes the side that is winning.
    EvHedge,
    /// The spread collapsed: everything is cancelled until it recovers.
    CircuitBreaker,
    /// Nothing more is done; the position waits for settlement.
    SettlementWait,
}

impl RobotState {
    /// Tells how often both settlements had turned negative, 0 outside the dynamic hedge.
    pub fn double_negative_count(self) -> (r: u8)
        ensures
            r == (match self {
                RobotState::DynamicHedge { double_negative_count } => double_negative_count,
                _ => 0,
            }),
    {
        match self {
            RobotState::DynamicHedge { double_negative_count } => double_negative_count,
            _ => 0,
        }
    }

    /// Tells whether no state comes after this one.
    pub fn is_terminal(self) -> (r: bool)
        ensures
            r == (self == RobotState::SettlementWait),
    {
        matches!(self, RobotState::SettlementWait)
    }
}

impl Default for RobotState {
    fn default() -> (r: Self)
        ensures
            r == RobotState::Building,
    {
        RobotState::Building
    }
}

} // verus!
