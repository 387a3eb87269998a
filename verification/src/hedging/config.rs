//! The parameters of the hedging robot.

use crate::decimal::{dec, Decimal};
use crate::domain::types::Price;
use crate::exchange::clock::Millis;
use vstd::prelude::*;

verus! {

/// One step of a ladder of bids.
#[derive(Debug, Clone, Copy, PartialEq, Eq, Structural)]
pub struct Rung {
    /// How far below the best ask it lies.
    pub price_offset: Price,
    /// Its share of the budget.
    pub step_fraction: Decimal,
}

/// All parameters. Shares and thresholds are relative to the capital unless said
/// otherwise.
#[derive(Debug, Clone, Copy, PartialEq, Eq)]
pub struct StrategyConfig {
    /// The ladder of the building state; shares of the grid pool.
    pub building_rungs: [Rung; 3],
    /// The spread, relative to the bid, above which the circuit breaker opens.
    pub circuit_trigger_ratio: Decimal,
    /// The spread below which a market counts as calm.
    pub circuit_recover_ratio: Decimal,
    /// How long it must stay calm before trading resumes.
    pub circuit_recover_stable: Millis,
    /// The time before settlement at which everything stops.
    pub time_red_line: Millis,
    /// The time before settlement at which the last decision is made.
    pub last_phase_window: Millis,
    /// The loss that calls for a hedge.
    pub loss_trigger: Decimal,
    /// The profit on both sides at which pairing is done.
    pub making_profit_lock: Decimal,
    /// The cost of one side from which its loss counts.
    pub single_side_threshold: Decimal,
    /// The profit on both sides at which the dynamic hedge is done.
    pub dynamic_escape: Decimal,
    /// The loss down to which the dynamic hedge is content.
    pub repair_target: Decimal,
    /// The share of the grid pool in one following bid.
    pub follow_fraction: Decimal,
    /// How far below the lowest bid the next one follows.
    pub follow_offset: Price,
    /// The profit that a pair must leave.
    pub profit_margin: Price,
    /// How far the price of a pair may drift before it is placed anew.
    pub repair_tolerance: Price,
    /// How far from the best ask a bid is given up.
    pub deep_sea_deviation: Price,
    /// The share of what is left of the dynamic pool in one step.
    pub dynamic_step_fraction: Decimal,
    /// The ladder of one step.
    pub dynamic_rungs: [Rung; 3],
    /// The pause between two steps of the dynamic hedge.
    pub dynamic_cooldown: Millis,
    /// The share of what is left of the expected-value pool in one step.
    pub ev_step_fraction: Decimal,
    /// The most that the expected-value hedge pays.
    pub ev_price_cap: Price,
    /// The chance below which the expected-value hedge gives up.
    pub ev_reversal: Price,
    /// The pause between two steps of the expected-value hedge.
    pub ev_cooldown: Millis,
    /// The time before settlement that separates early from late.
    pub ev_entry_window: Millis,
    /// The chances at which it buys early.
    pub ev_sweet_far: (Price, Price),
    /// The chances at which it buys late.
    pub ev_sweet_near: (Price, Price),
}

/// Whether these are the default parameters.
pub open spec fn is_default_config(config: StrategyConfig) -> bool {
    &&& config.building_rungs@ == seq![
        Rung { price_offset: dec(1, 2), step_fraction: dec(1, 1) },
        Rung { price_offset: dec(2, 2), step_fraction: dec(1, 1) },
        Rung { price_offset: dec(3, 2), step_fraction: dec(1, 1) },
    ]
    &&& config.circuit_trigger_ratio == dec(30, 2)
    &&& config.circuit_recover_ratio == dec(15, 2)
    &&& config.circuit_recover_stable == 5000
    &&& config.time_red_line == 60000
    &&& config.last_phase_window == 300000
    &&& config.loss_trigger == dec(-2, 2)
    &&& config.making_profit_lock == dec(5, 3)
    &&& config.single_side_threshold == dec(3, 2)
    &&& config.dynamic_escape == dec(25, 4)
    &&& config.repair_target == dec(-1, 2)
    &&& config.follow_fraction == dec(1, 1)
    &&& config.follow_offset == dec(1, 2)
    &&& config.profit_margin == dec(2, 2)
    &&& config.repair_tolerance == dec(1, 2)
    &&& config.deep_sea_deviation == dec(5, 2)
    &&& config.dynamic_step_fraction == dec(1, 1)
    &&& config.dynamic_rungs@ == seq![
        Rung { price_offset: dec(1, 2), step_fraction: dec(3, 1) },
        Rung { price_offset: dec(2, 2), step_fraction: dec(3, 1) },
        Rung { price_offset: dec(3, 2), step_fraction: dec(4, 1) },
    ]
    &&& config.dynamic_cooldown == 1000
    &&& config.ev_step_fraction == dec(25, 2)
    &&& config.ev_price_cap == dec(85, 2)
    &&& config.ev_reversal == dec(55, 2)
    &&& config.ev_cooldown == 2000
    &&& config.ev_entry_window == 300000
    &&& config.ev_sweet_far == (dec(60, 2), dec(75, 2))
    &&& config.ev_sweet_near == (dec(75, 2), dec(85, 2))
}

impl Default for StrategyConfig {
    fn default() -> (r: Self)
        ensures
            is_default_config(r),
    {
        Self {
            building_rungs: [
                Rung { price_offset: Decimal::new(1, 2), step_fraction: Decimal::new(1, 1) },
                Rung { price_offset: Decimal::new(2, 2), step_fraction: Decimal::new(1, 1) },
                Rung { price_offset: Decimal::new(3, 2), step_fraction: Decimal::new(1, 1) },
            ],
            circuit_trigger_ratio: Decimal::new(30, 2),
            circuit_recover_ratio: Decimal::new(15, 2),
            circuit_recover_stable: 5_000,
            time_red_line: 60_000,
            last_phase_window: 300_000,
            loss_trigger: Decimal::new(-2, 2),
            making_profit_lock: Decimal::new(5, 3),
            single_side_threshold: Decimal::new(3, 2),
            dynamic_escape: Decimal::new(25, 4),
            repair_target: Decimal::new(-1, 2),
            follow_fraction: Decimal::new(1, 1),
            follow_offset: Decimal::new(1, 2),
            profit_margin: Decimal::new(2, 2),
            repair_tolerance: Decimal::new(1, 2),
            deep_sea_deviation: Decimal::new(5, 2),
            dynamic_step_fraction: Decimal::new(1, 1),
            dynamic_rungs: [
                Rung { price_offset: Decimal::new(1, 2), step_fraction: Decimal::new(3, 1) },
                Rung { price_offset: Decimal::new(2, 2), step_fraction: Decimal::new(3, 1) },
                Rung { price_offset: Decimal::new(3, 2), step_fraction: Decimal::new(4, 1) },
            ],
            dynamic_cooldown: 1_000,
            ev_step_fraction: Decimal::new(25, 2),
            ev_price_cap: Decimal::new(85, 2),
            ev_reversal: Decimal::new(55, 2),
            ev_cooldown: 2_000,
            ev_entry_window: 300_000,
            ev_sweet_far: (Decimal::new(60, 2), Decimal::new(75, 2)),
            ev_sweet_near: (Decimal::new(75, 2), Decimal::new(85, 2)),
        }
    }
}

} // verus!
