//! The parameters of the market-making strategy.

use crate::decimal::laws::written_value;
use crate::decimal::model::scaled;
use crate::decimal::{dec, Decimal};
use crate::domain::types::{Price, Qty};
use vstd::prelude::*;

verus! {

/// All parameters.
#[derive(Debug, Clone, Copy, PartialEq, Eq)]
pub struct StrategyConfig {
    /// The second at which trading starts.
    pub entry_second: u64,
    /// The shares of one order.
    pub lot_qty: Qty,
    /// The progress (0 to 1) at which building ends.
    pub building_end: Decimal,
    /// The progress at which harvesting starts.
    pub harvest_start: Decimal,
    /// The progress at which everything stops.
    pub settle_start: Decimal,
    /// How far above its cost a lot is offered, by quarter of the match.
    pub tp_by_quartile: [Price; 4],
    /// How far below its cost a lot could be given up, by quarter of the match. No phase
    /// gives one up: replacing the offer of a lot could race its fill and sell it twice.
    pub sl_by_quartile: [Price; 4],
    /// The most shares held of one side, if there is a limit.
    pub inventory_cap: Option<Qty>,
    /// The most shares by which one side may lead, if there is a limit.
    pub imbalance_cap: Option<Qty>,
    /// The lead from which the other side is filled up at the end, if at all.
    pub symmetry_threshold: Option<Qty>,
}

/// The quarter of the match (0 to 3) that `progress` falls into.
pub open spec fn quarter(progress: Decimal) -> int {
    if progress@ < scaled(25, 2) {
        0
    } else if progress@ < scaled(50, 2) {
        1
    } else if progress@ < scaled(75, 2) {
        2
    } else {
        3
    }
}

/// Tells the quarter of the match that `progress` falls into.
pub fn quartile_index(progress: Decimal) -> (r: usize)
    ensures
        r == quarter(progress),
        r < 4,
{
    proof {
        written_value(25, 2);
        written_value(50, 2);
        written_value(75, 2);
    }
    if progress.lt(Decimal::new(25, 2)) {
        0
    } else if progress.lt(Decimal::new(50, 2)) {
        1
    } else if progress.lt(Decimal::new(75, 2)) {
        2
    } else {
        3
    }
}

/// How far below its cost a lot could be given up at `progress`.
pub open spec fn loss_limit(config: StrategyConfig, progress: Decimal) -> Price {
    config.sl_by_quartile@[quarter(progress)]
}

impl StrategyConfig {
    /// Tells how far above its cost a lot is offered at `progress`.
    pub fn tp(&self, progress: Decimal) -> (r: Price)
        ensures
            r == self.tp_by_quartile@[quarter(progress)],
    {
        self.tp_by_quartile[quartile_index(progress)]
    }

    /// Tells how far below its cost a lot could be given up at `progress`. No phase asks:
    /// lots stay on offer above their cost.
    pub fn sl(&self, progress: Decimal) -> (r: Price)
        ensures
            r == self.sl_by_quartile@[quarter(progress)],
            r == loss_limit(*self, progress),
    {
        self.sl_by_quartile[quartile_index(progress)]
    }
}

/// Whether these are the default parameters.
pub open spec fn is_default_config(config: StrategyConfig) -> bool {
    &&& config.entry_second == 6
    &&& config.lot_qty == dec(10, 0)
    &&& config.building_end == dec(8, 2)
    &&& config.harvest_start == dec(83, 2)
    &&& config.settle_start == dec(967, 3)
    &&& config.tp_by_quartile@ == seq![dec(5, 2), dec(6, 2), dec(8, 2), dec(10, 2)]
    &&& config.sl_by_quartile@ == seq![dec(4, 2), dec(4, 2), dec(5, 2), dec(7, 2)]
    &&& config.inventory_cap is None
    &&& config.imbalance_cap is None
    &&& config.symmetry_threshold is None
}

impl Default for StrategyConfig {
    fn default() -> (r: Self)
        ensures
            is_default_config(r),
    {
        Self {
            entry_second: 6,
            lot_qty: Decimal::new(10, 0),
            building_end: Decimal::new(8, 2),
            harvest_start: Decimal::new(83, 2),
            settle_start: Decimal::new(967, 3),
            tp_by_quartile: [
                Decimal::new(5, 2),
                Decimal::new(6, 2),
                Decimal::new(8, 2),
                Decimal::new(10, 2),
            ],
            sl_by_quartile: [
                Decimal::new(4, 2),
                Decimal::new(4, 2),
                Decimal::new(5, 2),
                Decimal::new(7, 2),
            ],
            inventory_cap: None,
            imbalance_cap: None,
            symmetry_threshold: None,
        }
    }
}

} // verus!
