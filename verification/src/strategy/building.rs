//! Building: maker bids on both sides lay a base position.

use crate::decimal::{dec, Decimal};
use crate::domain::phase::Phase;
use crate::domain::types::Price;
use crate::strategy::context::{Decision, DecisionContext, Plan, Situation};
use crate::strategy::quoting::{both_bids, both_bids_fits, quote_both};
use vstd::prelude::*;

verus! {

/// The strategy of the building phase.
pub struct BuildingStrategy;

/// How far the best bid may leave a resting bid behind: one cent, in the exchange's
/// digits.
pub open spec fn building_drift(ctx: Situation) -> Price {
    dec(1, 2).cut(ctx.constraints.price_scale as nat)
}

/// The decision of the building phase: move on once it is over, otherwise keep one
/// bid on each side.
pub open spec fn building_plan(ctx: Situation) -> Plan {
    if ctx.progress@ >= ctx.config.building_end@ {
        Plan::moving(Phase::Cycling)
    } else {
        Plan::doing(both_bids(ctx, building_drift(ctx)))
    }
}

/// Whether the decision can be computed.
pub open spec fn building_fits(ctx: Situation) -> bool {
    ctx.progress@ < ctx.config.building_end@ ==> both_bids_fits(ctx, building_drift(ctx))
}

impl BuildingStrategy {
    /// Decides in the building phase.
    pub fn decide(&self, ctx: &DecisionContext) -> (r: Decision)
        requires
            building_fits(ctx@),
        ensures
            r@ == building_plan(ctx@),
    {
        if ctx.progress.ge(ctx.config.building_end) {
            return Decision { commands: Vec::new(), transition: Some(Phase::Cycling) };
        }
        let drift = ctx.constraints.quantize_price(Decimal::new(1, 2));
        let mut commands = Vec::new();
        quote_both(ctx, drift, &mut commands);
        Decision { commands, transition: None }
    }
}

} // verus!
