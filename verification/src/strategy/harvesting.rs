//! Harvesting: nothing more is bought; what is held is offered until the end.

use crate::decimal::{dec, Decimal};
use crate::domain::phase::Phase;
use crate::strategy::context::{Decision, DecisionContext, Plan, Situation};
use crate::strategy::offers::{both_offers, both_offers_fits, offer_both};
use vstd::prelude::*;

verus! {

/// The strategy of the harvesting phase.
pub struct HarvestingStrategy;

/// The decision of the harvesting phase: stop once it is over; otherwise offer every
/// lot that is not offered yet, at most at 0.99.
pub open spec fn harvesting_plan(ctx: Situation) -> Plan {
    if ctx.progress@ >= ctx.config.settle_start@ {
        Plan::moving(Phase::Settled)
    } else {
        Plan::doing(both_offers(ctx, Some(dec(99, 2))))
    }
}

/// Whether the decision can be computed.
pub open spec fn harvesting_fits(ctx: Situation) -> bool {
    ctx.progress@ < ctx.config.settle_start@ ==> both_offers_fits(ctx)
}

impl HarvestingStrategy {
    /// Decides in the harvesting phase.
    pub fn decide(&self, ctx: &DecisionContext) -> (r: Decision)
        requires
            harvesting_fits(ctx@),
        ensures
            r@ == harvesting_plan(ctx@),
    {
        if ctx.progress.ge(ctx.config.settle_start) {
            return Decision { commands: Vec::new(), transition: Some(Phase::Settled) };
        }
        let mut commands = Vec::new();
        offer_both(ctx, Some(Decimal::new(99, 2)), &mut commands);
        Decision { commands, transition: None }
    }
}

} // verus!
