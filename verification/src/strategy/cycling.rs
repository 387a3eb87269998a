//! Cycling: every lot is offered, and both sides are kept bid for.

use crate::decimal::{dec, Decimal};
use crate::domain::phase::Phase;
use crate::strategy::context::{Decision, DecisionContext, Plan, Situation};
use crate::strategy::offers::{both_offers, both_offers_fits, offer_both};
use crate::strategy::quoting::{both_bids, both_bids_fits, quote_both};
use vstd::prelude::*;

pub use crate::strategy::quoting::inventory_allows_buy;

verus! {

/// The strategy of the cycling phase.
pub struct CyclingStrategy;

/// The decision of the cycling phase: move on once it is over; otherwise offer every
/// lot that is not offered yet, whatever the best bid, and keep one bid on each side,
/// at most a cent behind.
pub open spec fn cycling_plan(ctx: Situation) -> Plan {
    if ctx.progress@ >= ctx.config.harvest_start@ {
        Plan::moving(Phase::Harvesting)
    } else {
        Plan::doing(both_offers(ctx, None) + both_bids(ctx, dec(1, 2)))
    }
}

/// Whether the decision can be computed.
pub open spec fn cycling_fits(ctx: Situation) -> bool {
    ctx.progress@ < ctx.config.harvest_start@ ==> both_offers_fits(ctx) && both_bids_fits(
        ctx,
        dec(1, 2),
    )
}

impl CyclingStrategy {
    /// Decides in the cycling phase.
    pub fn decide(&self, ctx: &DecisionContext) -> (r: Decision)
        requires
            cycling_fits(ctx@),
        ensures
            r@ == cycling_plan(ctx@),
    {
        if ctx.progress.ge(ctx.config.harvest_start) {
            return Decision { commands: Vec::new(), transition: Some(Phase::Harvesting) };
        }
        let mut commands = Vec::new();
        offer_both(ctx, None, &mut commands);
        quote_both(ctx, Decimal::new(1, 2), &mut commands);
        Decision { commands, transition: None }
    }
}

} // verus!
