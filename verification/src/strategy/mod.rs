//! The market-making strategy: one pure decision per phase.

use crate::domain::phase::Phase;
use crate::strategy::building::{building_fits, building_plan};
use crate::strategy::context::{Plan, Situation};
use crate::strategy::cycling::{cycling_fits, cycling_plan};
use crate::strategy::harvesting::{harvesting_fits, harvesting_plan};
use vstd::prelude::*;

pub mod building;
pub mod config;
pub mod context;
pub mod cycling;
pub mod harvesting;
pub mod laws;
pub mod offers;
pub mod quotes;
pub mod quoting;

pub use building::BuildingStrategy;
pub use config::StrategyConfig;
pub use context::{ActiveOrder, CommandIntent, Decision, DecisionContext, Trigger};
pub use cycling::CyclingStrategy;
pub use harvesting::HarvestingStrategy;

verus! {

/// The decision of a phase.
pub open spec fn plan(phase: Phase, ctx: Situation) -> Plan {
    match phase {
        Phase::Building => building_plan(ctx),
        Phase::Cycling => cycling_plan(ctx),
        Phase::Harvesting => harvesting_plan(ctx),
        Phase::Settled => Plan::nothing(),
    }
}

/// Whether the decision of a phase can be computed.
pub open spec fn plan_fits(phase: Phase, ctx: Situation) -> bool {
    match phase {
        Phase::Building => building_fits(ctx),
        Phase::Cycling => cycling_fits(ctx),
        Phase::Harvesting => harvesting_fits(ctx),
        Phase::Settled => true,
    }
}

/// Decides in a phase.
pub fn route(phase: Phase, ctx: &DecisionContext) -> (r: Decision)
    requires
        plan_fits(phase, ctx@),
    ensures
        r@ == plan(phase, ctx@),
{
    match phase {
        Phase::Building => BuildingStrategy.decide(ctx),
        Phase::Cycling => CyclingStrategy.decide(ctx),
        Phase::Harvesting => HarvestingStrategy.decide(ctx),
        Phase::Settled => Decision::skip(),
    }
}

} // verus!
