//! The circuit breaker: nothing is done until the spreads have been calm for a while.

use crate::decimal::laws::zero_value;
use crate::decimal::Decimal;
use crate::domain::state::RobotState;
use crate::hedging::config::StrategyConfig;
use crate::hedging::context::{Choice, Decision, DecisionContext, Outlook, PhaseStrategy};
use crate::hedging::router::{circuit_should_trip, trips, trips_fits};
use vstd::prelude::*;

verus! {

/// The strategy of an open circuit breaker.
#[derive(Debug, Clone, Copy)]
pub struct CircuitBreakerStrategy {
    pub cfg: StrategyConfig,
}

/// The state to resume in: pairing where anything is held, building otherwise.
pub open spec fn resumed(ctx: Outlook) -> RobotState {
    if ctx.position.up_qty@ > 0real || ctx.position.down_qty@ > 0real {
        RobotState::Pairing
    } else {
        RobotState::Building
    }
}

/// Whether the market has been calm for long enough.
pub open spec fn calm_for_long(ctx: Outlook, config: StrategyConfig) -> bool {
    ctx.round.calm_since matches Some(since) && ctx.now >= since + config.circuit_recover_stable
}

impl CircuitBreakerStrategy {
    /// A strategy with these parameters.
    pub fn new(cfg: StrategyConfig) -> (r: Self)
        ensures
            r.cfg == cfg,
    {
        Self { cfg }
    }

    /// Tells the state to resume in.
    fn recovery_target(ctx: &DecisionContext) -> (r: RobotState)
        ensures
            r == resumed(ctx@),
    {
        proof {
            zero_value();
        }
        if ctx.position.up_qty.gt(Decimal::zero()) || ctx.position.down_qty.gt(Decimal::zero()) {
            RobotState::Pairing
        } else {
            RobotState::Building
        }
    }
}

impl PhaseStrategy for CircuitBreakerStrategy {
    open spec fn ready(&self, ctx: Outlook) -> bool {
        &&& trips_fits(ctx.market, self.cfg)
        &&& !trips(ctx.market, self.cfg) ==> (ctx.round.calm_since matches Some(since) ==> since
            + self.cfg.circuit_recover_stable <= u64::MAX)
    }

    open spec fn choice(&self, ctx: Outlook) -> Choice {
        if !trips(ctx.market, self.cfg) && calm_for_long(ctx, self.cfg) {
            Choice::moving(resumed(ctx))
        } else {
            Choice::nothing()
        }
    }

    fn decide(&self, ctx: &DecisionContext) -> (r: Decision) {
        if circuit_should_trip(&ctx.market, &self.cfg) {
            return Decision::skip();
        }
        match ctx.round.calm_since {
            Some(since) => if ctx.now >= since + self.cfg.circuit_recover_stable {
                Decision::transition(Self::recovery_target(ctx))
            } else {
                Decision::skip()
            },
            None => Decision::skip(),
        }
    }
}

} // verus!
