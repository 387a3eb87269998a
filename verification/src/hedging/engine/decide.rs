//! Asks who decides, and has it decide.

use crate::hedging::building::BuildingStrategy;
use crate::hedging::circuit_breaker::CircuitBreakerStrategy;
use crate::hedging::context::{
    ActiveOrder, Decision, DecisionContext, PhaseStrategy, PoolBudgets, Trigger,
};
use crate::hedging::dynamic_hedge::DynamicHedgeStrategy;
use crate::hedging::engine::config::Pool;
use crate::hedging::engine::model::resting_orders;
use crate::hedging::engine::Engine;
use crate::hedging::ev_hedge::EvHedgeStrategy;
use crate::hedging::pairing::PairingStrategy;
use crate::hedging::router::{route, Phase, Route};
use vstd::prelude::*;

verus! {

impl Engine {
    /// Decides.
    pub(crate) fn decide(&self, trigger: Trigger) -> (r: Decision)
        requires
            self@.decision_fits(trigger),
        ensures
            r@ == self@.decision(trigger),
    {
        let active = self.active_orders();
        let ctx = DecisionContext {
            total_capital: self.cfg.pools.total_capital(),
            trigger,
            now: self.now,
            time_to_expiry: self.time_to_expiry,
            position: self.ledger.snapshot(),
            market: self.market,
            pools: PoolBudgets {
                grid_maker_total: self.cfg.pools.grid_maker(),
                grid_maker_remaining: self.pool_remaining(Pool::GridMaker),
                dynamic_remaining: self.pool_remaining(Pool::Dynamic),
                ev_remaining: self.pool_remaining(Pool::Ev),
                max_exposure: self.cfg.pools.max_exposure(),
            },
            active_orders: active.as_slice(),
            constraints: self.cfg.constraints,
            round: &self.round,
        };
        assert(ctx@ == self@.outlook(trigger));
        match route(&ctx, &self.cfg.strategy) {
            Route::Direct(decision) => decision,
            Route::Phase(phase) => self.dispatch(phase, &ctx),
        }
    }

    /// Has the strategy of a state decide.
    fn dispatch(&self, phase: Phase, ctx: &DecisionContext) -> (r: Decision)
        requires
            self@.phase_ready(phase, ctx@),
        ensures
            r@ == self@.phase_choice(phase, ctx@),
    {
        let cfg = self.cfg.strategy;
        match phase {
            Phase::Building => BuildingStrategy::new(cfg).decide(ctx),
            Phase::Pairing => PairingStrategy::new(cfg).decide(ctx),
            Phase::DynamicHedge => DynamicHedgeStrategy::new(cfg).decide(ctx),
            Phase::EvHedge => EvHedgeStrategy::new(cfg).decide(ctx),
            Phase::CircuitBreaker => CircuitBreakerStrategy::new(cfg).decide(ctx),
        }
    }

    /// What a strategy sees of the orders on record.
    pub(crate) fn active_orders(&self) -> (r: Vec<ActiveOrder>)
        ensures
            r@ == resting_orders(self@.book),
    {
        let mut views: Vec<ActiveOrder> = Vec::new();
        let mut i: usize = 0;
        while i < self.book.len()
            invariant
                i <= self.book@.len(),
                views@.len() == i,
                forall|k: int| 0 <= k < i ==> views@[k] == resting_orders(self.book@)[k],
            decreases self.book@.len() - i,
        {
            let order = self.book.order(i);
            views.push(
                ActiveOrder {
                    order_id: order.order_id,
                    side: order.side,
                    direction: order.direction,
                    price: order.price,
                    qty: order.qty,
                    role: order.role,
                },
            );
            i += 1;
        }
        assert(views@ =~= resting_orders(self@.book));
        views
    }
}

} // verus!
