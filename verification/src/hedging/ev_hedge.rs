//! The expected-value hedge: the last resort, which takes the side that is winning.

use crate::decimal::laws::zero_value;
use crate::decimal::Decimal;
use crate::domain::state::RobotState;
use crate::domain::types::{Price, Qty, Side};
use crate::hedging::config::StrategyConfig;
use crate::hedging::context::{
    taking_bid, Choice, CommandIntent, Decision, DecisionContext, OrderIntent, Outlook,
    PhaseStrategy,
};
use vstd::prelude::*;

verus! {

/// The strategy of the expected-value hedge.
#[derive(Debug, Clone, Copy)]
pub struct EvHedgeStrategy {
    pub cfg: StrategyConfig,
}

/// The side with the higher mark price and that price, where both have one. `Up` where
/// they are equal.
pub open spec fn favourite(ctx: Outlook) -> Option<(Side, Price)> {
    match (ctx.market.up.mark(), ctx.market.down.mark()) {
        (Some(up), Some(down)) => if up@ >= down@ {
            Some((Side::Up, up))
        } else {
            Some((Side::Down, down))
        },
        _ => None,
    }
}

/// Whether the favourite can be computed.
pub open spec fn favourite_fits(ctx: Outlook) -> bool {
    &&& ctx.market.up.mark_fits()
    &&& ctx.market.up.mark() is Some ==> ctx.market.down.mark_fits()
}

/// The shares of one step: its share of what is left of the pool, at the highest price
/// that would be paid.
pub open spec fn step_qty(config: StrategyConfig, ctx: Outlook) -> Qty {
    (ctx.pools.ev_remaining * config.ev_step_fraction / config.ev_price_cap).cut(
        ctx.constraints.size_scale as nat,
    )
}

/// Whether the shares of one step can be computed and judged.
pub open spec fn step_qty_fits(config: StrategyConfig, ctx: Outlook) -> bool {
    &&& ctx.pools.ev_remaining.mul_fits(config.ev_step_fraction)
    &&& (ctx.pools.ev_remaining * config.ev_step_fraction).div_fits(config.ev_price_cap)
    &&& ctx.constraints.allows_fits(step_qty(config, ctx), config.ev_price_cap)
}

/// The chances at which it buys, early or late in the match.
pub open spec fn sweet_band(config: StrategyConfig, ctx: Outlook) -> (Price, Price) {
    if ctx.time_to_expiry > config.ev_entry_window {
        config.ev_sweet_far
    } else {
        config.ev_sweet_near
    }
}

/// Whether it buys: the chance is in the band, and the best ask is not above the cap.
pub open spec fn fires(config: StrategyConfig, ctx: Outlook, side: Side, chance: Price) -> bool {
    let (low, high) = sweet_band(config, ctx);
    &&& chance@ >= low@
    &&& chance@ <= high@
    &&& ctx.market.at(side).best_ask matches Some(ask) && ask@ <= config.ev_price_cap@
}

impl EvHedgeStrategy {
    /// A strategy with these parameters.
    pub fn new(cfg: StrategyConfig) -> (r: Self)
        ensures
            r.cfg == cfg,
    {
        Self { cfg }
    }

    /// Finds the side with the higher mark price.
    fn advantaged(&self, ctx: &DecisionContext) -> (r: Option<(Side, Price)>)
        requires
            favourite_fits(ctx@),
        ensures
            r == favourite(ctx@),
    {
        let up = match ctx.market.mark_price(Side::Up) {
            Some(price) => price,
            None => {
                return None;
            },
        };
        let down = match ctx.market.mark_price(Side::Down) {
            Some(price) => price,
            None => {
                return None;
            },
        };
        if up.ge(down) {
            Some((Side::Up, up))
        } else {
            Some((Side::Down, down))
        }
    }
}

impl PhaseStrategy for EvHedgeStrategy {
    open spec fn ready(&self, ctx: Outlook) -> bool {
        &&& favourite_fits(ctx)
        &&& favourite(ctx) matches Some((side, chance)) ==> {
            let up = ctx.market.up.mark()->0;
            &&& ctx.position.expected_fits(up)
            &&& (ctx.position.expected(up)@ <= 0real && chance@ >= self.cfg.ev_reversal@)
                ==> step_qty_fits(self.cfg, ctx)
        }
    }

    /// Without both prices nothing is done. Once the expectation is positive, the
    /// favourite's chance has fallen below the reversal line, or a step can no longer
    /// be paid for, the hedge is over. Otherwise it buys, after each pause, while the
    /// chance is in the band and the ask within the cap.
    open spec fn choice(&self, ctx: Outlook) -> Choice {
        match favourite(ctx) {
            None => Choice::nothing(),
            Some((side, chance)) => {
                let qty = step_qty(self.cfg, ctx);
                if ctx.position.expected(ctx.market.up.mark()->0)@ > 0real || chance@
                    < self.cfg.ev_reversal@ || !ctx.constraints.allows(
                    qty,
                    self.cfg.ev_price_cap,
                ) {
                    Choice::leaving(RobotState::SettlementWait)
                } else if !ctx.cooling(self.cfg.ev_cooldown) && fires(self.cfg, ctx, side, chance) {
                    Choice::doing(
                        seq![
                            CommandIntent::Submit(
                                taking_bid(side, self.cfg.ev_price_cap, qty),
                            ),
                        ],
                    )
                } else {
                    Choice::nothing()
                }
            },
        }
    }

    fn decide(&self, ctx: &DecisionContext) -> (r: Decision) {
        proof {
            zero_value();
        }
        let (adv_side, prob) = match self.advantaged(ctx) {
            Some(pair) => pair,
            None => {
                return Decision::skip();
            },
        };
        let up_prob = match ctx.market.mark_price(Side::Up) {
            Some(price) => price,
            None => Decimal::zero(),
        };
        if ctx.position.expected_value(up_prob).gt(Decimal::zero()) {
            return Decision::leave(RobotState::SettlementWait);
        }
        if prob.lt(self.cfg.ev_reversal) {
            return Decision::leave(RobotState::SettlementWait);
        }
        let step_budget = ctx.pools.ev_remaining.times(self.cfg.ev_step_fraction);
        let qty = ctx.constraints.quantize_qty(step_budget.over(self.cfg.ev_price_cap));
        if !ctx.constraints.is_satisfied(qty, self.cfg.ev_price_cap) {
            return Decision::leave(RobotState::SettlementWait);
        }
        if ctx.in_cooldown(self.cfg.ev_cooldown) {
            return Decision::skip();
        }
        let (low, high) = if ctx.time_to_expiry > self.cfg.ev_entry_window {
            self.cfg.ev_sweet_far
        } else {
            self.cfg.ev_sweet_near
        };
        if prob.ge(low) && prob.le(high) {
            let can_fire = match ctx.market.book(adv_side).best_ask {
                Some(ask) => ask.le(self.cfg.ev_price_cap),
                None => false,
            };
            if can_fire {
                let intent = CommandIntent::Submit(
                    OrderIntent::ioc_taker_buy(adv_side, self.cfg.ev_price_cap, qty),
                );
                let decision = Decision::skip().with(intent);
                assert(decision@.commands =~= seq![intent]);
                return decision;
            }
        }
        Decision::skip()
    }
}

} // verus!
