//! Building: a ladder of three bids on the cheaper side, until the first fill.

use crate::decimal::laws::zero_value;
use crate::decimal::{dec, Decimal};
use crate::domain::state::RobotState;
use crate::domain::types::{Price, Qty, Side};
use crate::hedging::config::{Rung, StrategyConfig};
use crate::hedging::context::{
    resting_bid, Choice, CommandIntent, Decision, DecisionContext, OrderIntent, Outlook,
    PhaseStrategy, Trigger,
};
use vstd::prelude::*;

verus! {

/// The strategy of the building state.
#[derive(Debug, Clone, Copy)]
pub struct BuildingStrategy {
    pub cfg: StrategyConfig,
}

/// The side with the lower ask and that ask; `Up` where neither is lower.
pub open spec fn cheaper(ctx: Outlook) -> Option<(Side, Price)> {
    match (ctx.market.up.best_ask, ctx.market.down.best_ask) {
        (Some(up), Some(down)) => if down@ < up@ {
            Some((Side::Down, down))
        } else {
            Some((Side::Up, up))
        },
        (Some(up), None) => Some((Side::Up, up)),
        (None, Some(down)) => Some((Side::Down, down)),
        (None, None) => None,
    }
}

/// The price of a rung.
pub open spec fn rung_price(ctx: Outlook, ask: Price, rung: Rung) -> Price {
    (ask - rung.price_offset).cut(ctx.constraints.price_scale as nat)
}

/// The shares of a rung: its share of the grid pool.
pub open spec fn rung_qty(ctx: Outlook, ask: Price, rung: Rung) -> Qty {
    (ctx.pools.grid_maker_total * rung.step_fraction / rung_price(ctx, ask, rung)).cut(
        ctx.constraints.size_scale as nat,
    )
}

/// Whether a rung is placed: its price is positive and it meets the exchange's minimums.
pub open spec fn rung_stands(ctx: Outlook, ask: Price, rung: Rung) -> bool {
    rung_price(ctx, ask, rung)@ > 0real && ctx.constraints.allows(
        rung_qty(ctx, ask, rung),
        rung_price(ctx, ask, rung),
    )
}

/// Whether that can be computed.
pub open spec fn rung_fits(ctx: Outlook, ask: Price, rung: Rung) -> bool {
    &&& ask.sub_fits(rung.price_offset)
    &&& rung_price(ctx, ask, rung)@ > 0real ==> {
        &&& ctx.pools.grid_maker_total.mul_fits(rung.step_fraction)
        &&& (ctx.pools.grid_maker_total * rung.step_fraction).div_fits(rung_price(ctx, ask, rung))
        &&& ctx.constraints.allows_fits(rung_qty(ctx, ask, rung), rung_price(ctx, ask, rung))
    }
}

/// The bids of a ladder.
pub open spec fn ladder(ctx: Outlook, side: Side, ask: Price, rungs: Seq<Rung>) -> Seq<
    CommandIntent,
>
    decreases rungs.len(),
{
    if rungs.len() == 0 {
        Seq::empty()
    } else {
        let before = ladder(ctx, side, ask, rungs.drop_last());
        let rung = rungs.last();
        if rung_stands(ctx, ask, rung) {
            before.push(
                CommandIntent::Submit(
                    resting_bid(side, rung_price(ctx, ask, rung), rung_qty(ctx, ask, rung)),
                ),
            )
        } else {
            before
        }
    }
}

/// Whether a decision places the ladder: nothing was filled and nothing rests.
pub open spec fn starts(ctx: Outlook) -> bool {
    !(ctx.trigger is Fill) && ctx.active_orders.len() == 0
}

impl BuildingStrategy {
    /// A strategy with these parameters.
    pub fn new(cfg: StrategyConfig) -> (r: Self)
        ensures
            r.cfg == cfg,
    {
        Self { cfg }
    }

    /// Finds the side with the lower ask.
    fn entry(ctx: &DecisionContext) -> (r: Option<(Side, Price)>)
        ensures
            r == cheaper(ctx@),
    {
        match (ctx.market.up.best_ask, ctx.market.down.best_ask) {
            (Some(up), Some(down)) => if down.lt(up) {
                Some((Side::Down, down))
            } else {
                Some((Side::Up, up))
            },
            (Some(up), None) => Some((Side::Up, up)),
            (None, Some(down)) => Some((Side::Down, down)),
            (None, None) => None,
        }
    }
}

impl PhaseStrategy for BuildingStrategy {
    open spec fn ready(&self, ctx: Outlook) -> bool {
        starts(ctx) ==> (cheaper(ctx) matches Some((side, ask)) ==> forall|i: int|
            0 <= i < 3 ==> rung_fits(ctx, ask, #[trigger] self.cfg.building_rungs@[i]))
    }

    /// The first fill leads to pairing. Until then the ladder is placed once.
    open spec fn choice(&self, ctx: Outlook) -> Choice {
        if ctx.trigger is Fill {
            Choice::moving(RobotState::Pairing)
        } else if ctx.active_orders.len() > 0 {
            Choice::nothing()
        } else {
            match cheaper(ctx) {
                Some((side, ask)) => Choice::doing(
                    ladder(ctx, side, ask, self.cfg.building_rungs@),
                ),
                None => Choice::nothing(),
            }
        }
    }

    fn decide(&self, ctx: &DecisionContext) -> (r: Decision) {
        if let Trigger::Fill { .. } = ctx.trigger {
            return Decision::transition(RobotState::Pairing);
        }
        if ctx.active_orders.len() > 0 {
            return Decision::skip();
        }
        let (side, ask) = match Self::entry(ctx) {
            Some(pair) => pair,
            None => {
                return Decision::skip();
            },
        };
        let ghost rungs = self.cfg.building_rungs@;
        let mut decision = Decision::skip();
        let mut i: usize = 0;
        proof {
            zero_value();
            assert(rungs.take(0) =~= Seq::<Rung>::empty());
        }
        while i < 3
            invariant
                i <= 3,
                rungs == self.cfg.building_rungs@,
                rungs.len() == 3,
                dec(0, 0)@ == 0real,
                forall|k: int| 0 <= k < 3 ==> rung_fits(ctx@, ask, #[trigger] rungs[k]),
                decision@ == Choice::doing(ladder(ctx@, side, ask, rungs.take(i as int))),
            decreases 3 - i,
        {
            proof {
                assert(rungs.take(i as int + 1).drop_last() =~= rungs.take(i as int));
            }
            let rung = self.cfg.building_rungs[i];
            assert(rung_fits(ctx@, ask, rungs[i as int]));
            let price = ctx.constraints.quantize_price(ask.minus(rung.price_offset));
            if price.gt(Decimal::zero()) {
                let qty = ctx.constraints.quantize_qty(
                    ctx.pools.grid_maker_total.times(rung.step_fraction).over(price),
                );
                if ctx.constraints.is_satisfied(qty, price) {
                    decision = decision.with(
                        CommandIntent::Submit(OrderIntent::maker_buy(side, price, qty)),
                    );
                }
            }
            i += 1;
        }
        proof {
            assert(rungs.take(3) =~= rungs);
        }
        decision
    }
}

} // verus!
