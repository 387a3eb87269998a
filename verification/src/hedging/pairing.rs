//! Pairing: each fill of the main side is followed by a lower bid and by bids for the
//! other side that bring both sides level at a profit.

use crate::decimal::laws::zero_value;
use crate::decimal::{dec, Decimal};
use crate::domain::state::RobotState;
use crate::domain::types::{Money, Price, Qty, Side};
use crate::hedging::config::StrategyConfig;
use crate::hedging::context::{
    resting_bid, Choice, CommandIntent, Decision, DecisionContext, OrderIntent, Outlook,
    PhaseStrategy, Trigger,
};
use crate::hedging::tally::{
    find_first_price, find_lowest_price, first_price, has_bid_at, lowest_price, notional_of,
    notional_of_fits, qty_of, qty_of_fits, tally_qty,
};
use vstd::prelude::*;

verus! {

/// The strategy of the pairing state.
#[derive(Debug, Clone, Copy)]
pub struct PairingStrategy {
    pub cfg: StrategyConfig,
}

/// Whether both settlements make at least `share` of the capital.
pub open spec fn both_make(ctx: Outlook, share: Decimal) -> bool {
    &&& ctx.position.settled(Side::Up)@ >= (share * ctx.total_capital)@
    &&& ctx.position.settled(Side::Down)@ >= (share * ctx.total_capital)@
}

/// Whether one settlement has reached the loss that calls for a hedge, while the other
/// side cost enough to count.
pub open spec fn settlement_breached(config: StrategyConfig, ctx: Outlook) -> bool {
    let loss = config.loss_trigger * ctx.total_capital;
    let threshold = config.single_side_threshold * ctx.total_capital;
    ||| ctx.position.settled(Side::Up)@ <= loss@ && ctx.position.down_cost@ > threshold@
    ||| ctx.position.settled(Side::Down)@ <= loss@ && ctx.position.up_cost@ > threshold@
}

/// Whether a side, sold at its bid, has reached that loss.
pub open spec fn float_breached(config: StrategyConfig, ctx: Outlook, side: Side) -> bool {
    ctx.market.at(side).best_bid matches Some(bid) && (ctx.position.floating(side, bid)
        matches Some(pnl) && pnl@ <= (config.loss_trigger * ctx.total_capital)@)
}

/// Whether that can be computed.
pub open spec fn float_breached_fits(ctx: Outlook, side: Side) -> bool {
    ctx.market.at(side).best_bid matches Some(bid) ==> ctx.position.floating_fits(side, bid)
}

/// The decision that ends pairing or pauses it, if there is a reason: the profit is
/// locked, a loss calls for a hedge, or the pool cannot pay for another order.
pub open spec fn exit(config: StrategyConfig, ctx: Outlook) -> Option<Choice> {
    if both_make(ctx, config.making_profit_lock) {
        Some(Choice::leaving(RobotState::SettlementWait))
    } else if settlement_breached(config, ctx) || float_breached(config, ctx, Side::Up)
        || float_breached(config, ctx, Side::Down) {
        Some(
            Choice::moving(
                RobotState::DynamicHedge {
                    double_negative_count: ctx.round.double_negative_count,
                },
            ),
        )
    } else if ctx.pools.grid_maker_remaining@ < ctx.constraints.min_notional@ {
        Some(Choice::nothing())
    } else {
        None
    }
}

/// Whether that can be computed.
pub open spec fn exit_fits(config: StrategyConfig, ctx: Outlook) -> bool {
    &&& config.making_profit_lock.mul_fits(ctx.total_capital)
    &&& config.loss_trigger.mul_fits(ctx.total_capital)
    &&& config.single_side_threshold.mul_fits(ctx.total_capital)
    &&& ctx.position.both_settled_fits()
    &&& !both_make(ctx, config.making_profit_lock) ==> {
        &&& float_breached_fits(ctx, Side::Up)
        &&& !float_breached(config, ctx, Side::Up) ==> float_breached_fits(ctx, Side::Down)
    }
}

/// The price below which the next bid follows: the lowest bid that rests, or the
/// average where none does.
pub open spec fn follow_base(ctx: Outlook, main: Side) -> Price {
    match lowest_price(ctx.active_orders, main) {
        Some(price) => price,
        None => ctx.position.average_or_zero(main),
    }
}

/// The price of the following bid.
pub open spec fn follow_price(config: StrategyConfig, ctx: Outlook, main: Side) -> Price {
    (follow_base(ctx, main) - config.follow_offset).cut(ctx.constraints.price_scale as nat)
}

/// The shares of the following bid.
pub open spec fn follow_size(config: StrategyConfig, ctx: Outlook, main: Side) -> Qty {
    (ctx.pools.grid_maker_total * config.follow_fraction / follow_price(config, ctx, main)).cut(
        ctx.constraints.size_scale as nat,
    )
}

/// Whether there is a price for the following bid, and no bid rests there.
pub open spec fn follow_is_due(config: StrategyConfig, ctx: Outlook, main: Side) -> bool {
    &&& !ctx.round.main_field_frozen
    &&& follow_base(ctx, main)@ > 0real
    &&& follow_price(config, ctx, main)@ > 0real
    &&& !has_bid_at(ctx.active_orders, main, follow_price(config, ctx, main))
}

/// Whether the following bid meets the exchange's minimums too.
pub open spec fn follows(config: StrategyConfig, ctx: Outlook, main: Side) -> bool {
    follow_is_due(config, ctx, main) && ctx.constraints.allows(
        follow_size(config, ctx, main),
        follow_price(config, ctx, main),
    )
}

/// Whether the main side would be exposed too much: the cost of its unpaired shares,
/// its resting bids and a new one.
pub open spec fn overexposed(ctx: Outlook, main: Side, notional: Money) -> bool {
    (ctx.position.unpaired(main) + notional_of(ctx.active_orders, main) + notional)@
        > ctx.pools.max_exposure@
}

/// Whether that can be computed.
pub open spec fn overexposed_fits(ctx: Outlook, main: Side, notional: Money) -> bool {
    let unpaired = ctx.position.unpaired(main);
    let active = notional_of(ctx.active_orders, main);
    &&& ctx.position.unpaired_fits(main)
    &&& notional_of_fits(ctx.active_orders, main)
    &&& unpaired.add_fits(active)
    &&& (unpaired + active).add_fits(notional)
}

/// What the following bid is worth.
pub open spec fn follow_notional(config: StrategyConfig, ctx: Outlook, main: Side) -> Money {
    follow_price(config, ctx, main) * follow_size(config, ctx, main)
}

/// Whether the following bid would expose the main side too much.
pub open spec fn follow_is_too_much(config: StrategyConfig, ctx: Outlook, main: Side) -> bool {
    follows(config, ctx, main) && overexposed(ctx, main, follow_notional(config, ctx, main))
}

/// The following bid; or, where it would expose the main side too much, the
/// cancellation of that side.
pub open spec fn follow_commands(config: StrategyConfig, ctx: Outlook, main: Side) -> Seq<
    CommandIntent,
> {
    if !follows(config, ctx, main) {
        Seq::empty()
    } else if follow_is_too_much(config, ctx, main) {
        seq![CommandIntent::CancelSide(main)]
    } else {
        seq![
            CommandIntent::Submit(
                resting_bid(
                    main,
                    follow_price(config, ctx, main),
                    follow_size(config, ctx, main),
                ),
            ),
        ]
    }
}

/// Whether the following bid can be computed.
pub open spec fn follow_fits(config: StrategyConfig, ctx: Outlook, main: Side) -> bool {
    !ctx.round.main_field_frozen ==> {
        &&& lowest_price(ctx.active_orders, main) is None ==> ctx.position.average_fits(main)
        &&& follow_base(ctx, main)@ > 0real ==> follow_base(ctx, main).sub_fits(
            config.follow_offset,
        )
        &&& follow_is_due(config, ctx, main) ==> {
            &&& ctx.pools.grid_maker_total.mul_fits(config.follow_fraction)
            &&& (ctx.pools.grid_maker_total * config.follow_fraction).div_fits(
                follow_price(config, ctx, main),
            )
            &&& follow_price(config, ctx, main).mul_fits(follow_size(config, ctx, main))
            &&& ctx.constraints.allows_fits(
                follow_size(config, ctx, main),
                follow_price(config, ctx, main),
            )
        }
        &&& follows(config, ctx, main) ==> overexposed_fits(
            ctx,
            main,
            follow_notional(config, ctx, main),
        )
    }
}

/// The price before it is cut to the exchange's digits, beside the average of the main
/// side and below the best ask of the other.
pub open spec fn raw_pair_price(config: StrategyConfig, average: Price, ask: Price) -> Price {
    (dec(1, 0) - average - config.profit_margin).smaller(ask - config.follow_offset)
}

/// The price of a pair: what leaves the margin beside the average of the main side,
/// and no more than just below the best ask. Without an average or an ask there is none.
pub open spec fn pairing_price(config: StrategyConfig, ctx: Outlook, main: Side) -> Option<Price> {
    match (ctx.position.average(main), ctx.market.at(main.other()).best_ask) {
        (Some(average), Some(ask)) => {
            let price = raw_pair_price(config, average, ask).cut(
                ctx.constraints.price_scale as nat,
            );
            if price@ > 0real {
                Some(price)
            } else {
                None
            }
        },
        _ => None,
    }
}

/// Whether the price of a pair can be computed.
pub open spec fn pairing_price_fits(config: StrategyConfig, ctx: Outlook, main: Side) -> bool {
    &&& ctx.position.average_fits(main)
    &&& match (ctx.position.average(main), ctx.market.at(main.other()).best_ask) {
        (Some(average), Some(ask)) => {
            &&& dec(1, 0).sub_fits(average)
            &&& (dec(1, 0) - average).sub_fits(config.profit_margin)
            &&& ask.sub_fits(config.follow_offset)
        },
        _ => true,
    }
}

/// The shares that the other side lacks.
pub open spec fn pair_target(ctx: Outlook, main: Side) -> Qty {
    (ctx.position.shares(main) - ctx.position.shares(main.other())).larger(dec(0, 0)).cut(
        ctx.constraints.size_scale as nat,
    )
}

/// A pair order, where it meets the exchange's minimums.
pub open spec fn pair_order(ctx: Outlook, side: Side, price: Price, qty: Qty) -> Seq<
    CommandIntent,
> {
    if ctx.constraints.allows(qty, price) {
        seq![CommandIntent::Submit(resting_bid(side, price, qty))]
    } else {
        Seq::empty()
    }
}

/// The shares to add to the pair orders that rest.
pub open spec fn pair_extra(ctx: Outlook, main: Side) -> Qty {
    (pair_target(ctx, main) - qty_of(ctx.active_orders, main.other(), None)).cut(
        ctx.constraints.size_scale as nat,
    )
}

/// What is done about the pair: placed where none rests; cancelled and placed anew where
/// its price has drifted; otherwise added to at its own price, so that it keeps its place
/// in the queue and all of it rests at one price.
pub open spec fn pair_commands(config: StrategyConfig, ctx: Outlook, main: Side) -> Seq<
    CommandIntent,
> {
    let opp = main.other();
    match pairing_price(config, ctx, main) {
        None => Seq::empty(),
        Some(new_price) => match first_price(ctx.active_orders, opp) {
            None => pair_order(ctx, opp, new_price, pair_target(ctx, main)),
            Some(price) => if (new_price - price).absolute()@ > config.repair_tolerance@ {
                seq![CommandIntent::CancelSide(opp)] + pair_order(
                    ctx,
                    opp,
                    new_price,
                    pair_target(ctx, main),
                )
            } else if pair_extra(ctx, main)@ > 0real {
                pair_order(ctx, opp, price, pair_extra(ctx, main))
            } else {
                Seq::empty()
            },
        },
    }
}

/// Whether that can be computed.
pub open spec fn pair_fits(config: StrategyConfig, ctx: Outlook, main: Side) -> bool {
    let opp = main.other();
    &&& pairing_price_fits(config, ctx, main)
    &&& pairing_price(config, ctx, main) matches Some(new_price) ==> {
        let target = pair_target(ctx, main);
        &&& ctx.position.shares(main).sub_fits(ctx.position.shares(opp))
        &&& qty_of_fits(ctx.active_orders, opp, None)
        &&& match first_price(ctx.active_orders, opp) {
            None => ctx.constraints.allows_fits(target, new_price),
            Some(price) => {
                &&& new_price.sub_fits(price)
                &&& if (new_price - price).absolute()@ > config.repair_tolerance@ {
                    ctx.constraints.allows_fits(target, new_price)
                } else {
                    &&& target.sub_fits(qty_of(ctx.active_orders, opp, None))
                    &&& pair_extra(ctx, main)@ > 0real ==> ctx.constraints.allows_fits(
                        pair_extra(ctx, main),
                        price,
                    )
                }
            },
        }
    }
}

impl PairingStrategy {
    /// A strategy with these parameters.
    pub fn new(cfg: StrategyConfig) -> (r: Self)
        ensures
            r.cfg == cfg,
    {
        Self { cfg }
    }

    /// Looks for a reason to end pairing or to pause it.
    fn check_exits(&self, ctx: &DecisionContext) -> (r: Option<Decision>)
        requires
            exit_fits(self.cfg, ctx@),
        ensures
            match r {
                Some(decision) => exit(self.cfg, ctx@) == Some(decision@),
                None => exit(self.cfg, ctx@) is None,
            },
    {
        let v = ctx.total_capital;
        let lock = self.cfg.making_profit_lock.times(v);
        let loss = self.cfg.loss_trigger.times(v);
        let threshold = self.cfg.single_side_threshold.times(v);
        let up_settle = ctx.position.settle_pnl(Side::Up);
        let down_settle = ctx.position.settle_pnl(Side::Down);
        if up_settle.ge(lock) && down_settle.ge(lock) {
            return Some(Decision::leave(RobotState::SettlementWait));
        }
        let settle_breach = (up_settle.le(loss) && ctx.position.cost(Side::Down).gt(threshold)) || (
        down_settle.le(loss) && ctx.position.cost(Side::Up).gt(threshold));
        let float_breach = Self::float_breach(ctx, Side::Up, loss) || Self::float_breach(
            ctx,
            Side::Down,
            loss,
        );
        if settle_breach || float_breach {
            return Some(
                Decision::transition(
                    RobotState::DynamicHedge {
                        double_negative_count: ctx.round.double_negative_count,
                    },
                ),
            );
        }
        if ctx.pools.grid_maker_remaining.lt(ctx.constraints.min_notional) {
            return Some(Decision::skip());
        }
        None
    }

    fn float_breach(ctx: &DecisionContext, side: Side, loss: Money) -> (r: bool)
        requires
            float_breached_fits(ctx@, side),
        ensures
            r == (ctx@.market.at(side).best_bid matches Some(bid) && (ctx@.position.floating(
                side,
                bid,
            ) matches Some(pnl) && pnl@ <= loss@)),
    {
        match ctx.market.book(side).best_bid {
            Some(bid) => match ctx.position.float_pnl(side, bid) {
                Some(pnl) => pnl.le(loss),
                None => false,
            },
            None => false,
        }
    }

    /// The shares of a following bid at a price.
    fn follow_qty(&self, ctx: &DecisionContext, price: Price) -> (r: Qty)
        requires
            ctx.pools.grid_maker_total.mul_fits(self.cfg.follow_fraction),
            (ctx.pools.grid_maker_total * self.cfg.follow_fraction).div_fits(price),
        ensures
            r == ctx.pools.grid_maker_total * self.cfg.follow_fraction / price,
    {
        ctx.pools.grid_maker_total.times(self.cfg.follow_fraction).over(price)
    }

    /// Tells whether the main side would be exposed too much.
    fn exposure_would_exceed(&self, ctx: &DecisionContext, main: Side, new_notional: Money) -> (r:
        bool)
        requires
            overexposed_fits(ctx@, main, new_notional),
        ensures
            r == overexposed(ctx@, main, new_notional),
    {
        let unpaired = ctx.position.unpaired_cost(main);
        let active = ctx.active_notional(main);
        unpaired.plus(active).plus(new_notional).gt(ctx.pools.max_exposure)
    }

    /// Computes the price of a pair; there is none without an average of the main side or
    /// an ask of the other.
    pub fn pair_price(&self, ctx: &DecisionContext, main: Side) -> (r: Option<Price>)
        requires
            pairing_price_fits(self.cfg, ctx@, main),
        ensures
            r == pairing_price(self.cfg, ctx@, main),
    {
        proof {
            zero_value();
        }
        let main_avg = match ctx.position.average_price(main) {
            Some(price) => price,
            None => {
                return None;
            },
        };
        let opp_ask = match ctx.market.book(main.opposite()).best_ask {
            Some(ask) => ask,
            None => {
                return None;
            },
        };
        let by_profit = Decimal::one().minus(main_avg).minus(self.cfg.profit_margin);
        let raw = by_profit.min(opp_ask.minus(self.cfg.follow_offset));
        let price = ctx.constraints.quantize_price(raw);
        if price.gt(Decimal::zero()) {
            Some(price)
        } else {
            None
        }
    }

    /// The one price of the pair orders that rest, and their shares.
    fn pair_aggregate(&self, ctx: &DecisionContext, opp: Side) -> (r: Option<(Price, Qty)>)
        requires
            qty_of_fits(ctx@.active_orders, opp, None),
        ensures
            r == (match first_price(ctx@.active_orders, opp) {
                Some(price) => Some((price, qty_of(ctx@.active_orders, opp, None))),
                None => None,
            }),
    {
        let total = tally_qty(ctx.active_orders, opp, None);
        match find_first_price(ctx.active_orders, opp) {
            Some(price) => Some((price, total)),
            None => None,
        }
    }

    /// Adds the following bid to a decision.
    fn follow(&self, ctx: &DecisionContext, main: Side, decision: Decision) -> (r: Decision)
        requires
            follow_fits(self.cfg, ctx@, main),
        ensures
            r@ == (Choice {
                commands: decision@.commands + follow_commands(self.cfg, ctx@, main),
                freeze_main_field: decision@.freeze_main_field || follow_is_too_much(
                    self.cfg,
                    ctx@,
                    main,
                ),
                ..decision@
            }),
    {
        proof {
            zero_value();
            assert(decision@.commands + Seq::<CommandIntent>::empty() =~= decision@.commands);
        }
        if ctx.round.main_field_frozen {
            return decision;
        }
        let base_price = match find_lowest_price(ctx.active_orders, main) {
            Some(price) => price,
            None => match ctx.position.average_price(main) {
                Some(price) => price,
                None => Decimal::zero(),
            },
        };
        if base_price.le(Decimal::zero()) {
            return decision;
        }
        let price = ctx.constraints.quantize_price(base_price.minus(self.cfg.follow_offset));
        if price.le(Decimal::zero()) || ctx.has_active_order_at(main, price) {
            return decision;
        }
        let qty = ctx.constraints.quantize_qty(self.follow_qty(ctx, price));
        let notional = price.times(qty);
        if !ctx.constraints.is_satisfied(qty, price) {
            return decision;
        }
        let ghost before = decision@.commands;
        if self.exposure_would_exceed(ctx, main, notional) {
            let mut halted = decision.with(CommandIntent::CancelSide(main));
            halted.freeze_main_field = true;
            assert(halted@.commands =~= before + seq![CommandIntent::CancelSide(main)]);
            halted
        } else {
            let intent = CommandIntent::Submit(OrderIntent::maker_buy(main, price, qty));
            let followed = decision.with(intent);
            assert(followed@.commands =~= before + seq![intent]);
            followed
        }
    }

    /// Adds a pair order to a decision, where it meets the exchange's minimums.
    fn add_pair(
        &self,
        ctx: &DecisionContext,
        side: Side,
        price: Price,
        qty: Qty,
        decision: Decision,
    ) -> (r: Decision)
        requires
            ctx.constraints.allows_fits(qty, price),
        ensures
            r@ == (Choice {
                commands: decision@.commands + pair_order(ctx@, side, price, qty),
                ..decision@
            }),
    {
        let ghost before = decision@.commands;
        if ctx.constraints.is_satisfied(qty, price) {
            let intent = CommandIntent::Submit(OrderIntent::maker_buy(side, price, qty));
            let added = decision.with(intent);
            assert(added@.commands =~= before + seq![intent]);
            added
        } else {
            assert(before + Seq::<CommandIntent>::empty() =~= before);
            decision
        }
    }

    /// Adds to a decision what is to be done about the pair.
    fn pair(&self, ctx: &DecisionContext, main: Side, decision: Decision) -> (r: Decision)
        requires
            pair_fits(self.cfg, ctx@, main),
        ensures
            r@ == (Choice {
                commands: decision@.commands + pair_commands(self.cfg, ctx@, main),
                ..decision@
            }),
    {
        proof {
            zero_value();
            assert(decision@.commands + Seq::<CommandIntent>::empty() =~= decision@.commands);
        }
        let opp = main.opposite();
        let new_price = match self.pair_price(ctx, main) {
            Some(price) => price,
            None => {
                return decision;
            },
        };
        let gap = ctx.position.qty(main).minus(ctx.position.qty(opp));
        let target_qty = ctx.constraints.quantize_qty(gap.max(Decimal::zero()));
        match self.pair_aggregate(ctx, opp) {
            None => self.add_pair(ctx, opp, new_price, target_qty, decision),
            Some((cur_price, active_qty)) => {
                let price_diff = new_price.minus(cur_price).abs();
                if price_diff.gt(self.cfg.repair_tolerance) {
                    let ghost before = decision@.commands;
                    let cancelled = decision.with(CommandIntent::CancelSide(opp));
                    let r = self.add_pair(ctx, opp, new_price, target_qty, cancelled);
                    assert(r@.commands =~= before + (seq![CommandIntent::CancelSide(opp)]
                        + pair_order(ctx@, opp, new_price, target_qty)));
                    r
                } else {
                    let extra = ctx.constraints.quantize_qty(target_qty.minus(active_qty));
                    if extra.gt(Decimal::zero()) {
                        self.add_pair(ctx, opp, cur_price, extra, decision)
                    } else {
                        decision
                    }
                }
            },
        }
    }
}

impl PhaseStrategy for PairingStrategy {
    open spec fn ready(&self, ctx: Outlook) -> bool {
        ctx.round.main_field matches Some(main) ==> {
            &&& exit_fits(self.cfg, ctx)
            &&& (exit(self.cfg, ctx) is None && ctx.trigger == (Trigger::Fill { side: main })) ==> {
                &&& follow_fits(self.cfg, ctx, main)
                &&& pair_fits(self.cfg, ctx, main)
            }
        }
    }

    /// Reasons to leave come first. Then only a fill of the main side is answered: by a
    /// following bid and by the pair.
    open spec fn choice(&self, ctx: Outlook) -> Choice {
        match ctx.round.main_field {
            None => Choice::nothing(),
            Some(main) => match exit(self.cfg, ctx) {
                Some(choice) => choice,
                None => if ctx.trigger == (Trigger::Fill { side: main }) {
                    Choice {
                        commands: follow_commands(self.cfg, ctx, main) + pair_commands(
                            self.cfg,
                            ctx,
                            main,
                        ),
                        freeze_main_field: follow_is_too_much(self.cfg, ctx, main),
                        ..Choice::nothing()
                    }
                } else {
                    Choice::nothing()
                },
            },
        }
    }

    fn decide(&self, ctx: &DecisionContext) -> (r: Decision) {
        let main = match ctx.round.main_field {
            Some(side) => side,
            None => {
                return Decision::skip();
            },
        };
        if let Some(exit) = self.check_exits(ctx) {
            return exit;
        }
        if ctx.trigger != (Trigger::Fill { side: main }) {
            return Decision::skip();
        }
        let start = Decision::skip();
        let followed = self.follow(ctx, main, start);
        let r = self.pair(ctx, main, followed);
        assert(r@.commands =~= follow_commands(self.cfg, ctx@, main) + pair_commands(
            self.cfg,
            ctx@,
            main,
        ));
        r
    }
}

} // verus!
