//! The dynamic hedge: resting bids fill up the side that holds less, step by step and
//! never beyond the gap, until both sides are level.

use crate::decimal::laws::zero_value;
use crate::decimal::{dec, Decimal};
use crate::domain::state::RobotState;
use crate::domain::types::{Money, Price, Qty, Side};
use crate::hedging::config::{Rung, StrategyConfig};
use crate::hedging::context::{
    resting_bid, ActiveOrder, Choice, CommandIntent, Decision, DecisionContext, OrderIntent,
    Outlook, PhaseStrategy,
};
use crate::hedging::pairing::both_make;
use crate::hedging::tally::{notional_of, notional_of_fits, qty_of, qty_of_fits, tally_qty};
use vstd::prelude::*;

verus! {

/// The strategy of the dynamic hedge.
#[derive(Debug, Clone, Copy)]
pub struct DynamicHedgeStrategy {
    pub cfg: StrategyConfig,
}

/// How often both settlements have turned negative, counting a turn that just happened.
pub open spec fn double_negatives(ctx: Outlook) -> u8 {
    if ctx.position.loses_either_way() && !ctx.round.was_double_negative {
        (ctx.round.double_negative_count + 1) as u8
    } else {
        ctx.round.double_negative_count
    }
}

/// Whether that can be counted.
pub open spec fn double_negatives_fits(ctx: Outlook) -> bool {
    &&& ctx.position.both_settled_fits()
    &&& (ctx.position.loses_either_way() && !ctx.round.was_double_negative)
        ==> ctx.round.double_negative_count < u8::MAX
}

/// The side that holds less.
pub open spec fn shorter_side(ctx: Outlook) -> Option<Side> {
    if ctx.position.up_qty@ < ctx.position.down_qty@ {
        Some(Side::Up)
    } else if ctx.position.down_qty@ < ctx.position.up_qty@ {
        Some(Side::Down)
    } else {
        None
    }
}

/// The shares that a side lacks.
pub open spec fn gap_of(ctx: Outlook, side: Side) -> Qty {
    (ctx.position.shares(side.other()) - ctx.position.shares(side)).cut(
        ctx.constraints.size_scale as nat,
    )
}

/// Whether an order of a side rests too far from the best ask.
pub open spec fn is_sunk(
    config: StrategyConfig,
    ask: Price,
    side: Side,
    order: ActiveOrder,
) -> bool {
    order.side == side && (order.price - ask).absolute()@ > config.deep_sea_deviation@
}

/// The cancellations of the orders that rest too far from the best ask.
pub open spec fn sunk_orders(
    config: StrategyConfig,
    ask: Price,
    side: Side,
    orders: Seq<ActiveOrder>,
) -> Seq<CommandIntent>
    decreases orders.len(),
{
    if orders.len() == 0 {
        Seq::empty()
    } else {
        let before = sunk_orders(config, ask, side, orders.drop_last());
        if is_sunk(config, ask, side, orders.last()) {
            before.push(CommandIntent::Cancel(orders.last().order_id))
        } else {
            before
        }
    }
}

/// Whether that can be computed.
pub open spec fn sunk_orders_fits(ask: Price, side: Side, orders: Seq<ActiveOrder>) -> bool {
    forall|i: int|
        0 <= i < orders.len() && (#[trigger] orders[i]).side == side ==> orders[i].price.sub_fits(
            ask,
        )
}

/// The budget of one step.
pub open spec fn step_budget(config: StrategyConfig, ctx: Outlook) -> Money {
    ctx.pools.dynamic_remaining * config.dynamic_step_fraction
}

/// The price of a rung below an ask.
pub open spec fn rung_price(ctx: Outlook, ask: Price, rung: Rung) -> Price {
    (ask - rung.price_offset).cut(ctx.constraints.price_scale as nat)
}

/// The price of the first rung.
pub open spec fn top_price(config: StrategyConfig, ctx: Outlook, ask: Price) -> Price {
    rung_price(ctx, ask, config.dynamic_rungs@[0])
}

/// The shares that the budget of one step buys at the first rung.
pub open spec fn affordable(config: StrategyConfig, ctx: Outlook, ask: Price) -> Qty {
    step_budget(config, ctx) / top_price(config, ctx, ask)
}

/// The most shares of one step: what the budget buys, and no more than the gap less all
/// that rests already.
pub open spec fn step_cap(
    config: StrategyConfig,
    ctx: Outlook,
    side: Side,
    gap: Qty,
    ask: Price,
) -> Qty {
    (gap - qty_of(ctx.active_orders, side, None)).smaller(affordable(config, ctx, ask))
}

/// The shares, at most `cap`, that bring what rests at a price up to `target`.
pub open spec fn top_up(ctx: Outlook, side: Side, price: Price, target: Qty, cap: Qty) -> Qty {
    let resting = qty_of(ctx.active_orders, side, Some(price));
    let size = ctx.constraints.size_scale as nat;
    let missing = if target@ > resting@ {
        (target - resting).cut(size)
    } else {
        dec(0, 0)
    };
    if missing@ < cap@ {
        missing
    } else {
        cap.cut(size)
    }
}

/// Whether that can be computed, and judged against the exchange's minimums.
pub open spec fn top_up_fits(
    ctx: Outlook,
    side: Side,
    price: Price,
    target: Qty,
    cap: Qty,
) -> bool {
    let resting = qty_of(ctx.active_orders, side, Some(price));
    let more = top_up(ctx, side, price, target, cap);
    &&& qty_of_fits(ctx.active_orders, side, Some(price))
    &&& target@ > resting@ ==> target.sub_fits(resting)
    &&& more@ > 0real ==> ctx.constraints.allows_fits(more, price)
}

/// Whether a bid is placed: it has shares and meets the exchange's minimums.
pub open spec fn is_placed(ctx: Outlook, price: Price, qty: Qty) -> bool {
    qty@ > 0real && ctx.constraints.allows(qty, price)
}

/// The shares of a rung: its share of the step's budget.
pub open spec fn rung_target(config: StrategyConfig, ctx: Outlook, ask: Price, rung: Rung) -> Qty {
    (step_budget(config, ctx) * rung.step_fraction / rung_price(ctx, ask, rung)).cut(
        ctx.constraints.size_scale as nat,
    )
}

/// A ladder in the making: what may still be bid for, and the bids so far.
pub struct Weft {
    pub cap: Qty,
    pub commands: Seq<CommandIntent>,
}

/// The ladder after one more rung.
pub open spec fn with_rung(
    config: StrategyConfig,
    ctx: Outlook,
    side: Side,
    ask: Price,
    weft: Weft,
    rung: Rung,
) -> Weft {
    let price = rung_price(ctx, ask, rung);
    let qty = top_up(ctx, side, price, rung_target(config, ctx, ask, rung), weft.cap);
    if weft.cap@ <= 0real || price@ <= 0real || !is_placed(ctx, price, qty) {
        weft
    } else {
        Weft {
            cap: weft.cap - qty,
            commands: weft.commands.push(CommandIntent::Submit(resting_bid(side, price, qty))),
        }
    }
}

/// Whether one more rung can be computed.
pub open spec fn with_rung_fits(
    config: StrategyConfig,
    ctx: Outlook,
    side: Side,
    ask: Price,
    weft: Weft,
    rung: Rung,
) -> bool {
    let price = rung_price(ctx, ask, rung);
    let target = rung_target(config, ctx, ask, rung);
    let qty = top_up(ctx, side, price, target, weft.cap);
    weft.cap@ > 0real ==> {
        &&& ask.sub_fits(rung.price_offset)
        &&& price@ > 0real ==> {
            &&& step_budget(config, ctx).mul_fits(rung.step_fraction)
            &&& (step_budget(config, ctx) * rung.step_fraction).div_fits(price)
            &&& top_up_fits(ctx, side, price, target, weft.cap)
            &&& is_placed(ctx, price, qty) ==> weft.cap.sub_fits(qty)
        }
    }
}

/// The ladder after several rungs, starting with `cap`.
pub open spec fn with_rungs(
    config: StrategyConfig,
    ctx: Outlook,
    side: Side,
    ask: Price,
    cap: Qty,
    rungs: Seq<Rung>,
) -> Weft
    decreases rungs.len(),
{
    if rungs.len() == 0 {
        Weft { cap, commands: Seq::empty() }
    } else {
        with_rung(
            config,
            ctx,
            side,
            ask,
            with_rungs(config, ctx, side, ask, cap, rungs.drop_last()),
            rungs.last(),
        )
    }
}

/// Whether several rungs can be computed.
pub open spec fn with_rungs_fits(
    config: StrategyConfig,
    ctx: Outlook,
    side: Side,
    ask: Price,
    cap: Qty,
    rungs: Seq<Rung>,
) -> bool
    decreases rungs.len(),
{
    rungs.len() > 0 ==> {
        &&& with_rungs_fits(config, ctx, side, ask, cap, rungs.drop_last())
        &&& with_rung_fits(
            config,
            ctx,
            side,
            ask,
            with_rungs(config, ctx, side, ask, cap, rungs.drop_last()),
            rungs.last(),
        )
    }
}

/// The bids of one step: none where what rests covers the gap; all at the first rung
/// where the budget covers the gap; otherwise a ladder.
pub open spec fn woven(config: StrategyConfig, ctx: Outlook, side: Side, gap: Qty) -> Seq<
    CommandIntent,
> {
    match ctx.market.at(side).best_ask {
        None => Seq::empty(),
        Some(ask) => {
            let price = top_price(config, ctx, ask);
            let cap = step_cap(config, ctx, side, gap, ask);
            if gap@ <= qty_of(ctx.active_orders, side, None)@ || price@ <= 0real {
                Seq::empty()
            } else if gap@ <= affordable(config, ctx, ask)@ {
                let qty = top_up(ctx, side, price, gap, cap);
                if is_placed(ctx, price, qty) {
                    seq![CommandIntent::Submit(resting_bid(side, price, qty))]
                } else {
                    Seq::empty()
                }
            } else {
                with_rungs(config, ctx, side, ask, cap, config.dynamic_rungs@).commands
            }
        },
    }
}

/// Whether the bids of one step can be computed.
pub open spec fn woven_fits(config: StrategyConfig, ctx: Outlook, side: Side, gap: Qty) -> bool {
    let active = qty_of(ctx.active_orders, side, None);
    ctx.market.at(side).best_ask matches Some(ask) ==> {
        let price = top_price(config, ctx, ask);
        let cap = step_cap(config, ctx, side, gap, ask);
        &&& qty_of_fits(ctx.active_orders, side, None)
        &&& gap@ > active@ ==> {
            &&& gap.sub_fits(active)
            &&& ctx.pools.dynamic_remaining.mul_fits(config.dynamic_step_fraction)
            &&& ask.sub_fits(config.dynamic_rungs@[0].price_offset)
            &&& price@ > 0real ==> {
                &&& step_budget(config, ctx).div_fits(price)
                &&& if gap@ <= affordable(config, ctx, ask)@ {
                    top_up_fits(ctx, side, price, gap, cap)
                } else {
                    with_rungs_fits(config, ctx, side, ask, cap, config.dynamic_rungs@)
                }
            }
        }
    }
}

/// What some bids are worth, added up in order.
pub open spec fn bids_worth(commands: Seq<CommandIntent>) -> Money
    decreases commands.len(),
{
    if commands.len() == 0 {
        dec(0, 0)
    } else {
        let before = bids_worth(commands.drop_last());
        match commands.last() {
            CommandIntent::Submit(order) => before + order.price * order.qty,
            _ => before,
        }
    }
}

/// Whether that can be added up.
pub open spec fn bids_worth_fits(commands: Seq<CommandIntent>) -> bool
    decreases commands.len(),
{
    commands.len() > 0 ==> {
        &&& bids_worth_fits(commands.drop_last())
        &&& commands.last() matches CommandIntent::Submit(order) ==> {
            &&& order.price.mul_fits(order.qty)
            &&& bids_worth(commands.drop_last()).add_fits(order.price * order.qty)
        }
    }
}

/// Whether a side would be exposed too much: its cost, its resting orders and new ones.
pub open spec fn too_exposed(ctx: Outlook, side: Side, notional: Money) -> bool {
    (ctx.position.spent(side) + notional_of(ctx.active_orders, side) + notional)@
        > ctx.pools.max_exposure@
}

/// Whether that can be computed.
pub open spec fn too_exposed_fits(ctx: Outlook, side: Side, notional: Money) -> bool {
    let active = notional_of(ctx.active_orders, side);
    &&& notional_of_fits(ctx.active_orders, side)
    &&& ctx.position.spent(side).add_fits(active)
    &&& (ctx.position.spent(side) + active).add_fits(notional)
}

/// Once both sides are level: done if both settlements make enough, idle otherwise.
pub open spec fn done_or_idle(config: StrategyConfig, ctx: Outlook) -> Choice {
    if both_make(ctx, config.dynamic_escape) {
        Choice::leaving(RobotState::SettlementWait)
    } else {
        Choice::nothing()
    }
}

/// The shares by which the two sides differ.
pub open spec fn imbalance(ctx: Outlook) -> Qty {
    (ctx.position.up_qty - ctx.position.down_qty).absolute()
}

/// Whether the loss is repaired and the two sides differ by less than one order.
pub open spec fn is_repaired(config: StrategyConfig, ctx: Outlook) -> bool {
    &&& ctx.position.settled(Side::Up).smaller(ctx.position.settled(Side::Down))@ >= (
    config.repair_target * ctx.total_capital)@
    &&& !ctx.constraints.allows(imbalance(ctx), dec(1, 0))
}

/// The shares of a step that the budget buys, in the exchange's digits.
pub open spec fn affordable_lot(config: StrategyConfig, ctx: Outlook, ask: Price) -> Qty {
    affordable(config, ctx, ask).cut(ctx.constraints.size_scale as nat)
}

/// Whether the gap of a side is too small for an order at the first rung.
pub open spec fn gap_is_dust(config: StrategyConfig, ctx: Outlook, side: Side, ask: Price) -> bool {
    ||| gap_of(ctx, side)@ <= 0real
    ||| top_price(config, ctx, ask)@ <= 0real
    ||| !ctx.constraints.allows(gap_of(ctx, side), top_price(config, ctx, ask))
}

/// One step for a side: nothing without an ask; done or idle where the gap is dust; the
/// end of the hedge where the budget buys no order; otherwise the sunk orders are
/// cancelled and the step is placed, unless it would expose the side too much.
pub open spec fn step(config: StrategyConfig, ctx: Outlook, side: Side) -> Choice {
    match ctx.market.at(side).best_ask {
        None => Choice::nothing(),
        Some(ask) => {
            let sunk = sunk_orders(config, ask, side, ctx.active_orders);
            let bids = woven(config, ctx, side, gap_of(ctx, side));
            if gap_is_dust(config, ctx, side, ask) {
                done_or_idle(config, ctx)
            } else if !ctx.constraints.allows(
                affordable_lot(config, ctx, ask),
                top_price(config, ctx, ask),
            ) {
                Choice {
                    mark_funds_exhausted: true,
                    ..Choice::doing(seq![CommandIntent::CancelAll])
                }
            } else if too_exposed(ctx, side, bids_worth(bids)) {
                Choice::doing(sunk)
            } else {
                Choice::doing(sunk + bids)
            }
        },
    }
}

/// Whether one step can be computed.
pub open spec fn step_fits(config: StrategyConfig, ctx: Outlook, side: Side) -> bool {
    &&& ctx.position.shares(side.other()).sub_fits(ctx.position.shares(side))
    &&& ctx.market.at(side).best_ask matches Some(ask) ==> {
        let price = top_price(config, ctx, ask);
        let bids = woven(config, ctx, side, gap_of(ctx, side));
        &&& ask.sub_fits(config.dynamic_rungs@[0].price_offset)
        &&& (gap_of(ctx, side)@ > 0real && price@ > 0real) ==> ctx.constraints.allows_fits(
            gap_of(ctx, side),
            price,
        )
        &&& !gap_is_dust(config, ctx, side, ask) ==> {
            &&& ctx.pools.dynamic_remaining.mul_fits(config.dynamic_step_fraction)
            &&& step_budget(config, ctx).div_fits(price)
            &&& ctx.constraints.allows_fits(affordable_lot(config, ctx, ask), price)
            &&& ctx.constraints.allows(affordable_lot(config, ctx, ask), price) ==> {
                &&& sunk_orders_fits(ask, side, ctx.active_orders)
                &&& woven_fits(config, ctx, side, gap_of(ctx, side))
                &&& bids_worth_fits(bids)
                &&& too_exposed_fits(ctx, side, bids_worth(bids))
            }
        }
    }
}

/// The decision once the global reasons are past: two double negatives lead to the
/// expected-value hedge; a repaired position is done or idle; during the pause nothing
/// happens; otherwise one step for the side that holds less.
pub open spec fn hedge(config: StrategyConfig, ctx: Outlook) -> Choice {
    if double_negatives(ctx) >= 2 {
        Choice::leaving(RobotState::EvHedge)
    } else if is_repaired(config, ctx) {
        done_or_idle(config, ctx)
    } else if ctx.cooling(config.dynamic_cooldown) {
        Choice::nothing()
    } else {
        match shorter_side(ctx) {
            None => done_or_idle(config, ctx),
            Some(side) => step(config, ctx, side),
        }
    }
}

/// Whether that can be computed.
pub open spec fn hedge_fits(config: StrategyConfig, ctx: Outlook) -> bool {
    &&& double_negatives_fits(ctx)
    &&& double_negatives(ctx) < 2 ==> {
        &&& config.repair_target.mul_fits(ctx.total_capital)
        &&& ctx.position.up_qty.sub_fits(ctx.position.down_qty)
        &&& ctx.constraints.allows_fits(imbalance(ctx), dec(1, 0))
        &&& (!is_repaired(config, ctx) && !ctx.cooling(config.dynamic_cooldown)) ==> (shorter_side(
            ctx,
        ) matches Some(side) ==> step_fits(config, ctx, side))
    }
}

impl DynamicHedgeStrategy {
    /// A strategy with these parameters.
    pub fn new(cfg: StrategyConfig) -> (r: Self)
        ensures
            r.cfg == cfg,
    {
        Self { cfg }
    }

    /// Counts how often both settlements have turned negative, and tells whether they
    /// are now.
    fn edge_triggered_count(&self, ctx: &DecisionContext) -> (r: (u8, bool))
        requires
            double_negatives_fits(ctx@),
        ensures
            r == (double_negatives(ctx@), ctx@.position.loses_either_way()),
    {
        let base = ctx.round.double_negative_count;
        let was = ctx.round.was_double_negative;
        let current = ctx.position.both_sides_settle_negative();
        let count: u8 = if current && !was {
            base + 1
        } else {
            base
        };
        (count, current)
    }

    /// Finds the side that holds less.
    fn target_side(ctx: &DecisionContext) -> (r: Option<Side>)
        ensures
            r == shorter_side(ctx@),
    {
        let up = ctx.position.up_qty;
        let down = ctx.position.down_qty;
        if up.lt(down) {
            Some(Side::Up)
        } else if down.lt(up) {
            Some(Side::Down)
        } else {
            None
        }
    }

    /// Cancels the orders that rest too far from the best ask.
    fn deep_sea_orders(&self, ctx: &DecisionContext, side: Side, ask: Price) -> (r: Decision)
        requires
            sunk_orders_fits(ask, side, ctx@.active_orders),
        ensures
            r@ == Choice::doing(sunk_orders(self.cfg, ask, side, ctx@.active_orders)),
    {
        let mut decision = Decision::skip();
        let mut i: usize = 0;
        let ghost orders = ctx@.active_orders;
        proof {
            assert(orders.take(0) =~= Seq::<ActiveOrder>::empty());
        }
        while i < ctx.active_orders.len()
            invariant
                i <= orders.len(),
                orders == ctx@.active_orders,
                sunk_orders_fits(ask, side, orders),
                decision@ == Choice::doing(
                    sunk_orders(self.cfg, ask, side, orders.take(i as int)),
                ),
            decreases orders.len() - i,
        {
            proof {
                assert(orders.take(i as int + 1).drop_last() =~= orders.take(i as int));
            }
            let order = ctx.active_orders[i];
            assert(order == orders[i as int]);
            if order.side == side && order.price.minus(ask).abs().gt(self.cfg.deep_sea_deviation) {
                decision = decision.with(CommandIntent::Cancel(order.order_id));
            }
            i += 1;
        }
        proof {
            assert(orders.take(orders.len() as int) =~= orders);
        }
        decision
    }

    /// The shares that rest for a side at a price.
    fn active_qty_at(&self, ctx: &DecisionContext, side: Side, price: Price) -> (r: Qty)
        requires
            qty_of_fits(ctx@.active_orders, side, Some(price)),
        ensures
            r == qty_of(ctx@.active_orders, side, Some(price)),
    {
        tally_qty(ctx.active_orders, side, Some(price))
    }

    /// Computes the shares, at most `cap`, that bring what rests at a price up to
    /// `target`.
    fn increment(
        &self,
        ctx: &DecisionContext,
        side: Side,
        price: Price,
        target: Qty,
        cap: Qty,
    ) -> (r: Qty)
        requires
            top_up_fits(ctx@, side, price, target, cap),
        ensures
            r == top_up(ctx@, side, price, target, cap),
    {
        let resting = self.active_qty_at(ctx, side, price);
        let missing = if target.gt(resting) {
            ctx.constraints.quantize_qty(target.minus(resting))
        } else {
            Decimal::zero()
        };
        if missing.lt(cap) {
            missing
        } else {
            ctx.constraints.quantize_qty(cap)
        }
    }

    /// Places the ladder of one step.
    fn weave_rungs(&self, ctx: &DecisionContext, side: Side, ask: Price, cap: Qty) -> (r: Vec<
        CommandIntent,
    >)
        requires
            ctx.pools.dynamic_remaining.mul_fits(self.cfg.dynamic_step_fraction),
            with_rungs_fits(self.cfg, ctx@, side, ask, cap, self.cfg.dynamic_rungs@),
        ensures
            r@ == with_rungs(
                self.cfg,
                ctx@,
                side,
                ask,
                cap,
                self.cfg.dynamic_rungs@,
            ).commands,
    {
        let budget = ctx.pools.dynamic_remaining.times(self.cfg.dynamic_step_fraction);
        let ghost rungs = self.cfg.dynamic_rungs@;
        let mut commands: Vec<CommandIntent> = Vec::new();
        let mut remaining_cap = cap;
        let mut i: usize = 0;
        proof {
            zero_value();
            assert(rungs.take(0) =~= Seq::<Rung>::empty());
        }
        while i < 3
            invariant
                i <= 3,
                rungs == self.cfg.dynamic_rungs@,
                rungs.len() == 3,
                dec(0, 0)@ == 0real,
                budget == step_budget(self.cfg, ctx@),
                with_rungs_fits(self.cfg, ctx@, side, ask, cap, rungs),
                (Weft { cap: remaining_cap, commands: commands@ }) == with_rungs(
                    self.cfg,
                    ctx@,
                    side,
                    ask,
                    cap,
                    rungs.take(i as int),
                ),
            decreases 3 - i,
        {
            proof {
                lemma_rungs_fit_prefix(self.cfg, ctx@, side, ask, cap, rungs, i as int + 1);
                assert(rungs.take(i as int + 1).drop_last() =~= rungs.take(i as int));
            }
            let rung = self.cfg.dynamic_rungs[i];
            if remaining_cap.gt(Decimal::zero()) {
                let price = ctx.constraints.quantize_price(ask.minus(rung.price_offset));
                if price.gt(Decimal::zero()) {
                    let rung_budget = budget.times(rung.step_fraction);
                    let target = ctx.constraints.quantize_qty(rung_budget.over(price));
                    let actual = self.increment(ctx, side, price, target, remaining_cap);
                    if actual.gt(Decimal::zero()) && ctx.constraints.is_satisfied(actual, price) {
                        commands.push(
                            CommandIntent::Submit(OrderIntent::maker_buy(side, price, actual)),
                        );
                        remaining_cap = remaining_cap.minus(actual);
                    }
                }
            }
            i += 1;
        }
        proof {
            assert(rungs.take(3) =~= rungs);
        }
        commands
    }

    /// Computes the bids of one step.
    pub fn weave(&self, ctx: &DecisionContext, side: Side, gap: Qty) -> (r: Vec<CommandIntent>)
        requires
            woven_fits(self.cfg, ctx@, side, gap),
        ensures
            r@ == woven(self.cfg, ctx@, side, gap),
    {
        proof {
            zero_value();
        }
        let best_ask = match ctx.market.book(side).best_ask {
            Some(ask) => ask,
            None => {
                return Vec::new();
            },
        };
        let total_active = tally_qty(ctx.active_orders, side, None);
        if gap.le(total_active) {
            return Vec::new();
        }
        let macro_available = gap.minus(total_active);
        let budget = ctx.pools.dynamic_remaining.times(self.cfg.dynamic_step_fraction);
        let first_price = ctx.constraints.quantize_price(
            best_ask.minus(self.cfg.dynamic_rungs[0].price_offset),
        );
        if first_price.le(Decimal::zero()) {
            return Vec::new();
        }
        let budget_qty = budget.over(first_price);
        let cap = macro_available.min(budget_qty);
        if gap.le(budget_qty) {
            let mut commands: Vec<CommandIntent> = Vec::new();
            let increment = self.increment(ctx, side, first_price, gap, cap);
            if increment.gt(Decimal::zero()) && ctx.constraints.is_satisfied(
                increment,
                first_price,
            ) {
                let intent = CommandIntent::Submit(
                    OrderIntent::maker_buy(side, first_price, increment),
                );
                commands.push(intent);
                assert(commands@ =~= seq![intent]);
            }
            return commands;
        }
        self.weave_rungs(ctx, side, best_ask, cap)
    }

    /// Tells whether a side would be exposed too much.
    fn exposure_would_exceed(&self, ctx: &DecisionContext, side: Side, new_notional: Money) -> (r:
        bool)
        requires
            too_exposed_fits(ctx@, side, new_notional),
        ensures
            r == too_exposed(ctx@, side, new_notional),
    {
        let held = ctx.position.cost(side);
        let active = ctx.active_notional(side);
        held.plus(active).plus(new_notional).gt(ctx.pools.max_exposure)
    }

    /// Tells whether both settlements make enough.
    fn escapes(&self, ctx: &DecisionContext) -> (r: bool)
        requires
            self.cfg.dynamic_escape.mul_fits(ctx.total_capital),
            ctx@.position.both_settled_fits(),
        ensures
            r == both_make(ctx@, self.cfg.dynamic_escape),
    {
        let escape = self.cfg.dynamic_escape.times(ctx.total_capital);
        let up = ctx.position.settle_pnl(Side::Up);
        let down = ctx.position.settle_pnl(Side::Down);
        up.ge(escape) && down.ge(escape)
    }

    /// Done if both settlements make enough, idle otherwise.
    fn settle_or_idle(&self, ctx: &DecisionContext) -> (r: Decision)
        requires
            self.cfg.dynamic_escape.mul_fits(ctx.total_capital),
            ctx@.position.both_settled_fits(),
        ensures
            r@ == done_or_idle(self.cfg, ctx@),
    {
        if self.escapes(ctx) {
            Decision::leave(RobotState::SettlementWait)
        } else {
            Decision::skip()
        }
    }

    /// Takes one step for a side.
    fn take_step(&self, ctx: &DecisionContext, target: Side) -> (r: Decision)
        requires
            self.cfg.dynamic_escape.mul_fits(ctx.total_capital),
            ctx@.position.both_settled_fits(),
            step_fits(self.cfg, ctx@, target),
        ensures
            r@ == step(self.cfg, ctx@, target),
    {
        proof {
            zero_value();
        }
        let gap = ctx.constraints.quantize_qty(
            ctx.position.qty(target.opposite()).minus(ctx.position.qty(target)),
        );
        let best_ask = match ctx.market.book(target).best_ask {
            Some(ask) => ask,
            None => {
                return Decision::skip();
            },
        };
        let first_price = ctx.constraints.quantize_price(
            best_ask.minus(self.cfg.dynamic_rungs[0].price_offset),
        );
        if gap.le(Decimal::zero()) || first_price.le(Decimal::zero())
            || !ctx.constraints.is_satisfied(gap, first_price) {
            return self.settle_or_idle(ctx);
        }
        let budget = ctx.pools.dynamic_remaining.times(self.cfg.dynamic_step_fraction);
        let budget_qty = ctx.constraints.quantize_qty(budget.over(first_price));
        if !ctx.constraints.is_satisfied(budget_qty, first_price) {
            let mut exhausted = Decision::skip().with(CommandIntent::CancelAll);
            exhausted.mark_funds_exhausted = true;
            assert(exhausted@.commands =~= seq![CommandIntent::CancelAll]);
            return exhausted;
        }
        let mut decision = self.deep_sea_orders(ctx, target, best_ask);
        let mut bids = self.weave(ctx, target, gap);
        let new_notional = worth_of(&bids);
        if self.exposure_would_exceed(ctx, target, new_notional) {
            return decision;
        }
        decision.commands.append(&mut bids);
        decision
    }
}

/// Adds up what some bids are worth.
fn worth_of(commands: &Vec<CommandIntent>) -> (r: Money)
    requires
        bids_worth_fits(commands@),
    ensures
        r == bids_worth(commands@),
{
    let mut sum = Decimal::zero();
    let mut i: usize = 0;
    proof {
        assert(commands@.take(0) =~= Seq::<CommandIntent>::empty());
    }
    while i < commands.len()
        invariant
            i <= commands@.len(),
            bids_worth_fits(commands@),
            sum == bids_worth(commands@.take(i as int)),
        decreases commands@.len() - i,
    {
        proof {
            lemma_worth_fits_prefix(commands@, i as int + 1);
            assert(commands@.take(i as int + 1).drop_last() =~= commands@.take(i as int));
        }
        if let CommandIntent::Submit(order) = commands[i] {
            sum = sum.plus(order.price.times(order.qty));
        }
        i += 1;
    }
    proof {
        assert(commands@.take(commands@.len() as int) =~= commands@);
    }
    sum
}

impl PhaseStrategy for DynamicHedgeStrategy {
    open spec fn ready(&self, ctx: Outlook) -> bool {
        &&& self.cfg.dynamic_escape.mul_fits(ctx.total_capital)
        &&& ctx.position.both_settled_fits()
        &&& (!both_make(ctx, self.cfg.dynamic_escape) && !ctx.round.funds_exhausted)
            ==> hedge_fits(self.cfg, ctx)
    }

    /// Once both settlements make enough, the hedge is over. Once the funds ran out,
    /// nothing more is done. Otherwise it goes on, and the count of double negatives
    /// is brought up to date.
    open spec fn choice(&self, ctx: Outlook) -> Choice {
        if both_make(ctx, self.cfg.dynamic_escape) {
            Choice::leaving(RobotState::SettlementWait)
        } else if ctx.round.funds_exhausted {
            Choice::nothing()
        } else {
            hedge(self.cfg, ctx).counting(double_negatives(ctx), ctx.position.loses_either_way())
        }
    }

    fn decide(&self, ctx: &DecisionContext) -> (r: Decision) {
        if self.escapes(ctx) {
            return Decision::leave(RobotState::SettlementWait);
        }
        if ctx.round.funds_exhausted {
            return Decision::skip();
        }
        let (next_count, current_is_dn) = self.edge_triggered_count(ctx);
        if next_count >= 2 {
            return Decision::leave(RobotState::EvHedge).with_dn_update(next_count, current_is_dn);
        }
        let up_settle = ctx.position.settle_pnl(Side::Up);
        let down_settle = ctx.position.settle_pnl(Side::Down);
        let worst = up_settle.min(down_settle);
        let repair = self.cfg.repair_target.times(ctx.total_capital);
        let gap_qty = ctx.position.up_qty.minus(ctx.position.down_qty).abs();
        let gap_is_flat = !ctx.constraints.is_satisfied(gap_qty, Decimal::one());
        if worst.ge(repair) && gap_is_flat {
            return self.settle_or_idle(ctx).with_dn_update(next_count, current_is_dn);
        }
        if ctx.in_cooldown(self.cfg.dynamic_cooldown) {
            return Decision::skip().with_dn_update(next_count, current_is_dn);
        }
        match Self::target_side(ctx) {
            None => self.settle_or_idle(ctx).with_dn_update(next_count, current_is_dn),
            Some(target) => self.take_step(ctx, target).with_dn_update(next_count, current_is_dn),
        }
    }
}

proof fn lemma_rungs_fit_prefix(
    config: StrategyConfig,
    ctx: Outlook,
    side: Side,
    ask: Price,
    cap: Qty,
    rungs: Seq<Rung>,
    n: int,
)
    requires
        0 <= n <= rungs.len(),
        with_rungs_fits(config, ctx, side, ask, cap, rungs),
    ensures
        with_rungs_fits(config, ctx, side, ask, cap, rungs.take(n)),
    decreases rungs.len(),
{
    if n < rungs.len() {
        lemma_rungs_fit_prefix(config, ctx, side, ask, cap, rungs.drop_last(), n);
        assert(rungs.drop_last().take(n) =~= rungs.take(n));
    } else {
        assert(rungs.take(n) =~= rungs);
    }
}

proof fn lemma_worth_fits_prefix(commands: Seq<CommandIntent>, n: int)
    requires
        0 <= n <= commands.len(),
        bids_worth_fits(commands),
    ensures
        bids_worth_fits(commands.take(n)),
    decreases commands.len(),
{
    if n < commands.len() {
        lemma_worth_fits_prefix(commands.drop_last(), n);
        assert(commands.drop_last().take(n) =~= commands.take(n));
    } else {
        assert(commands.take(n) =~= commands);
    }
}

} // verus!
