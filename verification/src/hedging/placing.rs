//! What the hedging strategies place and cancel, told by the fields of what they see.

use crate::decimal::laws::{cutting_keeps_the_sign, cutting_rounds_down, rounding_is_valid, zero_value};
use crate::decimal::model::{lemma_pow10_positive, pow10, MANTISSA_LIMIT};
use crate::decimal::dec;
use crate::domain::market::{BookTop, MarketSnapshot};
use crate::domain::order::{OrderDirection, TimeInForce};
use crate::domain::pnl::PositionSnapshot;
use crate::domain::state::RobotState;
use crate::domain::types::{Money, OrderRole, Price, Qty, Side};
use crate::hedging::building::{ladder, BuildingStrategy};
use crate::hedging::config::{Rung, StrategyConfig};
use crate::hedging::context::{ActiveOrder, CommandIntent, OrderIntent, Outlook, PhaseStrategy};
use crate::hedging::dynamic_hedge::{
    bids_worth, gap_of, hedge, is_placed, rung_price, shorter_side, step, step_cap, sunk_orders,
    top_price, with_rungs, woven, DynamicHedgeStrategy,
};
use crate::hedging::ev_hedge::EvHedgeStrategy;
use crate::hedging::laws::{asked_for, hedging_never_overshoots, lemma_resting_value, resting_value};
use crate::hedging::tally::{notional_of, qty_of};
use vstd::prelude::*;

verus! {

/// The shares that a position holds of a side.
pub open spec fn held(position: PositionSnapshot, side: Side) -> Qty {
    if side == Side::Up {
        position.up_qty
    } else {
        position.down_qty
    }
}

/// What the shares of a side cost.
pub open spec fn paid(position: PositionSnapshot, side: Side) -> Money {
    if side == Side::Up {
        position.up_cost
    } else {
        position.down_cost
    }
}

/// The book of a side.
pub open spec fn top_of(market: MarketSnapshot, side: Side) -> BookTop {
    if side == Side::Up {
        market.up
    } else {
        market.down
    }
}

/// The side across.
pub open spec fn across(side: Side) -> Side {
    if side == Side::Up {
        Side::Down
    } else {
        Side::Up
    }
}

/// What a position makes if a side wins: a dollar per share of it, less all that was paid.
pub open spec fn outcome(position: PositionSnapshot, winner: Side) -> Money {
    held(position, winner) - (position.up_cost + position.down_cost)
}

/// Whether an order is a bid that rests.
pub open spec fn is_maker_bid(order: OrderIntent) -> bool {
    &&& order.direction == OrderDirection::Buy
    &&& order.role == OrderRole::Maker
    &&& order.time_in_force == TimeInForce::Gtc
}

/// Whether an order meets the minimums of the exchange.
pub open spec fn is_large_enough(ctx: Outlook, order: OrderIntent) -> bool {
    &&& order.qty@ >= ctx.constraints.min_order_size@
    &&& (order.qty * order.price)@ >= ctx.constraints.min_notional@
}

/// Whether nothing is rounded when the gap of a side is taken, its resting orders are added
/// up and taken off, and shares of that size can be written with the exchange's digits.
pub open spec fn shortfall_is_exact(ctx: Outlook, side: Side) -> bool {
    let more = held(ctx.position, across(side));
    let less = held(ctx.position, side);
    let size = ctx.constraints.size_scale as nat;
    let active = qty_of(ctx.active_orders, side, None);
    &&& size <= 28
    &&& (more - less)@ == more@ - less@
    &&& active@ == resting_value(ctx.active_orders, side)
    &&& ((more - less).cut(size) - active)@ == (more - less).cut(size)@ - active@
    &&& (more - less)@ * (pow10(size) as real) < MANTISSA_LIMIT as real
}

/// Every bid of the dynamic hedge is for the side that holds less, and all of them,
/// together with what rests for that side and what is held of it, never pass what is held
/// of the other side; nor do they ask for more shares than the step's part of what is left
/// of the pool buys at the first rung. Nothing may be rounded on the way.
pub proof fn hedges_never_pass_the_other_side(ctx: Outlook, config: StrategyConfig, i: int)
    requires
        (DynamicHedgeStrategy { cfg: config }).ready(ctx),
        0 <= i < (DynamicHedgeStrategy { cfg: config }).choice(ctx).commands.len(),
        (DynamicHedgeStrategy { cfg: config }).choice(ctx).commands[i] is Submit,
        forall|k: int|
            0 <= k < ctx.active_orders.len() ==> (#[trigger] ctx.active_orders[k]).qty@ >= 0real,
        ({
            let order = (DynamicHedgeStrategy { cfg: config }).choice(ctx).commands[i]->Submit_0;
            shortfall_is_exact(ctx, order.side)
        }),
    ensures
        ({
            let commands = (DynamicHedgeStrategy { cfg: config }).choice(ctx).commands;
            let side = commands[i]->Submit_0.side;
            let ask = top_of(ctx.market, side).best_ask;
            &&& held(ctx.position, side)@ < held(ctx.position, across(side))@
            &&& asked_for(commands) + resting_value(ctx.active_orders, side) + held(
                ctx.position,
                side,
            )@ <= held(ctx.position, across(side))@
            &&& ask is Some
            &&& asked_for(commands) <= (ctx.pools.dynamic_remaining * config.dynamic_step_fraction
                / (ask->0 - config.dynamic_rungs@[0].price_offset).cut(
                ctx.constraints.price_scale as nat,
            ))@
        }),
{
    let commands = (DynamicHedgeStrategy { cfg: config }).choice(ctx).commands;
    let side = shorter_side(ctx)->0;
    let ask = top_of(ctx.market, side).best_ask->0;
    let bids = woven(config, ctx, side, gap_of(ctx, side));
    let sunk = sunk_orders(config, ask, side, ctx.active_orders);
    lemma_stepping(ctx, config, i);
    lemma_sunk_are_cancelled(config, ask, side, ctx.active_orders);
    lemma_asked_for(sunk, bids);
    lemma_woven_side(config, ctx, side, gap_of(ctx, side));
    assert(commands[i] == bids[i - sunk.len()]);
    assert(commands[i]->Submit_0.side == side);
    let more = held(ctx.position, across(side));
    let less = held(ctx.position, side);
    let size = ctx.constraints.size_scale as nat;
    let gap = gap_of(ctx, side);
    let active = qty_of(ctx.active_orders, side, None);
    assert(gap == (more - less).cut(size));
    rounding_is_valid(more@ - less@);
    cutting_rounds_down(more - less, size);
    lemma_resting_value(ctx.active_orders, side);
    let cap = step_cap(config, ctx, side, gap, ask);
    assert(cap@ <= (gap - active)@);
    assert(cap@ <= (more - less)@);
    lemma_pow10_positive(size);
    let p = pow10(size) as real;
    let c = cap@;
    let d = (more - less)@;
    assert(c * p <= d * p) by (nonlinear_arith)
        requires
            c <= d,
            p > 0real,
    ;
    hedging_never_overshoots(config, ctx, side, gap);
    assert(gap@ > active@) by {
        if gap@ <= active@ {
            assert(bids =~= Seq::<CommandIntent>::empty());
        }
    }
    assert(bids.len() > 0);
}

/// Every bid of the dynamic hedge rests below the ask of its own side, by the offset of one
/// of the rungs and cut to the exchange's digits, and meets the exchange's minimums.
pub proof fn hedges_rest_below_their_own_ask(ctx: Outlook, config: StrategyConfig, i: int)
    requires
        0 <= i < (DynamicHedgeStrategy { cfg: config }).choice(ctx).commands.len(),
        (DynamicHedgeStrategy { cfg: config }).choice(ctx).commands[i] is Submit,
    ensures
        ({
            let order = (DynamicHedgeStrategy { cfg: config }).choice(ctx).commands[i]->Submit_0;
            &&& is_maker_bid(order)
            &&& is_large_enough(ctx, order)
            &&& order.qty@ > 0real
            &&& order.price@ > 0real
            &&& top_of(ctx.market, order.side).best_ask matches Some(ask) && exists|k: int|
                0 <= k < 3 && order.price == (ask - (
                #[trigger] config.dynamic_rungs@[k]).price_offset).cut(
                    ctx.constraints.price_scale as nat,
                )
        }),
{
    let commands = (DynamicHedgeStrategy { cfg: config }).choice(ctx).commands;
    let side = shorter_side(ctx)->0;
    let ask = top_of(ctx.market, side).best_ask->0;
    let gap = gap_of(ctx, side);
    let bids = woven(config, ctx, side, gap);
    let sunk = sunk_orders(config, ask, side, ctx.active_orders);
    lemma_stepping(ctx, config, i);
    lemma_sunk_are_cancelled(config, ask, side, ctx.active_orders);
    let at = i - sunk.len();
    assert(commands[i] == bids[at]);
    if gap@ <= crate::hedging::dynamic_hedge::affordable(config, ctx, ask)@ {
        assert(config.dynamic_rungs@[0] == config.dynamic_rungs@[0]);
        assert(commands[i]->Submit_0.price == rung_price(ctx, ask, config.dynamic_rungs@[0]));
    } else {
        let cap = step_cap(config, ctx, side, gap, ask);
        let k = lemma_rung_of(config, ctx, side, ask, cap, config.dynamic_rungs@, at);
        assert(commands[i]->Submit_0.price == rung_price(ctx, ask, config.dynamic_rungs@[k]));
    }
}

/// Where the dynamic hedge places bids, the side they are for is not exposed beyond its
/// limit: what it cost, what rests for it and the new bids together.
pub proof fn hedges_stay_within_the_exposure(ctx: Outlook, config: StrategyConfig, i: int)
    requires
        0 <= i < (DynamicHedgeStrategy { cfg: config }).choice(ctx).commands.len(),
        (DynamicHedgeStrategy { cfg: config }).choice(ctx).commands[i] is Submit,
    ensures
        ({
            let commands = (DynamicHedgeStrategy { cfg: config }).choice(ctx).commands;
            let side = commands[i]->Submit_0.side;
            (paid(ctx.position, side) + notional_of(ctx.active_orders, side) + bids_worth(
                commands,
            ))@ <= ctx.pools.max_exposure@
        }),
{
    let side = shorter_side(ctx)->0;
    let ask = top_of(ctx.market, side).best_ask->0;
    let bids = woven(config, ctx, side, gap_of(ctx, side));
    let sunk = sunk_orders(config, ask, side, ctx.active_orders);
    lemma_stepping(ctx, config, i);
    lemma_sunk_are_cancelled(config, ask, side, ctx.active_orders);
    lemma_bids_worth(sunk, bids);
    lemma_woven_side(config, ctx, side, gap_of(ctx, side));
    assert((DynamicHedgeStrategy { cfg: config }).choice(ctx).commands[i] == bids[i - sunk.len()]);
}

/// When the dynamic hedge places bids for a side, it cancels exactly those resting orders
/// of that side that are further from the side's ask than the limit.
pub proof fn hedges_cancel_what_is_sunk(ctx: Outlook, config: StrategyConfig, i: int, j: int)
    requires
        0 <= i < (DynamicHedgeStrategy { cfg: config }).choice(ctx).commands.len(),
        (DynamicHedgeStrategy { cfg: config }).choice(ctx).commands[i] is Submit,
        0 <= j < ctx.active_orders.len(),
    ensures
        ({
            let commands = (DynamicHedgeStrategy { cfg: config }).choice(ctx).commands;
            let side = commands[i]->Submit_0.side;
            let ask = top_of(ctx.market, side).best_ask->0;
            let order = ctx.active_orders[j];
            &&& order.side == side && (order.price - ask).absolute()@ > config.deep_sea_deviation@
                ==> commands.contains(CommandIntent::Cancel(order.order_id))
            &&& forall|k: int|
                0 <= k < commands.len() ==> ((#[trigger] commands[k]) matches CommandIntent::Cancel(
                    order_id,
                ) ==> exists|l: int|
                    0 <= l < ctx.active_orders.len() && (
                    #[trigger] ctx.active_orders[l]).order_id == order_id
                        && ctx.active_orders[l].side == side && (ctx.active_orders[l].price
                        - ask).absolute()@ > config.deep_sea_deviation@)
        }),
{
    let commands = (DynamicHedgeStrategy { cfg: config }).choice(ctx).commands;
    let side = shorter_side(ctx)->0;
    let ask = top_of(ctx.market, side).best_ask->0;
    let bids = woven(config, ctx, side, gap_of(ctx, side));
    let sunk = sunk_orders(config, ask, side, ctx.active_orders);
    lemma_stepping(ctx, config, i);
    lemma_sunk_are_cancelled(config, ask, side, ctx.active_orders);
    lemma_woven_side(config, ctx, side, gap_of(ctx, side));
    assert(commands[i] == bids[i - sunk.len()]);
    let order = ctx.active_orders[j];
    if order.side == side && (order.price - ask).absolute()@ > config.deep_sea_deviation@ {
        let k = lemma_sunk_at(config, ask, side, ctx.active_orders, j);
        assert(commands[k] == sunk[k]);
    }
    assert forall|k: int| 0 <= k < commands.len() implies ((#[trigger] commands[k])
        matches CommandIntent::Cancel(order_id) ==> exists|l: int|
        0 <= l < ctx.active_orders.len() && (#[trigger] ctx.active_orders[l]).order_id == order_id
            && ctx.active_orders[l].side == side && (ctx.active_orders[l].price - ask).absolute()@
            > config.deep_sea_deviation@) by {
        if k < sunk.len() {
            assert(commands[k] == sunk[k]);
            let l = lemma_sunk_source(config, ask, side, ctx.active_orders, k);
        } else {
            assert(commands[k] == bids[k - sunk.len()]);
        }
    }
}

/// The dynamic hedge ends, for settlement, once both outcomes make the share of the capital
/// that it escapes with. After the funds ran out it does nothing. A loss either way is
/// counted when it begins; the second one leads on to the expected-value hedge. And within
/// the pause after a hedge nothing is sent.
pub proof fn the_dynamic_hedge_knows_its_end(ctx: Outlook, config: StrategyConfig)
    ensures
        ({
            let choice = (DynamicHedgeStrategy { cfg: config }).choice(ctx);
            let up = outcome(ctx.position, Side::Up)@;
            let down = outcome(ctx.position, Side::Down)@;
            let escape = (config.dynamic_escape * ctx.total_capital)@;
            let loses = up < 0real && down < 0real;
            let count = if loses && !ctx.round.was_double_negative {
                ctx.round.double_negative_count + 1
            } else {
                ctx.round.double_negative_count as int
            };
            &&& up >= escape && down >= escape ==> {
                &&& choice.commands == seq![CommandIntent::CancelAll]
                &&& choice.transition == Some(RobotState::SettlementWait)
            }
            &&& !(up >= escape && down >= escape) ==> {
                &&& choice.transition != Some(RobotState::SettlementWait)
                &&& ctx.round.funds_exhausted ==> choice.commands.len() == 0
                    && choice.transition is None && choice.double_negative_update is None
                &&& !ctx.round.funds_exhausted && count <= u8::MAX ==> {
                    &&& choice.double_negative_update == Some((count as u8, loses))
                    &&& count >= 2 ==> choice.commands == seq![CommandIntent::CancelAll]
                        && choice.transition == Some(RobotState::EvHedge)
                    &&& count < 2 ==> choice.transition is None
                    &&& count < 2 && (ctx.round.last_hedge_at matches Some(at) && ctx.now - at
                        < config.dynamic_cooldown) ==> choice.commands.len() == 0
                }
            }
        }),
{
}

/// Whether the position is repaired: the worse outcome is no lower than the line, and the
/// two sides differ by less than an order.
pub open spec fn is_mended(ctx: Outlook, config: StrategyConfig) -> bool {
    let line = (config.repair_target * ctx.total_capital)@;
    let gap = (ctx.position.up_qty - ctx.position.down_qty).absolute();
    &&& outcome(ctx.position, Side::Up)@ >= line
    &&& outcome(ctx.position, Side::Down)@ >= line
    &&& gap@ < ctx.constraints.min_order_size@ || (gap * dec(1, 0))@
        < ctx.constraints.min_notional@
}

/// Whether it is the turn of a step: neither outcome ends the hedge, the funds did not run
/// out, the losses either way are fewer than two, the position is not repaired, and the
/// pause after the latest hedge is over.
pub open spec fn is_due(ctx: Outlook, config: StrategyConfig) -> bool {
    let up = outcome(ctx.position, Side::Up)@;
    let down = outcome(ctx.position, Side::Down)@;
    let escape = (config.dynamic_escape * ctx.total_capital)@;
    let begins = up < 0real && down < 0real && !ctx.round.was_double_negative;
    &&& up < escape || down < escape
    &&& !ctx.round.funds_exhausted
    &&& ctx.round.double_negative_count < (if begins {
        1int
    } else {
        2int
    })
    &&& !is_mended(ctx, config)
    &&& ctx.round.last_hedge_at matches Some(at) ==> ctx.now - at >= config.dynamic_cooldown
}

/// The price of the first rung below the ask of a side.
pub open spec fn first_price_below(ctx: Outlook, config: StrategyConfig, ask: Price) -> Price {
    (ask - config.dynamic_rungs@[0].price_offset).cut(ctx.constraints.price_scale as nat)
}

/// The shares that one side lacks, in the exchange's digits.
pub open spec fn lacking(ctx: Outlook, side: Side) -> Qty {
    (held(ctx.position, across(side)) - held(ctx.position, side)).cut(
        ctx.constraints.size_scale as nat,
    )
}

/// A position that is repaired is left alone: nothing is placed or cancelled one by one.
pub proof fn repaired_positions_are_left_alone(ctx: Outlook, config: StrategyConfig, i: int)
    requires
        is_mended(ctx, config),
        0 <= i < (DynamicHedgeStrategy { cfg: config }).choice(ctx).commands.len(),
    ensures
        (DynamicHedgeStrategy { cfg: config }).choice(ctx).commands[i] == CommandIntent::CancelAll,
        (DynamicHedgeStrategy { cfg: config }).choice(ctx).transition is Some,
{
}

/// When it is due, the gap of the side that holds less is filled at once where nothing rests
/// and the step's part of what is left of the pool buys all of it: one bid for all the
/// shares that are lacking, at the first rung, as long as it is large enough and does not
/// expose the side too much.
pub proof fn gaps_are_filled_when_due(ctx: Outlook, config: StrategyConfig, side: Side)
    requires
        is_due(ctx, config),
        ctx.active_orders.len() == 0,
        held(ctx.position, side)@ < held(ctx.position, across(side))@,
        top_of(ctx.market, side).best_ask is Some,
        ({
            let ask = top_of(ctx.market, side).best_ask->0;
            let price = first_price_below(ctx, config, ask);
            let gap = lacking(ctx, side);
            let buys = ctx.pools.dynamic_remaining * config.dynamic_step_fraction / price;
            &&& (held(ctx.position, across(side)) - held(ctx.position, side)).wf()
            &&& (held(ctx.position, across(side)) - held(ctx.position, side))@ >= 0real
            &&& price@ > 0real
            &&& gap@ > 0real
            &&& gap@ >= ctx.constraints.min_order_size@
            &&& (gap * price)@ >= ctx.constraints.min_notional@
            &&& gap@ <= buys@
            &&& buys.cut(ctx.constraints.size_scale as nat)@ >= ctx.constraints.min_order_size@
            &&& (buys.cut(ctx.constraints.size_scale as nat) * price)@
                >= ctx.constraints.min_notional@
            &&& (paid(ctx.position, side) + dec(0, 0) + (dec(0, 0) + price * gap))@
                <= ctx.pools.max_exposure@
        }),
    ensures
        ({
            let choice = (DynamicHedgeStrategy { cfg: config }).choice(ctx);
            let ask = top_of(ctx.market, side).best_ask->0;
            &&& choice.transition is None
            &&& !choice.mark_funds_exhausted
            &&& choice.commands.len() == 1
            &&& choice.commands[0] matches CommandIntent::Submit(order) && {
                &&& order.side == side
                &&& is_maker_bid(order)
                &&& order.price == first_price_below(ctx, config, ask)
                &&& order.qty == lacking(ctx, side)
            }
        }),
{
    let ask = top_of(ctx.market, side).best_ask->0;
    let gap = lacking(ctx, side);
    let size = ctx.constraints.size_scale as nat;
    let difference = held(ctx.position, across(side)) - held(ctx.position, side);
    zero_value();
    crate::decimal::laws::smaller_and_larger_are_both(
        outcome(ctx.position, Side::Up),
        outcome(ctx.position, Side::Down),
    );
    assert(ctx.active_orders =~= Seq::<ActiveOrder>::empty());
    cutting_rounds_down(difference, size);
    crate::decimal::laws::cutting_is_idempotent(difference, size);
    crate::decimal::laws::rounding_is_exact(gap);
    assert(gap@ - 0real == gap@);
    assert(gap - dec(0, 0) == gap);
    assert(gap_of(ctx, side) == gap);
    let price = first_price_below(ctx, config, ask);
    let cap = step_cap(config, ctx, side, gap, ask);
    assert(cap == gap);
    assert(crate::hedging::dynamic_hedge::top_up(ctx, side, price, gap, cap) == gap);
    let bid = CommandIntent::Submit(crate::hedging::context::resting_bid(side, price, gap));
    assert(woven(config, ctx, side, gap) == seq![bid]);
    assert(seq![bid].drop_last() =~= Seq::<CommandIntent>::empty());
    assert(bids_worth(seq![bid].drop_last()) == dec(0, 0));
    assert(bids_worth(seq![bid]) == dec(0, 0) + price * gap);
    assert(sunk_orders(config, ask, side, ctx.active_orders) =~= Seq::<CommandIntent>::empty());
    assert(Seq::<CommandIntent>::empty() + seq![bid] =~= seq![bid]);
}

/// When it is due, the hedge gives up, cancelling everything and noting that the funds ran
/// out, if the side that holds less lacks an order's worth of shares but the step's part of
/// what is left of the pool does not buy an order at the first rung; and it does not give up
/// if it does buy one.
pub proof fn funds_run_out_when_due(ctx: Outlook, config: StrategyConfig, side: Side)
    requires
        is_due(ctx, config),
        held(ctx.position, side)@ < held(ctx.position, across(side))@,
        top_of(ctx.market, side).best_ask is Some,
        ({
            let price = first_price_below(ctx, config, top_of(ctx.market, side).best_ask->0);
            let gap = lacking(ctx, side);
            &&& price@ > 0real
            &&& gap@ > 0real
            &&& gap@ >= ctx.constraints.min_order_size@
            &&& (gap * price)@ >= ctx.constraints.min_notional@
        }),
    ensures
        ({
            let choice = (DynamicHedgeStrategy { cfg: config }).choice(ctx);
            let price = first_price_below(ctx, config, top_of(ctx.market, side).best_ask->0);
            let qty = (ctx.pools.dynamic_remaining * config.dynamic_step_fraction / price).cut(
                ctx.constraints.size_scale as nat,
            );
            choice.mark_funds_exhausted <==> qty@ < ctx.constraints.min_order_size@ || (qty
                * price)@ < ctx.constraints.min_notional@
        }),
{
    crate::decimal::laws::smaller_and_larger_are_both(
        outcome(ctx.position, Side::Up),
        outcome(ctx.position, Side::Down),
    );
}

/// What a bid of the dynamic hedge adds to what rests at its price never passes what is
/// meant for that price: the whole gap, or the rung's part of the step.
pub proof fn rungs_are_topped_up(ctx: Outlook, config: StrategyConfig, i: int)
    requires
        (DynamicHedgeStrategy { cfg: config }).ready(ctx),
        0 <= i < (DynamicHedgeStrategy { cfg: config }).choice(ctx).commands.len(),
        (DynamicHedgeStrategy { cfg: config }).choice(ctx).commands[i] is Submit,
    ensures
        ({
            let order = (DynamicHedgeStrategy { cfg: config }).choice(ctx).commands[i]->Submit_0;
            let resting = qty_of(ctx.active_orders, order.side, Some(order.price));
            let size = ctx.constraints.size_scale as nat;
            let budget = ctx.pools.dynamic_remaining * config.dynamic_step_fraction;
            ||| order.qty@ <= (lacking(ctx, order.side) - resting)@
            ||| exists|k: int|
                0 <= k < 3 && order.qty@ <= ((budget * (
                #[trigger] config.dynamic_rungs@[k]).step_fraction / order.price).cut(size)
                    - resting)@
        }),
{
    let commands = (DynamicHedgeStrategy { cfg: config }).choice(ctx).commands;
    let side = shorter_side(ctx)->0;
    let ask = top_of(ctx.market, side).best_ask->0;
    let gap = gap_of(ctx, side);
    let bids = woven(config, ctx, side, gap);
    let sunk = sunk_orders(config, ask, side, ctx.active_orders);
    lemma_stepping(ctx, config, i);
    let at = i - sunk.len();
    assert(commands[i] == bids[at]);
    let cap = step_cap(config, ctx, side, gap, ask);
    let active = qty_of(ctx.active_orders, side, None);
    let price = top_price(config, ctx, ask);
    rounding_is_valid(gap@ - active@);
    rounding_is_valid(crate::hedging::dynamic_hedge::step_budget(config, ctx)@ / price@);
    assert(cap.wf());
    lemma_woven_side(config, ctx, side, gap);
    let order = commands[i]->Submit_0;
    assert(order.side == side);
    assert(gap == lacking(ctx, side));
    if gap@ <= crate::hedging::dynamic_hedge::affordable(config, ctx, ask)@ {
        lemma_topped(ctx, side, top_price(config, ctx, ask), gap, cap);
    } else {
        let k = lemma_rung_topped(config, ctx, side, ask, cap, config.dynamic_rungs@, at);
        let budget = ctx.pools.dynamic_remaining * config.dynamic_step_fraction;
        let size = ctx.constraints.size_scale as nat;
        let resting = qty_of(ctx.active_orders, side, Some(order.price));
        assert(order.qty@ <= ((budget * config.dynamic_rungs@[k].step_fraction / order.price).cut(
            size,
        ) - resting)@);
    }
}

proof fn lemma_topped(ctx: Outlook, side: Side, price: Price, target: Qty, cap: Qty)
    requires
        cap.wf(),
        crate::hedging::dynamic_hedge::top_up_fits(ctx, side, price, target, cap),
        crate::hedging::dynamic_hedge::top_up(ctx, side, price, target, cap)@ > 0real,
    ensures
        crate::hedging::dynamic_hedge::top_up(ctx, side, price, target, cap)@ <= (target - qty_of(
            ctx.active_orders,
            side,
            Some(price),
        ))@,
{
    zero_value();
    let resting = qty_of(ctx.active_orders, side, Some(price));
    let size = ctx.constraints.size_scale as nat;
    if target@ > resting@ {
        rounding_is_valid(target@ - resting@);
        cutting_rounds_down(target - resting, size);
    }
    if cap@ >= 0real {
        cutting_rounds_down(cap, size);
    } else {
        cutting_keeps_the_sign(cap, size);
    }
}

proof fn lemma_rungs_cap(
    config: StrategyConfig,
    ctx: Outlook,
    side: Side,
    ask: Price,
    cap: Qty,
    rungs: Seq<Rung>,
)
    requires
        cap.wf(),
        crate::hedging::dynamic_hedge::with_rungs_fits(config, ctx, side, ask, cap, rungs),
    ensures
        with_rungs(config, ctx, side, ask, cap, rungs).cap.wf(),
    decreases rungs.len(),
{
    if rungs.len() > 0 {
        lemma_rungs_cap(config, ctx, side, ask, cap, rungs.drop_last());
        let before = with_rungs(config, ctx, side, ask, cap, rungs.drop_last());
        let after = with_rungs(config, ctx, side, ask, cap, rungs);
        if after != before {
            let rung = rungs.last();
            let price = rung_price(ctx, ask, rung);
            let target = crate::hedging::dynamic_hedge::rung_target(config, ctx, ask, rung);
            let qty = crate::hedging::dynamic_hedge::top_up(ctx, side, price, target, before.cap);
            rounding_is_valid(before.cap@ - qty@);
        }
    }
}

proof fn lemma_rung_topped(
    config: StrategyConfig,
    ctx: Outlook,
    side: Side,
    ask: Price,
    cap: Qty,
    rungs: Seq<Rung>,
    i: int,
) -> (k: int)
    requires
        cap.wf(),
        0 <= i < with_rungs(config, ctx, side, ask, cap, rungs).commands.len(),
        crate::hedging::dynamic_hedge::with_rungs_fits(config, ctx, side, ask, cap, rungs),
    ensures
        0 <= k < rungs.len(),
        with_rungs(config, ctx, side, ask, cap, rungs).commands[i] matches CommandIntent::Submit(
            order,
        ) && order.qty@ <= (crate::hedging::dynamic_hedge::rung_target(config, ctx, ask, rungs[k])
            - qty_of(ctx.active_orders, side, Some(order.price)))@ && order.price == rung_price(
            ctx,
            ask,
            rungs[k],
        ),
    decreases rungs.len(),
{
    let before = with_rungs(config, ctx, side, ask, cap, rungs.drop_last());
    if i < before.commands.len() {
        lemma_rung_topped(config, ctx, side, ask, cap, rungs.drop_last(), i)
    } else {
        let rung = rungs.last();
        let price = rung_price(ctx, ask, rung);
        let target = crate::hedging::dynamic_hedge::rung_target(config, ctx, ask, rung);
        lemma_rungs_cap(config, ctx, side, ask, cap, rungs.drop_last());
        lemma_topped(ctx, side, price, target, before.cap);
        rungs.len() - 1
    }
}

/// The dynamic hedge gives up only upon the side that holds less, where the step's part of
/// what is left of the pool does not buy an order at the first rung; then everything is
/// cancelled and nothing else is done.
pub proof fn funds_run_out_when_a_step_buys_nothing(ctx: Outlook, config: StrategyConfig)
    ensures
        ({
            let choice = (DynamicHedgeStrategy { cfg: config }).choice(ctx);
            choice.mark_funds_exhausted ==> {
                let side = if ctx.position.up_qty@ < ctx.position.down_qty@ {
                    Side::Up
                } else {
                    Side::Down
                };
                &&& ctx.position.up_qty@ != ctx.position.down_qty@
                &&& choice.commands == seq![CommandIntent::CancelAll]
                &&& choice.transition is None
                &&& top_of(ctx.market, side).best_ask matches Some(ask) && ({
                    let price = (ask - config.dynamic_rungs@[0].price_offset).cut(
                        ctx.constraints.price_scale as nat,
                    );
                    let qty = (ctx.pools.dynamic_remaining * config.dynamic_step_fraction
                        / price).cut(ctx.constraints.size_scale as nat);
                    &&& price@ > 0real
                    &&& qty@ < ctx.constraints.min_order_size@ || (qty * price)@
                        < ctx.constraints.min_notional@
                })
            }
        }),
{
}

/// Every order of the expected-value hedge is for the side that the market holds for the
/// likelier winner, taken at once at the price cap: the mark price of that side is no lower
/// than the other's, and it is `Up` where they are equal; that price lies within the band of the time that is left, and is not below the
/// reversal line; its ask is not above the cap; and it is the pool's part of a step, cut to
/// the exchange's digits. And it is sent alone, after the pause, while the expectation of
/// the position is not positive.
pub proof fn the_likelier_side_is_bought(ctx: Outlook, config: StrategyConfig, i: int)
    requires
        0 <= i < (EvHedgeStrategy { cfg: config }).choice(ctx).commands.len(),
        (EvHedgeStrategy { cfg: config }).choice(ctx).commands[i] is Submit,
    ensures
        ({
            let choice = (EvHedgeStrategy { cfg: config }).choice(ctx);
            let order = choice.commands[i]->Submit_0;
            let mark = top_of(ctx.market, order.side).mark();
            let other = top_of(ctx.market, across(order.side)).mark();
            let up = ctx.market.up.mark()->0;
            let band = if ctx.time_to_expiry > config.ev_entry_window {
                config.ev_sweet_far
            } else {
                config.ev_sweet_near
            };
            &&& choice.commands.len() == 1
            &&& choice.transition is None
            &&& mark is Some
            &&& other is Some
            &&& mark->0@ >= other->0@
            &&& mark->0@ == other->0@ ==> order.side == Side::Up
            &&& band.0@ <= mark->0@ <= band.1@
            &&& mark->0@ >= config.ev_reversal@
            &&& top_of(ctx.market, order.side).best_ask matches Some(ask) && ask@
                <= config.ev_price_cap@
            &&& order.direction == OrderDirection::Buy
            &&& order.role == OrderRole::Taker
            &&& order.time_in_force == TimeInForce::Ioc
            &&& order.price == config.ev_price_cap
            &&& order.qty == (ctx.pools.ev_remaining * config.ev_step_fraction
                / config.ev_price_cap).cut(ctx.constraints.size_scale as nat)
            &&& is_large_enough(ctx, order)
            &&& ctx.round.last_hedge_at matches Some(at) ==> ctx.now - at >= config.ev_cooldown
            &&& (up * outcome(ctx.position, Side::Up) + (dec(1, 0) - up) * outcome(
                ctx.position,
                Side::Down,
            ))@ <= 0real
        }),
{
}

/// The expected-value hedge is over, for settlement, if and only if both mark prices are
/// there and the expectation of the position is positive, the likelier side has fallen
/// below the reversal line, or a step no longer buys an order. Without both mark prices
/// nothing is done.
pub proof fn the_last_hedge_knows_its_end(ctx: Outlook, config: StrategyConfig)
    ensures
        ({
            let choice = (EvHedgeStrategy { cfg: config }).choice(ctx);
            let up = ctx.market.up.mark();
            let down = ctx.market.down.mark();
            let qty = (ctx.pools.ev_remaining * config.ev_step_fraction
                / config.ev_price_cap).cut(ctx.constraints.size_scale as nat);
            let over = {
                ||| (up->0 * outcome(ctx.position, Side::Up) + (dec(1, 0) - up->0) * outcome(
                    ctx.position,
                    Side::Down,
                ))@ > 0real
                ||| up->0@ < config.ev_reversal@ && down->0@ < config.ev_reversal@
                ||| qty@ < ctx.constraints.min_order_size@
                ||| (qty * config.ev_price_cap)@ < ctx.constraints.min_notional@
            };
            &&& up is None || down is None ==> choice.commands.len() == 0
                && choice.transition is None
            &&& up is Some && down is Some ==> {
                &&& over ==> choice.commands == seq![CommandIntent::CancelAll]
                    && choice.transition == Some(RobotState::SettlementWait)
                &&& !over ==> choice.transition is None
            }
        }),
{
}

/// In the band of chances, after the pause and with the ask within the cap, the likelier
/// side is bought, as long as the hedge is not over.
pub proof fn the_last_hedge_fires_in_its_band(ctx: Outlook, config: StrategyConfig, side: Side)
    requires
        top_of(ctx.market, side).mark() is Some,
        top_of(ctx.market, across(side)).mark() is Some,
        top_of(ctx.market, side).mark()->0@ > top_of(ctx.market, across(side)).mark()->0@ || (
        side == Side::Up && ctx.market.up.mark()->0@ == ctx.market.down.mark()->0@),
        (EvHedgeStrategy { cfg: config }).choice(ctx).transition is None,
        ({
            let mark = top_of(ctx.market, side).mark()->0@;
            let band = if ctx.time_to_expiry > config.ev_entry_window {
                config.ev_sweet_far
            } else {
                config.ev_sweet_near
            };
            band.0@ <= mark <= band.1@
        }),
        top_of(ctx.market, side).best_ask is Some,
        top_of(ctx.market, side).best_ask->0@ <= config.ev_price_cap@,
        ctx.round.last_hedge_at matches Some(at) ==> ctx.now - at >= config.ev_cooldown,
    ensures
        (EvHedgeStrategy { cfg: config }).choice(ctx).commands.len() == 1,
        (EvHedgeStrategy { cfg: config }).choice(ctx).commands[0] matches CommandIntent::Submit(
            order,
        ) && order.side == side,
{
}

/// The ladder of the building state is for the side with the lower ask: each bid is below
/// that ask by the offset of a rung, cut to the exchange's digits, for the rung's part of
/// the pool at that price, and meets the exchange's minimums. It is placed only while
/// nothing rests and nothing was filled.
pub proof fn ladders_are_for_the_cheaper_side(ctx: Outlook, config: StrategyConfig, i: int) -> (k:
    int)
    requires
        0 <= i < (BuildingStrategy { cfg: config }).choice(ctx).commands.len(),
    ensures
        0 <= k < 3,
        !(ctx.trigger is Fill),
        ctx.active_orders.len() == 0,
        (BuildingStrategy { cfg: config }).choice(ctx).transition is None,
        (BuildingStrategy { cfg: config }).choice(ctx).commands[i] matches CommandIntent::Submit(
            order,
        ) && {
            &&& is_maker_bid(order)
            &&& is_large_enough(ctx, order)
            &&& order.price@ > 0real
            &&& top_of(ctx.market, order.side).best_ask matches Some(ask) && {
                &&& top_of(ctx.market, across(order.side)).best_ask matches Some(other) ==> ask@
                    <= other@
                &&& top_of(ctx.market, across(order.side)).best_ask matches Some(other) ==> (other@
                    == ask@ ==> order.side == Side::Up)
                &&& order.price == (ask - config.building_rungs@[k].price_offset).cut(
                    ctx.constraints.price_scale as nat,
                )
                &&& order.qty == (ctx.pools.grid_maker_total
                    * config.building_rungs@[k].step_fraction / order.price).cut(
                    ctx.constraints.size_scale as nat,
                )
            }
        },
{
    let (side, ask) = crate::hedging::building::cheaper(ctx)->0;
    lemma_ladder_rung(ctx, side, ask, config.building_rungs@, i)
}

/// The first fill ends building for pairing; and while nothing rests and nothing was
/// filled, every rung is placed whose price is positive and whose order is large enough.
pub proof fn building_places_every_rung(ctx: Outlook, config: StrategyConfig, k: int)
    requires
        0 <= k < 3,
    ensures
        ({
            let choice = (BuildingStrategy { cfg: config }).choice(ctx);
            let side = if ctx.market.up.best_ask is None || (ctx.market.down.best_ask is Some
                && ctx.market.down.best_ask->0@ < ctx.market.up.best_ask->0@) {
                Side::Down
            } else {
                Side::Up
            };
            &&& ctx.trigger is Fill ==> choice.transition == Some(RobotState::Pairing)
                && choice.commands.len() == 0
            &&& !(ctx.trigger is Fill) ==> choice.transition is None
            &&& !(ctx.trigger is Fill) && ctx.active_orders.len() == 0 ==> (top_of(
                ctx.market,
                side,
            ).best_ask matches Some(ask) ==> {
                let price = (ask - config.building_rungs@[k].price_offset).cut(
                    ctx.constraints.price_scale as nat,
                );
                let qty = (ctx.pools.grid_maker_total * config.building_rungs@[k].step_fraction
                    / price).cut(ctx.constraints.size_scale as nat);
                price@ > 0real && qty@ >= ctx.constraints.min_order_size@ && (qty * price)@
                    >= ctx.constraints.min_notional@ ==> exists|i: int|
                    0 <= i < choice.commands.len() && (#[trigger] choice.commands[i]
                        matches CommandIntent::Submit(order) && order.side == side && order.price
                        == price && order.qty == qty)
            })
        }),
{
    if !(ctx.trigger is Fill) && ctx.active_orders.len() == 0 {
        if let Some((side, ask)) = crate::hedging::building::cheaper(ctx) {
            let rung = config.building_rungs@[k];
            if crate::hedging::building::rung_stands(ctx, ask, rung) {
                let i = lemma_ladder_at(ctx, side, ask, config.building_rungs@, k);
                let command = (BuildingStrategy { cfg: config }).choice(ctx).commands[i];
                assert(command is Submit);
            }
        }
    }
}

/// The mark price of a book is the middle of its bid and its ask, as long as nothing is
/// rounded, and the latest trade where one of them is missing.
pub proof fn marks_are_in_the_middle(top: BookTop)
    ensures
        top.best_bid is None || top.best_ask is None ==> top.mark() == top.last_trade,
        top.best_bid is Some && top.best_ask is Some ==> ({
            let sum = top.best_bid->0 + top.best_ask->0;
            &&& top.mark() == Some(sum / dec(2, 0))
            &&& sum@ == top.best_bid->0@ + top.best_ask->0@ && (sum / dec(2, 0))@ == sum@ / dec(
                2,
                0,
            )@ ==> top.mark()->0@ * 2real == top.best_bid->0@ + top.best_ask->0@
        }),
{
    crate::decimal::laws::whole_value(2);
    if top.best_bid is Some && top.best_ask is Some {
        let s = (top.best_bid->0 + top.best_ask->0)@;
        assert((s / 2real) * 2real == s) by (nonlinear_arith);
    }
}

/// Where a decision of the dynamic hedge places something, it takes a step for the side
/// that holds less: the sunk orders are cancelled and the step is placed.
proof fn lemma_stepping(ctx: Outlook, config: StrategyConfig, i: int)
    requires
        0 <= i < (DynamicHedgeStrategy { cfg: config }).choice(ctx).commands.len(),
        (DynamicHedgeStrategy { cfg: config }).choice(ctx).commands[i] is Submit,
    ensures
        shorter_side(ctx) is Some,
        top_of(ctx.market, shorter_side(ctx)->0).best_ask is Some,
        ({
            let side = shorter_side(ctx)->0;
            let ask = top_of(ctx.market, side).best_ask->0;
            let bids = woven(config, ctx, side, gap_of(ctx, side));
            let sunk = sunk_orders(config, ask, side, ctx.active_orders);
            &&& (DynamicHedgeStrategy { cfg: config }).choice(ctx).commands == sunk + bids
            &&& i >= sunk.len()
            &&& (DynamicHedgeStrategy { cfg: config }).ready(ctx)
                ==> crate::hedging::dynamic_hedge::woven_fits(
                config,
                ctx,
                side,
                gap_of(ctx, side),
            ) && ctx.position.shares(side.other()).sub_fits(ctx.position.shares(side))
            &&& !crate::hedging::dynamic_hedge::too_exposed(ctx, side, bids_worth(bids))
        }),
{
    let side = shorter_side(ctx)->0;
    let ask = top_of(ctx.market, side).best_ask->0;
    lemma_sunk_are_cancelled(config, ask, side, ctx.active_orders);
    let commands = (DynamicHedgeStrategy { cfg: config }).choice(ctx).commands;
    let sunk = sunk_orders(config, ask, side, ctx.active_orders);
    if i < sunk.len() {
        assert(commands[i] == sunk[i]);
    }
}

proof fn lemma_sunk_are_cancelled(
    config: StrategyConfig,
    ask: Price,
    side: Side,
    orders: Seq<ActiveOrder>,
)
    ensures
        forall|k: int|
            0 <= k < sunk_orders(config, ask, side, orders).len() ==> (#[trigger] sunk_orders(
                config,
                ask,
                side,
                orders,
            )[k]) is Cancel,
    decreases orders.len(),
{
    if orders.len() > 0 {
        lemma_sunk_are_cancelled(config, ask, side, orders.drop_last());
    }
}

proof fn lemma_sunk_at(
    config: StrategyConfig,
    ask: Price,
    side: Side,
    orders: Seq<ActiveOrder>,
    j: int,
) -> (k: int)
    requires
        0 <= j < orders.len(),
        orders[j].side == side,
        (orders[j].price - ask).absolute()@ > config.deep_sea_deviation@,
    ensures
        0 <= k < sunk_orders(config, ask, side, orders).len(),
        sunk_orders(config, ask, side, orders)[k] == CommandIntent::Cancel(orders[j].order_id),
    decreases orders.len(),
{
    if j == orders.len() - 1 {
        sunk_orders(config, ask, side, orders).len() - 1
    } else {
        lemma_sunk_at(config, ask, side, orders.drop_last(), j)
    }
}

proof fn lemma_sunk_source(
    config: StrategyConfig,
    ask: Price,
    side: Side,
    orders: Seq<ActiveOrder>,
    k: int,
) -> (l: int)
    requires
        0 <= k < sunk_orders(config, ask, side, orders).len(),
    ensures
        0 <= l < orders.len(),
        sunk_orders(config, ask, side, orders)[k] == CommandIntent::Cancel(orders[l].order_id),
        orders[l].side == side,
        (orders[l].price - ask).absolute()@ > config.deep_sea_deviation@,
    decreases orders.len(),
{
    let before = sunk_orders(config, ask, side, orders.drop_last());
    if k < before.len() {
        lemma_sunk_source(config, ask, side, orders.drop_last(), k)
    } else {
        orders.len() - 1
    }
}

/// Cancellations ask for nothing.
proof fn lemma_asked_for(cancels: Seq<CommandIntent>, bids: Seq<CommandIntent>)
    requires
        forall|k: int| 0 <= k < cancels.len() ==> (#[trigger] cancels[k]) is Cancel,
    ensures
        asked_for(cancels + bids) == asked_for(bids),
    decreases cancels.len() + bids.len(),
{
    let all = cancels + bids;
    if bids.len() > 0 {
        lemma_asked_for(cancels, bids.drop_last());
        assert(all.drop_last() =~= cancels + bids.drop_last());
        assert(all.last() == bids.last());
    } else if cancels.len() > 0 {
        let init = cancels.drop_last();
        assert forall|k: int| 0 <= k < init.len() implies (#[trigger] init[k]) is Cancel by {
            assert(cancels[k] == init[k]);
        }
        lemma_asked_for(init, bids);
        assert(all.drop_last() =~= init + bids);
        assert(all.last() == cancels[cancels.len() - 1]);
    } else {
        assert(all =~= bids);
    }
}

/// Cancellations are worth nothing.
proof fn lemma_bids_worth(cancels: Seq<CommandIntent>, bids: Seq<CommandIntent>)
    requires
        forall|k: int| 0 <= k < cancels.len() ==> (#[trigger] cancels[k]) is Cancel,
    ensures
        bids_worth(cancels + bids) == bids_worth(bids),
    decreases cancels.len() + bids.len(),
{
    let all = cancels + bids;
    if bids.len() > 0 {
        lemma_bids_worth(cancels, bids.drop_last());
        assert(all.drop_last() =~= cancels + bids.drop_last());
        assert(all.last() == bids.last());
    } else if cancels.len() > 0 {
        let init = cancels.drop_last();
        assert forall|k: int| 0 <= k < init.len() implies (#[trigger] init[k]) is Cancel by {
            assert(cancels[k] == init[k]);
        }
        lemma_bids_worth(init, bids);
        assert(all.drop_last() =~= init + bids);
        assert(all.last() == cancels[cancels.len() - 1]);
    } else {
        assert(all =~= bids);
    }
}

proof fn lemma_woven_side(config: StrategyConfig, ctx: Outlook, side: Side, gap: Qty)
    ensures
        forall|k: int|
            0 <= k < woven(config, ctx, side, gap).len() ==> ((#[trigger] woven(
                config,
                ctx,
                side,
                gap,
            )[k]) matches CommandIntent::Submit(order) && order.side == side),
{
    if let Some(ask) = ctx.market.at(side).best_ask {
        let cap = step_cap(config, ctx, side, gap, ask);
        lemma_rungs_side(config, ctx, side, ask, cap, config.dynamic_rungs@);
    }
}

proof fn lemma_rungs_side(
    config: StrategyConfig,
    ctx: Outlook,
    side: Side,
    ask: Price,
    cap: Qty,
    rungs: Seq<Rung>,
)
    ensures
        forall|k: int|
            0 <= k < with_rungs(config, ctx, side, ask, cap, rungs).commands.len() ==> ((
            #[trigger] with_rungs(config, ctx, side, ask, cap, rungs).commands[k])
                matches CommandIntent::Submit(order) && order.side == side),
    decreases rungs.len(),
{
    if rungs.len() > 0 {
        lemma_rungs_side(config, ctx, side, ask, cap, rungs.drop_last());
    }
}

proof fn lemma_rung_of(
    config: StrategyConfig,
    ctx: Outlook,
    side: Side,
    ask: Price,
    cap: Qty,
    rungs: Seq<Rung>,
    i: int,
) -> (k: int)
    requires
        0 <= i < with_rungs(config, ctx, side, ask, cap, rungs).commands.len(),
    ensures
        0 <= k < rungs.len(),
        with_rungs(config, ctx, side, ask, cap, rungs).commands[i] matches CommandIntent::Submit(
            order,
        ) && order.side == side && is_maker_bid(order) && order.price == rung_price(
            ctx,
            ask,
            rungs[k],
        ) && order.price@ > 0real && is_placed(ctx, order.price, order.qty),
    decreases rungs.len(),
{
    let before = with_rungs(config, ctx, side, ask, cap, rungs.drop_last());
    if i < before.commands.len() {
        lemma_rung_of(config, ctx, side, ask, cap, rungs.drop_last(), i)
    } else {
        rungs.len() - 1
    }
}

proof fn lemma_ladder_rung(
    ctx: Outlook,
    side: Side,
    ask: Price,
    rungs: Seq<Rung>,
    i: int,
) -> (k: int)
    requires
        0 <= i < ladder(ctx, side, ask, rungs).len(),
    ensures
        0 <= k < rungs.len(),
        ladder(ctx, side, ask, rungs)[i] matches CommandIntent::Submit(order) && order.side == side
            && is_maker_bid(order) && order.price@ > 0real && is_large_enough(ctx, order)
            && order.price == (ask - rungs[k].price_offset).cut(
            ctx.constraints.price_scale as nat,
        ) && order.qty == (ctx.pools.grid_maker_total * rungs[k].step_fraction / order.price).cut(
            ctx.constraints.size_scale as nat,
        ),
    decreases rungs.len(),
{
    let before = ladder(ctx, side, ask, rungs.drop_last());
    if i < before.len() {
        lemma_ladder_rung(ctx, side, ask, rungs.drop_last(), i)
    } else {
        rungs.len() - 1
    }
}

proof fn lemma_ladder_at(
    ctx: Outlook,
    side: Side,
    ask: Price,
    rungs: Seq<Rung>,
    k: int,
) -> (i: int)
    requires
        0 <= k < rungs.len(),
        crate::hedging::building::rung_stands(ctx, ask, rungs[k]),
    ensures
        0 <= i < ladder(ctx, side, ask, rungs).len(),
        ladder(ctx, side, ask, rungs)[i] == CommandIntent::Submit(
            crate::hedging::context::resting_bid(
                side,
                crate::hedging::building::rung_price(ctx, ask, rungs[k]),
                crate::hedging::building::rung_qty(ctx, ask, rungs[k]),
            ),
        ),
    decreases rungs.len(),
{
    if k == rungs.len() - 1 {
        ladder(ctx, side, ask, rungs).len() - 1
    } else {
        lemma_ladder_at(ctx, side, ask, rungs.drop_last(), k)
    }
}

} // verus!
