//! What the orders of the market-making strategy look like, told by the fields of what it
//! sees.

use crate::decimal::laws::{
    cutting_rounds_down, quantizing_is_nearest, raising_keeps_the_sign, raising_rounds_up,
    rounding_is_valid, written_value,
};
use crate::decimal::model::{
    cut_parts, lemma_scaled_product, lemma_scaled_units, pow10, raised_parts, scaled,
};
use crate::decimal::{dec, Decimal};
use crate::domain::order::{OrderDirection, TimeInForce};
use crate::domain::phase::Phase;
use crate::domain::types::{OrderRole, Price, Side};
use crate::inventory::lot::{Lot, LotId};
use crate::inventory::model::lots_qty;
use crate::strategy::building::building_drift;
use crate::strategy::context::{ActiveOrder, CommandIntent, Situation};
use crate::strategy::offers::{both_offers, is_offer_of, is_offered, lot_offers, offer, side_offers};
use crate::strategy::plan;
use crate::strategy::quoting::{bid_place, both_bids, side_bids};
use vstd::prelude::*;

verus! {

/// The lots held of a side.
pub open spec fn held_of(ctx: Situation, side: Side) -> Seq<Lot> {
    if side == Side::Up {
        ctx.inventory.up
    } else {
        ctx.inventory.down
    }
}

/// The highest bid that the book of a side shows.
pub open spec fn bid_of(ctx: Situation, side: Side) -> Option<Price> {
    if side == Side::Up {
        ctx.market.up.best_bid
    } else {
        ctx.market.down.best_bid
    }
}

/// Whether a resting order offers a lot.
pub open spec fn rests_on_offer(ctx: Situation, lot_id: LotId) -> bool {
    exists|k: int|
        0 <= k < ctx.active_orders.len() && (#[trigger] ctx.active_orders[k]).direction
            == OrderDirection::Sell && ctx.active_orders[k].lot_id == Some(lot_id)
}

/// Whether a profit per share is the one aimed at in the current quarter of the match.
pub open spec fn is_aimed_at(ctx: Situation, profit: Price) -> bool {
    let part = ctx.progress@ * 4real;
    &&& part < 1real ==> profit == ctx.config.tp_by_quartile@[0]
    &&& 1real <= part < 2real ==> profit == ctx.config.tp_by_quartile@[1]
    &&& 2real <= part < 3real ==> profit == ctx.config.tp_by_quartile@[2]
    &&& 3real <= part ==> profit == ctx.config.tp_by_quartile@[3]
}

/// Whether a price has no more than `digits` fractional digits.
pub open spec fn has_digits(price: Price, digits: nat) -> bool {
    exists|n: int| price@ == #[trigger] scaled(n, digits)
}

/// Whether a price is a sum raised to the exchange's digits: the least number with these
/// digits that is no less than the sum.
pub open spec fn is_raised_to(price: Price, sum: real, digits: nat) -> bool {
    &&& price@ >= sum
    &&& price@ - sum < scaled(1, digits)
    &&& has_digits(price, digits)
}

/// Whether a price is a number cut to the exchange's digits: the greatest number with
/// these digits that is no more than it.
pub open spec fn is_cut_to(price: Price, value: real, digits: nat) -> bool {
    &&& price@ <= value
    &&& value - price@ < scaled(1, digits)
    &&& has_digits(price, digits)
}

/// Every offer of a decision is for a lot that is held of that very side and does not rest
/// on offer, for all its shares, as a maker; its price is the lot's cost plus the profit
/// aimed at in the current quarter, raised to the exchange's digits, except that harvesting
/// never asks for more than 0.99.
pub proof fn offers_aim_at_the_profit(
    phase: Phase,
    ctx: Situation,
    i: int,
    lot_id: LotId,
    side: Side,
    price: Price,
    qty: crate::domain::types::Qty,
    role: OrderRole,
    tif: TimeInForce,
) -> (k: int)
    requires
        0 <= i < plan(phase, ctx).commands.len(),
        plan(phase, ctx).commands[i] == (CommandIntent::SubmitSell {
            lot_id,
            side,
            price,
            qty,
            role,
            tif,
        }),
        crate::strategy::plan_fits(phase, ctx),
    ensures
        phase == Phase::Cycling || phase == Phase::Harvesting,
        0 <= k < held_of(ctx, side).len(),
        held_of(ctx, side)[k].lot_id == lot_id,
        held_of(ctx, side)[k].qty == qty,
        role == OrderRole::Maker,
        tif == TimeInForce::Gtc,
        !rests_on_offer(ctx, lot_id),
        exists|profit: Price| #[trigger]
            is_aimed_at(ctx, profit) && ({
                let sum = held_of(ctx, side)[k].buy_price + profit;
                let digits = ctx.constraints.price_scale as nat;
                &&& sum@ >= 0real && phase == Phase::Cycling ==> is_raised_to(price, sum@, digits)
                &&& phase == Phase::Harvesting && digits >= 2 ==> price@ * 100real <= 99real
                &&& sum@ >= 0real && phase == Phase::Harvesting && digits >= 2 ==> {
                    &&& sum@ * 100real <= 99real ==> is_raised_to(price, sum@, digits)
                    &&& sum@ * 100real > 99real ==> price@ * 100real == 99real
                }
            }),
{
    let cap = if phase == Phase::Harvesting {
        Some(dec(99, 2))
    } else {
        None
    };
    let up = ctx.inventory.up.reverse();
    let down = ctx.inventory.down.reverse();
    let ups = lot_offers(ctx, Side::Up, up, cap);
    let downs = lot_offers(ctx, Side::Down, down, cap);
    lemma_bids_are_bids(ctx, Side::Up);
    lemma_bids_are_bids(ctx, Side::Down);
    assert(phase == Phase::Cycling || phase == Phase::Harvesting);
    let all = plan(phase, ctx).commands;
    let n = ups.len() as int;
    if phase == Phase::Cycling {
        let bids = both_bids(ctx, dec(1, 2));
        assert(all == ups + downs + bids);
        if i >= n + downs.len() {
            assert(all[i] == bids[i - n - downs.len()]);
            assert(false);
        }
    } else {
        assert(all == ups + downs);
    }
    let from = if i < n { Side::Up } else { Side::Down };
    let lots = if i < n { up } else { down };
    let at = if i < n { i } else { i - n };
    let j = lemma_offer_of(ctx, from, lots, cap, at);
    assert(all[i] == offer(ctx, from, lots[j], cap));
    assert(side == from);
    let k = lots.len() - 1 - j;
    let lot = held_of(ctx, side)[k];
    assert(lot == lots[j]);
    lemma_rests_on_offer(ctx, lot_id);
    let profit = crate::strategy::offers::aim(ctx);
    lemma_aim(ctx);
    let sum = lot.buy_price + profit;
    let digits = ctx.constraints.price_scale as nat;
    assert(ctx.inventory.lots(side)[k] == lot);
    assert(lot.buy_price.add_fits(profit));
    rounding_is_valid(lot.buy_price@ + profit@);
    if sum@ >= 0real {
        lemma_raised(sum, digits);
        if phase == Phase::Harvesting && digits >= 2 {
            lemma_cap(sum, digits);
        }
    } else {
        raising_keeps_the_sign(sum, digits);
        written_value(99, 2);
        lemma_hundredths(99);
    }
    k
}

/// In the cycling and the harvesting phase, while they last, every lot that is held and
/// does not rest on offer is offered.
pub proof fn every_held_lot_is_offered(phase: Phase, ctx: Situation, side: Side, k: int)
    requires
        phase == Phase::Cycling && ctx.progress@ < ctx.config.harvest_start@ || phase
            == Phase::Harvesting && ctx.progress@ < ctx.config.settle_start@,
        0 <= k < held_of(ctx, side).len(),
    ensures
        rests_on_offer(ctx, held_of(ctx, side)[k].lot_id) || exists|i: int|
            0 <= i < plan(phase, ctx).commands.len() && (#[trigger] plan(phase, ctx).commands[i]
                matches CommandIntent::SubmitSell { lot_id, side: s, qty, .. } && lot_id
                == held_of(ctx, side)[k].lot_id && s == side && qty == held_of(ctx, side)[k].qty),
{
    let cap = if phase == Phase::Harvesting {
        Some(dec(99, 2))
    } else {
        None
    };
    let lot = held_of(ctx, side)[k];
    lemma_rests_on_offer(ctx, lot.lot_id);
    if !rests_on_offer(ctx, lot.lot_id) {
        let lots = held_of(ctx, side).reverse();
        let at = lots.len() - 1 - k;
        assert(lots[at] == lot);
        let j = lemma_offer_at(ctx, side, lots, cap, at);
        let n = side_offers(ctx, Side::Up, cap).len();
        let i = if side == Side::Up { j } else { n + j };
        assert(both_offers(ctx, cap)[i] == offer(ctx, side, lot, cap));
        assert(plan(phase, ctx).commands[i] == offer(ctx, side, lot, cap));
    }
}

/// Offers come before bids, those of `Up` before those of `Down`, and on each side the
/// latest purchase first.
pub proof fn the_latest_lot_is_offered_first(phase: Phase, ctx: Situation, i: int, j: int)
    requires
        0 <= i < j < plan(phase, ctx).commands.len(),
        plan(phase, ctx).commands[j] is SubmitSell,
    ensures
        plan(phase, ctx).commands[i] matches CommandIntent::SubmitSell { lot_id, side, .. } && {
            let later = plan(phase, ctx).commands[j];
            &&& side == Side::Down ==> later->SubmitSell_side == Side::Down
            &&& later->SubmitSell_side == side ==> exists|a: int, b: int|
                0 <= b < a < held_of(ctx, side).len() && (#[trigger] held_of(ctx, side)[a]).lot_id
                    == lot_id && (#[trigger] held_of(ctx, side)[b]).lot_id
                    == later->SubmitSell_lot_id
        },
{
    let cap = if phase == Phase::Harvesting {
        Some(dec(99, 2))
    } else {
        None
    };
    let up = ctx.inventory.up.reverse();
    let down = ctx.inventory.down.reverse();
    let ups = lot_offers(ctx, Side::Up, up, cap);
    let downs = lot_offers(ctx, Side::Down, down, cap);
    lemma_bids_are_bids(ctx, Side::Up);
    lemma_bids_are_bids(ctx, Side::Down);
    let all = plan(phase, ctx).commands;
    let n = ups.len() as int;
    if phase == Phase::Cycling {
        let bids = both_bids(ctx, dec(1, 2));
        assert(all == ups + downs + bids);
        if j >= n + downs.len() {
            assert(all[j] == bids[j - n - downs.len()]);
        }
    } else {
        assert(all == ups + downs);
    }
    if j < n {
        let (x, y) = lemma_offers_in_order(ctx, Side::Up, up, cap, i, j);
        assert(all[i] == ups[i] && all[j] == ups[j]);
        assert(held_of(ctx, Side::Up)[up.len() - 1 - x] == up[x]);
        assert(held_of(ctx, Side::Up)[up.len() - 1 - y] == up[y]);
    } else if i >= n {
        let (x, y) = lemma_offers_in_order(ctx, Side::Down, down, cap, i - n, j - n);
        assert(all[i] == downs[i - n] && all[j] == downs[j - n]);
        assert(held_of(ctx, Side::Down)[down.len() - 1 - x] == down[x]);
        assert(held_of(ctx, Side::Down)[down.len() - 1 - y] == down[y]);
    } else {
        let x = lemma_offer_of(ctx, Side::Up, up, cap, i);
        let y = lemma_offer_of(ctx, Side::Down, down, cap, j - n);
        assert(all[i] == ups[i] && all[j] == downs[j - n]);
    }
}

proof fn lemma_offers_in_order(
    ctx: Situation,
    side: Side,
    lots: Seq<Lot>,
    cap: Option<Price>,
    i: int,
    j: int,
) -> (r: (int, int))
    requires
        0 <= i < j < lot_offers(ctx, side, lots, cap).len(),
    ensures
        0 <= r.0 < r.1 < lots.len(),
        lot_offers(ctx, side, lots, cap)[i] == offer(ctx, side, lots[r.0], cap),
        lot_offers(ctx, side, lots, cap)[j] == offer(ctx, side, lots[r.1], cap),
    decreases lots.len(),
{
    let before = lot_offers(ctx, side, lots.drop_last(), cap);
    if j < before.len() {
        lemma_offers_in_order(ctx, side, lots.drop_last(), cap, i, j)
    } else {
        (lemma_offer_of(ctx, side, lots.drop_last(), cap, i), lots.len() - 1)
    }
}

/// The phases end on time, and then nothing else is done: building at its end for cycling,
/// cycling at the start of the harvest, harvesting at the start of the settlement. Before
/// that a decision stays in its phase.
pub proof fn phases_end_on_time(ctx: Situation)
    ensures
        plan(Phase::Building, ctx).transition == (if ctx.progress@ >= ctx.config.building_end@ {
            Some(Phase::Cycling)
        } else {
            None
        }),
        plan(Phase::Cycling, ctx).transition == (if ctx.progress@ >= ctx.config.harvest_start@ {
            Some(Phase::Harvesting)
        } else {
            None
        }),
        plan(Phase::Harvesting, ctx).transition == (if ctx.progress@ >= ctx.config.settle_start@ {
            Some(Phase::Settled)
        } else {
            None
        }),
        plan(Phase::Settled, ctx).transition is None,
        ctx.progress@ >= ctx.config.building_end@ ==> plan(Phase::Building, ctx).commands.len()
            == 0,
        ctx.progress@ >= ctx.config.harvest_start@ ==> plan(Phase::Cycling, ctx).commands.len()
            == 0,
        ctx.progress@ >= ctx.config.settle_start@ ==> plan(Phase::Harvesting, ctx).commands.len()
            == 0,
        plan(Phase::Settled, ctx).commands.len() == 0,
{
}

/// Whether more of a side may be bought: its shares are below the limit of one side, and
/// it does not lead the other side by the limit of a lead.
pub open spec fn may_buy(ctx: Situation, side: Side) -> bool {
    let mine = lots_qty(held_of(ctx, side));
    let other = lots_qty(
        if side == Side::Up {
            ctx.inventory.down
        } else {
            ctx.inventory.up
        },
    );
    &&& ctx.config.inventory_cap is Some ==> mine@ < ctx.config.inventory_cap->0@
    &&& ctx.config.imbalance_cap is Some && mine@ >= other@ ==> (mine - other)@
        < ctx.config.imbalance_cap->0@
}

/// Whether a bid for a side rests.
pub open spec fn rests_a_bid(ctx: Situation, side: Side) -> bool {
    exists|k: int|
        0 <= k < ctx.active_orders.len() && (#[trigger] ctx.active_orders[k]).side == side
            && ctx.active_orders[k].direction == OrderDirection::Buy
}

/// Whether the order at `f` is the first bid for a side that rests.
pub open spec fn is_first_bid(ctx: Situation, side: Side, f: int) -> bool {
    &&& 0 <= f < ctx.active_orders.len()
    &&& ctx.active_orders[f].side == side
    &&& ctx.active_orders[f].direction == OrderDirection::Buy
    &&& forall|k: int|
        0 <= k < f ==> (#[trigger] ctx.active_orders[k]).side != side
            || ctx.active_orders[k].direction != OrderDirection::Buy
}

/// Every bid of a decision is for one lot, as a maker, at the highest bid that the book of
/// its own side shows, cut to the exchange's digits; it costs no more than the free cash;
/// more of that side may be bought; and if a bid for that side rests already, the best bid
/// has left it behind by more than one cent.
pub proof fn bids_join_the_best_bid(
    phase: Phase,
    ctx: Situation,
    i: int,
    side: Side,
    price: Price,
    qty: crate::domain::types::Qty,
    role: OrderRole,
    tif: TimeInForce,
)
    requires
        0 <= i < plan(phase, ctx).commands.len(),
        plan(phase, ctx).commands[i] == (CommandIntent::SubmitBuy { side, price, qty, role, tif }),
        ctx.constraints.price_scale >= 2,
    ensures
        phase == Phase::Building || phase == Phase::Cycling,
        qty == ctx.config.lot_qty,
        role == OrderRole::Maker,
        tif == TimeInForce::Gtc,
        (price * qty)@ <= ctx.free_cash@,
        may_buy(ctx, side),
        bid_of(ctx, side) matches Some(bid) && (bid.wf() && bid@ >= 0real ==> is_cut_to(
            price,
            bid@,
            ctx.constraints.price_scale as nat,
        )) && forall|f: int| #[trigger]
            is_first_bid(ctx, side, f) ==> (bid - ctx.active_orders[f].price)@ * 100real > 1real,
{
    lemma_no_bids_in_offers(ctx, Some(dec(99, 2)));
    lemma_no_bids_in_offers(ctx, None);
    let offers = both_offers(ctx, None);
    let drift = if phase == Phase::Building { building_drift(ctx) } else { dec(1, 2) };
    let all = plan(phase, ctx).commands;
    let bids = both_bids(ctx, drift);
    let n = if phase == Phase::Cycling { offers.len() as int } else { 0 };
    if phase == Phase::Cycling {
        if i < n {
            assert(all[i] == offers[i]);
            assert(false);
        }
        assert(all[i] == bids[i - n]);
    } else if phase == Phase::Harvesting {
        assert(all[i] == both_offers(ctx, Some(dec(99, 2)))[i]);
        assert(false);
    } else {
        assert(all[i] == bids[i]);
    }
    lemma_cent(ctx);
    let bid = bid_of(ctx, side)->0;
    assert forall|f: int| #[trigger] is_first_bid(ctx, side, f) implies (bid
        - ctx.active_orders[f].price)@ * 100real > 1real by {
        lemma_first_bid(ctx.active_orders, side, 0, f);
    }
    if bid.wf() && bid@ >= 0real {
        lemma_cut(bid, ctx.constraints.price_scale as nat);
    }
}

/// While building or cycling lasts, a side that may be bought and shows a bid is bid for
/// whenever the free cash pays for it and no bid for it rests, or the first that rests was
/// left behind by more than one cent; that one is then cancelled.
pub proof fn every_side_is_bid_for(phase: Phase, ctx: Situation, side: Side)
    requires
        phase == Phase::Building && ctx.progress@ < ctx.config.building_end@ || phase
            == Phase::Cycling && ctx.progress@ < ctx.config.harvest_start@,
        ctx.constraints.price_scale >= 2,
        may_buy(ctx, side),
        bid_of(ctx, side) is Some,
    ensures
        ({
            let bid = bid_of(ctx, side)->0;
            let cost = bid.cut(ctx.constraints.price_scale as nat) * ctx.config.lot_qty;
            &&& !rests_a_bid(ctx, side) && cost@ <= ctx.free_cash@ ==> bids_for(phase, ctx, side)
            &&& forall|f: int| #[trigger]
                is_first_bid(ctx, side, f) && (bid - ctx.active_orders[f].price)@ * 100real > 1real
                    ==> {
                    &&& plan(phase, ctx).commands.contains(
                        CommandIntent::Cancel(ctx.active_orders[f].order_id),
                    )
                    &&& cost@ <= ctx.free_cash@ ==> bids_for(phase, ctx, side)
                }
        }),
{
    let drift = if phase == Phase::Building { building_drift(ctx) } else { dec(1, 2) };
    lemma_cent(ctx);
    let all = plan(phase, ctx).commands;
    let bids = both_bids(ctx, drift);
    let n = if phase == Phase::Cycling { both_offers(ctx, None).len() as int } else { 0 };
    let mine = side_bids(ctx, side, drift);
    let (first, second) = crate::strategy::quoting::bidding_order(ctx);
    let start = if side == first { n } else { n + side_bids(ctx, first, drift).len() };
    assert forall|j: int| 0 <= j < mine.len() implies #[trigger] mine[j] == all[start + j] by {
        assert(bids[start - n + j] == mine[j]);
    }
    let bid = bid_of(ctx, side)->0;
    let cost = bid.cut(ctx.constraints.price_scale as nat) * ctx.config.lot_qty;
    lemma_bid_place(ctx.active_orders, side, 0);
    if !rests_a_bid(ctx, side) && cost@ <= ctx.free_cash@ {
        assert(mine[0] is SubmitBuy);
        assert(all[start + 0] == mine[0]);
    }
    assert forall|f: int| #[trigger]
        is_first_bid(ctx, side, f) && (bid - ctx.active_orders[f].price)@ * 100real > 1real implies {
        &&& all.contains(CommandIntent::Cancel(ctx.active_orders[f].order_id))
        &&& cost@ <= ctx.free_cash@ ==> bids_for(phase, ctx, side)
    } by {
        lemma_first_bid(ctx.active_orders, side, 0, f);
        assert(mine[0] == CommandIntent::Cancel(ctx.active_orders[f].order_id));
        assert(all[start + 0] == mine[0]);
        if cost@ <= ctx.free_cash@ {
            assert(mine[1] is SubmitBuy);
            assert(all[start + 1] == mine[1]);
        }
    }
}

/// A decision cancels nothing but the first bid of a side that the best bid of that side
/// has left behind by more than one cent, and never a side or everything.
pub proof fn only_bids_left_behind_are_cancelled(phase: Phase, ctx: Situation, i: int)
    requires
        0 <= i < plan(phase, ctx).commands.len(),
        ctx.constraints.price_scale >= 2,
    ensures
        !(plan(phase, ctx).commands[i] is CancelSide),
        !(plan(phase, ctx).commands[i] is CancelAll),
        plan(phase, ctx).commands[i] matches CommandIntent::Cancel(order_id) ==> exists|f: int|
            0 <= f < ctx.active_orders.len() && (#[trigger] ctx.active_orders[f]).order_id
                == order_id && is_first_bid(ctx, ctx.active_orders[f].side, f) && (bid_of(
                ctx,
                ctx.active_orders[f].side,
            ) matches Some(bid) && (bid - ctx.active_orders[f].price)@ * 100real > 1real),
{
    lemma_no_bids_in_offers(ctx, Some(dec(99, 2)));
    lemma_no_bids_in_offers(ctx, None);
    let offers = both_offers(ctx, None);
    let drift = if phase == Phase::Building { building_drift(ctx) } else { dec(1, 2) };
    let all = plan(phase, ctx).commands;
    let bids = both_bids(ctx, drift);
    let n = if phase == Phase::Cycling { offers.len() as int } else { 0 };
    if phase == Phase::Cycling {
        if i < n {
            assert(all[i] == offers[i]);
        } else {
            assert(all[i] == bids[i - n]);
        }
    } else if phase == Phase::Harvesting {
        assert(all[i] == both_offers(ctx, Some(dec(99, 2)))[i]);
    } else if phase == Phase::Building {
        assert(all[i] == bids[i]);
    }
    lemma_cent(ctx);
    if let CommandIntent::Cancel(order_id) = all[i] {
        let (first, second) = crate::strategy::quoting::bidding_order(ctx);
        let side = if i - n < side_bids(ctx, first, drift).len() { first } else { second };
        lemma_bid_place(ctx.active_orders, side, 0);
        lemma_bid_is_first(ctx.active_orders, side, 0);
        let f = bid_place(ctx.active_orders, side, 0)->0;
        assert(ctx.active_orders[f].order_id == order_id);
        assert(is_first_bid(ctx, side, f));
    }
}

proof fn lemma_bid_is_first(orders: Seq<ActiveOrder>, side: Side, from: int)
    requires
        0 <= from <= orders.len(),
    ensures
        bid_place(orders, side, from) matches Some(f) ==> forall|k: int|
            from <= k < f ==> (#[trigger] orders[k]).side != side || orders[k].direction
                != OrderDirection::Buy,
    decreases orders.len() - from,
{
    if from < orders.len() {
        lemma_bid_is_first(orders, side, from + 1);
    }
}

/// Whether a decision bids for a side.
pub open spec fn bids_for(phase: Phase, ctx: Situation, side: Side) -> bool {
    exists|i: int|
        0 <= i < plan(phase, ctx).commands.len() && (#[trigger] plan(phase, ctx).commands[i]
            matches CommandIntent::SubmitBuy { side: s, .. } && s == side)
}

/// The side with the lower bid is bid for first, and `Up` where neither is lower.
pub proof fn the_cheaper_side_comes_first(phase: Phase, ctx: Situation, i: int, j: int)
    requires
        0 <= i < plan(phase, ctx).commands.len(),
        0 <= j < plan(phase, ctx).commands.len(),
        plan(phase, ctx).commands[i] matches CommandIntent::SubmitBuy { side, .. } && side
            == Side::Up,
        plan(phase, ctx).commands[j] matches CommandIntent::SubmitBuy { side, .. } && side
            == Side::Down,
    ensures
        ctx.market.up.best_bid is Some,
        ctx.market.down.best_bid is Some,
        j < i <==> ctx.market.down.best_bid->0@ < ctx.market.up.best_bid->0@,
{
    lemma_no_bids_in_offers(ctx, Some(dec(99, 2)));
    lemma_no_bids_in_offers(ctx, None);
    let offers = both_offers(ctx, None);
    let drift = if phase == Phase::Building { building_drift(ctx) } else { dec(1, 2) };
    let all = plan(phase, ctx).commands;
    let bids = both_bids(ctx, drift);
    let n = if phase == Phase::Cycling { offers.len() as int } else { 0 };
    if phase == Phase::Cycling {
        if i < n {
            assert(all[i] == offers[i]);
        }
        if j < n {
            assert(all[j] == offers[j]);
        }
        assert(all[i] == bids[i - n]);
        assert(all[j] == bids[j - n]);
    } else if phase == Phase::Harvesting {
        assert(all[i] == both_offers(ctx, Some(dec(99, 2)))[i]);
        assert(false);
    } else {
        assert(all[i] == bids[i]);
        assert(all[j] == bids[j]);
    }
}

proof fn lemma_bids_are_bids(ctx: Situation, side: Side)
    ensures
        forall|drift: Price, i: int|
            0 <= i < side_bids(ctx, side, drift).len() ==> !((#[trigger] side_bids(
                ctx,
                side,
                drift,
            )[i]) is SubmitSell),
{
}

proof fn lemma_offer_of(
    ctx: Situation,
    side: Side,
    lots: Seq<Lot>,
    cap: Option<Price>,
    i: int,
) -> (k: int)
    requires
        0 <= i < lot_offers(ctx, side, lots, cap).len(),
    ensures
        0 <= k < lots.len(),
        lot_offers(ctx, side, lots, cap)[i] == offer(ctx, side, lots[k], cap),
        !is_offered(ctx.active_orders, lots[k].lot_id),
    decreases lots.len(),
{
    let before = lot_offers(ctx, side, lots.drop_last(), cap);
    if i < before.len() {
        lemma_offer_of(ctx, side, lots.drop_last(), cap, i)
    } else {
        lots.len() - 1
    }
}

proof fn lemma_offer_at(
    ctx: Situation,
    side: Side,
    lots: Seq<Lot>,
    cap: Option<Price>,
    at: int,
) -> (k: int)
    requires
        0 <= at < lots.len(),
        !is_offered(ctx.active_orders, lots[at].lot_id),
    ensures
        0 <= k < lot_offers(ctx, side, lots, cap).len(),
        lot_offers(ctx, side, lots, cap)[k] == offer(ctx, side, lots[at], cap),
    decreases lots.len(),
{
    if at == lots.len() - 1 {
        lot_offers(ctx, side, lots, cap).len() - 1
    } else {
        lemma_offer_at(ctx, side, lots.drop_last(), cap, at)
    }
}

proof fn lemma_rests_on_offer(ctx: Situation, lot_id: LotId)
    ensures
        rests_on_offer(ctx, lot_id) == is_offered(ctx.active_orders, lot_id),
{
    if rests_on_offer(ctx, lot_id) {
        let k = choose|k: int|
            0 <= k < ctx.active_orders.len() && (#[trigger] ctx.active_orders[k]).direction
                == OrderDirection::Sell && ctx.active_orders[k].lot_id == Some(lot_id);
        assert(is_offer_of(ctx.active_orders[k], lot_id));
    }
    if is_offered(ctx.active_orders, lot_id) {
        let k = choose|k: int|
            0 <= k < ctx.active_orders.len() && is_offer_of(
                #[trigger] ctx.active_orders[k],
                lot_id,
            );
        assert(ctx.active_orders[k].direction == OrderDirection::Sell);
    }
}

proof fn lemma_hundredths(n: int)
    ensures
        scaled(n, 2) * 100real == n as real,
{
    lemma_scaled_product(n, 2);
    reveal_with_fuel(pow10, 4);
    assert(pow10(2) == 100);
}

proof fn lemma_aim(ctx: Situation)
    ensures
        is_aimed_at(ctx, crate::strategy::offers::aim(ctx)),
{
    lemma_hundredths(25);
    lemma_hundredths(50);
    lemma_hundredths(75);
}

/// The loss at which a lot could be given up is that of the current quarter.
pub proof fn losses_are_limited_by_quarter(
    config: crate::strategy::config::StrategyConfig,
    progress: Decimal,
)
    ensures
        ({
            let part = progress@ * 4real;
            let limit = crate::strategy::config::loss_limit(config, progress);
            &&& part < 1real ==> limit == config.sl_by_quartile@[0]
            &&& 1real <= part < 2real ==> limit == config.sl_by_quartile@[1]
            &&& 2real <= part < 3real ==> limit == config.sl_by_quartile@[2]
            &&& 3real <= part ==> limit == config.sl_by_quartile@[3]
        }),
{
    lemma_hundredths(25);
    lemma_hundredths(50);
    lemma_hundredths(75);
}

proof fn lemma_raised(sum: Decimal, digits: nat)
    requires
        sum.wf(),
        sum@ >= 0real,
    ensures
        is_raised_to(sum.raised(digits), sum@, digits),
{
    raising_rounds_up(sum, digits);
    let n = raised_parts(sum@, digits).0;
    assert(sum.raised(digits)@ == scaled(n, digits));
}

proof fn lemma_cut(value: Decimal, digits: nat)
    requires
        value.wf(),
        value@ >= 0real,
    ensures
        is_cut_to(value.cut(digits), value@, digits),
{
    cutting_rounds_down(value, digits);
    let n = cut_parts(value@, digits).0;
    assert(value.cut(digits)@ == scaled(n, digits));
}

/// A price under the cap stays under it when it is raised, and the cap stays as it is.
proof fn lemma_cap(sum: Decimal, digits: nat)
    requires
        sum.wf(),
        sum@ >= 0real,
        digits >= 2,
    ensures
        dec(99, 2)@ * 100real == 99real,
        dec(99, 2).raised(digits)@ == dec(99, 2)@,
        sum@ <= dec(99, 2)@ ==> sum.raised(digits)@ <= dec(99, 2)@,
{
    written_value(99, 2);
    lemma_hundredths(99);
    let n = 99 * pow10((digits - 2) as nat);
    lemma_scaled_units(99, 2, digits);
    quantizing_is_nearest(sum, digits, n);
    quantizing_is_nearest(dec(99, 2), digits, n);
    raising_rounds_up(dec(99, 2), digits);
}

/// One cent has the exchange's digits.
proof fn lemma_cent(ctx: Situation)
    requires
        ctx.constraints.price_scale >= 2,
    ensures
        dec(1, 2)@ * 100real == 1real,
        building_drift(ctx)@ * 100real == 1real,
{
    written_value(1, 2);
    lemma_hundredths(1);
    let digits = ctx.constraints.price_scale as nat;
    let n = 1 * pow10((digits - 2) as nat);
    lemma_scaled_units(1, 2, digits);
    quantizing_is_nearest(dec(1, 2), digits, n);
    cutting_rounds_down(dec(1, 2), digits);
}

proof fn lemma_first_bid(orders: Seq<ActiveOrder>, side: Side, from: int, f: int)
    requires
        0 <= from <= f < orders.len(),
        orders[f].side == side,
        orders[f].direction == OrderDirection::Buy,
        forall|k: int|
            0 <= k < f ==> (#[trigger] orders[k]).side != side || orders[k].direction
                != OrderDirection::Buy,
    ensures
        bid_place(orders, side, from) == Some(f),
    decreases f - from,
{
    if from < f {
        assert(orders[from].side != side || orders[from].direction != OrderDirection::Buy);
        lemma_first_bid(orders, side, from + 1, f);
    }
}

proof fn lemma_bid_place(orders: Seq<ActiveOrder>, side: Side, from: int)
    requires
        0 <= from <= orders.len(),
    ensures
        match bid_place(orders, side, from) {
            Some(f) => from <= f < orders.len() && orders[f].side == side && orders[f].direction
                == OrderDirection::Buy,
            None => forall|k: int|
                from <= k < orders.len() ==> (#[trigger] orders[k]).side != side
                    || orders[k].direction != OrderDirection::Buy,
        },
    decreases orders.len() - from,
{
    if from < orders.len() {
        lemma_bid_place(orders, side, from + 1);
    }
}

proof fn lemma_no_bids_in_offers(ctx: Situation, cap: Option<Price>)
    ensures
        forall|i: int|
            0 <= i < both_offers(ctx, cap).len() ==> (#[trigger] both_offers(ctx, cap)[i])
                is SubmitSell,
{
    let up = ctx.inventory.up.reverse();
    let down = ctx.inventory.down.reverse();
    let ups = lot_offers(ctx, Side::Up, up, cap);
    assert forall|i: int| 0 <= i < both_offers(ctx, cap).len() implies (#[trigger] both_offers(
        ctx,
        cap,
    )[i]) is SubmitSell by {
        if i < ups.len() {
            let k = lemma_offer_of(ctx, Side::Up, up, cap, i);
        } else {
            let k = lemma_offer_of(ctx, Side::Down, down, cap, i - ups.len());
        }
    }
}

} // verus!
