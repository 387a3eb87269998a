//! Bids: which side first, whether one is allowed, and at which price.

use crate::domain::order::{OrderDirection, TimeInForce};
use crate::domain::types::{OrderRole, Price, Side};
use crate::inventory::model::{lots_qty, lots_qty_fits};
use crate::strategy::context::{ActiveOrder, CommandIntent, DecisionContext, Situation};
use vstd::prelude::*;

verus! {

/// Whether the side with the lower bid is `Down`.
pub open spec fn down_is_cheaper(ctx: Situation) -> bool {
    match (ctx.market.up.best_bid, ctx.market.down.best_bid) {
        (Some(up), Some(down)) => down@ < up@,
        _ => false,
    }
}

/// The sides in the order in which they are bid for: the one with the lower bid
/// first, `Up` where neither is lower.
pub open spec fn bidding_order(ctx: Situation) -> (Side, Side) {
    if down_is_cheaper(ctx) {
        (Side::Down, Side::Up)
    } else {
        (Side::Up, Side::Down)
    }
}

/// Tells the order in which the sides are bid for.
pub(crate) fn cheaper_side(ctx: &DecisionContext) -> (r: (Side, Side))
    ensures
        r == bidding_order(ctx@),
{
    match (ctx.market.book(Side::Up).best_bid, ctx.market.book(Side::Down).best_bid) {
        (Some(up), Some(down)) => if down.lt(up) {
            (Side::Down, Side::Up)
        } else {
            (Side::Up, Side::Down)
        },
        _ => (Side::Up, Side::Down),
    }
}

/// Whether more of a side may be bought: it is below its own limit, and it does not
/// already lead by as much as a lead may be.
pub open spec fn buying_allowed(ctx: Situation, side: Side) -> bool {
    let net = lots_qty(ctx.inventory.lots(side));
    let other = lots_qty(ctx.inventory.lots(side.other()));
    &&& ctx.config.inventory_cap matches Some(cap) ==> net@ < cap@
    &&& ctx.config.imbalance_cap matches Some(cap) ==> net@ < other@ || (net - other)@ < cap@
}

/// Whether `buying_allowed` can be computed.
pub open spec fn buying_allowed_fits(ctx: Situation, side: Side) -> bool {
    let net = lots_qty(ctx.inventory.lots(side));
    let other = lots_qty(ctx.inventory.lots(side.other()));
    &&& lots_qty_fits(ctx.inventory.lots(side))
    &&& (ctx.config.imbalance_cap is Some && !(ctx.config.inventory_cap matches Some(cap)
        && net@ >= cap@)) ==> {
        &&& lots_qty_fits(ctx.inventory.lots(side.other()))
        &&& net@ >= other@ ==> net.sub_fits(other)
    }
}

/// Tells whether more of a side may be bought.
pub fn inventory_allows_buy(ctx: &DecisionContext, side: Side) -> (r: bool)
    requires
        buying_allowed_fits(ctx@, side),
    ensures
        r == buying_allowed(ctx@, side),
{
    let net = ctx.inventory.net_qty(side);
    if let Some(cap) = ctx.config.inventory_cap {
        if net.ge(cap) {
            return false;
        }
    }
    if let Some(cap) = ctx.config.imbalance_cap {
        let other = ctx.inventory.net_qty(side.opposite());
        if net.ge(other) && net.minus(other).ge(cap) {
            return false;
        }
    }
    true
}

/// The place of the first bid for a side, looking from `from` on.
pub open spec fn bid_place(orders: Seq<ActiveOrder>, side: Side, from: int) -> Option<int>
    decreases orders.len() - from,
{
    if from < 0 || from >= orders.len() {
        None
    } else if orders[from].side == side && orders[from].direction == OrderDirection::Buy {
        Some(from)
    } else {
        bid_place(orders, side, from + 1)
    }
}

/// The first resting bid for a side.
pub open spec fn resting_bid(orders: Seq<ActiveOrder>, side: Side) -> Option<ActiveOrder> {
    match bid_place(orders, side, 0) {
        Some(i) => Some(orders[i]),
        None => None,
    }
}

/// Finds the first resting bid for a side.
pub(crate) fn find_buy_order(orders: &[ActiveOrder], side: Side) -> (r: Option<ActiveOrder>)
    ensures
        r == resting_bid(orders@, side),
{
    let mut i: usize = 0;
    while i < orders.len()
        invariant
            i <= orders@.len(),
            bid_place(orders@, side, 0) == bid_place(orders@, side, i as int),
        decreases orders@.len() - i,
    {
        if orders[i].side == side && orders[i].direction == OrderDirection::Buy {
            return Some(orders[i]);
        }
        i += 1;
    }
    None
}

/// The bid for a side: one lot at the best bid, where there is one and the cash
/// suffices.
pub open spec fn new_bid(ctx: Situation, side: Side) -> Option<CommandIntent> {
    match ctx.market.at(side).best_bid {
        Some(bid) => {
            let price = bid.cut(ctx.constraints.price_scale as nat);
            if (price * ctx.config.lot_qty)@ > ctx.free_cash@ {
                None
            } else {
                Some(
                    CommandIntent::SubmitBuy {
                        side,
                        price,
                        qty: ctx.config.lot_qty,
                        role: OrderRole::Maker,
                        tif: TimeInForce::Gtc,
                    },
                )
            }
        },
        None => None,
    }
}

/// Whether the bid for a side can be computed.
pub open spec fn new_bid_fits(ctx: Situation, side: Side) -> bool {
    ctx.market.at(side).best_bid matches Some(bid) ==> bid.cut(
        ctx.constraints.price_scale as nat,
    ).mul_fits(ctx.config.lot_qty)
}

/// Makes the bid for a side.
pub(crate) fn make_buy_intent(ctx: &DecisionContext, side: Side) -> (r: Option<CommandIntent>)
    requires
        new_bid_fits(ctx@, side),
    ensures
        r == new_bid(ctx@, side),
{
    match ctx.market.book(side).best_bid {
        Some(bid) => {
            let price = ctx.constraints.quantize_price(bid);
            let qty = ctx.config.lot_qty;
            if price.times(qty).gt(ctx.free_cash) {
                None
            } else {
                Some(
                    CommandIntent::SubmitBuy {
                        side,
                        price,
                        qty,
                        role: OrderRole::Maker,
                        tif: TimeInForce::Gtc,
                    },
                )
            }
        },
        None => None,
    }
}

/// What an optional command adds to a list.
pub open spec fn optional(command: Option<CommandIntent>) -> Seq<CommandIntent> {
    match command {
        Some(c) => seq![c],
        None => Seq::empty(),
    }
}

/// What is done about the bid for one side: nothing where buying is not allowed or
/// there is no best bid; a new bid where none rests; a new one in place of a resting
/// one that the best bid has left behind by more than `drift`.
pub open spec fn side_bids(ctx: Situation, side: Side, drift: Price) -> Seq<CommandIntent> {
    if !buying_allowed(ctx, side) {
        Seq::empty()
    } else {
        match ctx.market.at(side).best_bid {
            None => Seq::empty(),
            Some(bid) => match resting_bid(ctx.active_orders, side) {
                Some(resting) => if (bid - resting.price)@ > drift@ {
                    seq![CommandIntent::Cancel(resting.order_id)] + optional(new_bid(ctx, side))
                } else {
                    Seq::empty()
                },
                None => optional(new_bid(ctx, side)),
            },
        }
    }
}

/// Whether `side_bids` can be computed.
pub open spec fn side_bids_fits(ctx: Situation, side: Side, drift: Price) -> bool {
    &&& buying_allowed_fits(ctx, side)
    &&& (buying_allowed(ctx, side) && ctx.market.at(side).best_bid is Some) ==> {
        let bid = ctx.market.at(side).best_bid->0;
        match resting_bid(ctx.active_orders, side) {
            Some(resting) => {
                &&& bid.sub_fits(resting.price)
                &&& (bid - resting.price)@ > drift@ ==> new_bid_fits(ctx, side)
            },
            None => new_bid_fits(ctx, side),
        }
    }
}

/// What is done about the bids for both sides, the cheaper side first.
pub open spec fn both_bids(ctx: Situation, drift: Price) -> Seq<CommandIntent> {
    let (first, second) = bidding_order(ctx);
    side_bids(ctx, first, drift) + side_bids(ctx, second, drift)
}

/// Whether `both_bids` can be computed.
pub open spec fn both_bids_fits(ctx: Situation, drift: Price) -> bool {
    side_bids_fits(ctx, Side::Up, drift) && side_bids_fits(ctx, Side::Down, drift)
}

/// Appends what is to be done about the bid for one side.
pub(crate) fn quote_side(
    ctx: &DecisionContext,
    side: Side,
    drift: Price,
    commands: &mut Vec<CommandIntent>,
)
    requires
        side_bids_fits(ctx@, side, drift),
    ensures
        final(commands)@ == old(commands)@ + side_bids(ctx@, side, drift),
{
    if !inventory_allows_buy(ctx, side) {
        return ;
    }
    let bid = match ctx.market.book(side).best_bid {
        Some(bid) => bid,
        None => {
            return ;
        },
    };
    match find_buy_order(ctx.active_orders, side) {
        Some(resting) => {
            if bid.minus(resting.price).gt(drift) {
                commands.push(CommandIntent::Cancel(resting.order_id));
                if let Some(command) = make_buy_intent(ctx, side) {
                    commands.push(command);
                }
            }
        },
        None => {
            if let Some(command) = make_buy_intent(ctx, side) {
                commands.push(command);
            }
        },
    }
}

/// Appends what is to be done about the bids for both sides.
pub(crate) fn quote_both(ctx: &DecisionContext, drift: Price, commands: &mut Vec<CommandIntent>)
    requires
        both_bids_fits(ctx@, drift),
    ensures
        final(commands)@ == old(commands)@ + both_bids(ctx@, drift),
{
    let (first, second) = cheaper_side(ctx);
    quote_side(ctx, first, drift, commands);
    quote_side(ctx, second, drift, commands);
}

} // verus!
