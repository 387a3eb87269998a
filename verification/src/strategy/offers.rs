//! Offers: every lot is offered once, at its cost plus the profit aimed at.

use crate::domain::order::{OrderDirection, TimeInForce};
use crate::domain::types::{OrderRole, Price, Side};
use crate::inventory::lot::{Lot, LotId};
use crate::strategy::config::quarter;
use crate::strategy::context::{ActiveOrder, CommandIntent, DecisionContext, Situation};
use vstd::prelude::*;

verus! {

/// Whether an order offers a lot.
pub open spec fn is_offer_of(order: ActiveOrder, lot_id: LotId) -> bool {
    order.lot_id == Some(lot_id) && order.direction == OrderDirection::Sell
}

/// Whether a lot is already offered.
pub open spec fn is_offered(orders: Seq<ActiveOrder>, lot_id: LotId) -> bool {
    exists|i: int| 0 <= i < orders.len() && is_offer_of(#[trigger] orders[i], lot_id)
}

/// Tells whether a lot is already offered.
pub(crate) fn has_sell_for_lot(orders: &[ActiveOrder], lot_id: LotId) -> (r: bool)
    ensures
        r == is_offered(orders@, lot_id),
{
    let mut i: usize = 0;
    while i < orders.len()
        invariant
            i <= orders@.len(),
            forall|k: int| 0 <= k < i ==> !is_offer_of(#[trigger] orders@[k], lot_id),
        decreases orders@.len() - i,
    {
        let order = orders[i];
        if order.direction == OrderDirection::Sell {
            if let Some(bound) = order.lot_id {
                if bound == lot_id {
                    assert(is_offer_of(orders@[i as int], lot_id));
                    return true;
                }
            }
        }
        i += 1;
    }
    false
}

/// The profit per share aimed at.
pub open spec fn aim(ctx: Situation) -> Price {
    ctx.config.tp_by_quartile@[quarter(ctx.progress)]
}

/// The price at which a lot is offered: its cost plus the aim, at most `cap`, raised
/// to the exchange's digits.
pub open spec fn offer_price(ctx: Situation, lot: Lot, cap: Option<Price>) -> Price {
    let target = lot.buy_price + aim(ctx);
    let capped = match cap {
        Some(c) => target.smaller(c),
        None => target,
    };
    capped.raised(ctx.constraints.price_scale as nat)
}

/// The offer of a lot.
pub open spec fn offer(ctx: Situation, side: Side, lot: Lot, cap: Option<Price>) -> CommandIntent {
    CommandIntent::SubmitSell {
        lot_id: lot.lot_id,
        side,
        price: offer_price(ctx, lot, cap),
        qty: lot.qty,
        role: OrderRole::Maker,
        tif: TimeInForce::Gtc,
    }
}

/// The offers of those lots, in order, that are not offered yet.
pub open spec fn lot_offers(
    ctx: Situation,
    side: Side,
    lots: Seq<Lot>,
    cap: Option<Price>,
) -> Seq<CommandIntent>
    decreases lots.len(),
{
    if lots.len() == 0 {
        Seq::empty()
    } else {
        let before = lot_offers(ctx, side, lots.drop_last(), cap);
        if is_offered(ctx.active_orders, lots.last().lot_id) {
            before
        } else {
            before.push(offer(ctx, side, lots.last(), cap))
        }
    }
}

/// The offers of a side, the latest purchase first.
pub open spec fn side_offers(ctx: Situation, side: Side, cap: Option<Price>) -> Seq<
    CommandIntent,
> {
    lot_offers(ctx, side, ctx.inventory.lots(side).reverse(), cap)
}

/// The offers of both sides.
pub open spec fn both_offers(ctx: Situation, cap: Option<Price>) -> Seq<CommandIntent> {
    side_offers(ctx, Side::Up, cap) + side_offers(ctx, Side::Down, cap)
}

/// Whether the offers of a side can be computed.
pub open spec fn side_offers_fits(ctx: Situation, side: Side) -> bool {
    forall|i: int|
        #![trigger ctx.inventory.lots(side)[i]]
        0 <= i < ctx.inventory.lots(side).len() && !is_offered(
            ctx.active_orders,
            ctx.inventory.lots(side)[i].lot_id,
        ) ==> ctx.inventory.lots(side)[i].buy_price.add_fits(aim(ctx))
}

/// Whether the offers of both sides can be computed.
pub open spec fn both_offers_fits(ctx: Situation) -> bool {
    side_offers_fits(ctx, Side::Up) && side_offers_fits(ctx, Side::Down)
}

/// Appends the offers of a side.
pub(crate) fn offer_side(
    ctx: &DecisionContext,
    side: Side,
    cap: Option<Price>,
    commands: &mut Vec<CommandIntent>,
)
    requires
        side_offers_fits(ctx@, side),
    ensures
        final(commands)@ == old(commands)@ + side_offers(ctx@, side, cap),
{
    let tp = ctx.config.tp(ctx.progress);
    let lots = ctx.inventory.open_lots(side);
    let mut i: usize = 0;
    proof {
        assert(lots@.take(0) =~= Seq::<Lot>::empty());
        assert(commands@ =~= old(commands)@ + lot_offers(ctx@, side, lots@.take(0), cap));
    }
    while i < lots.len()
        invariant
            i <= lots@.len(),
            lots@ == ctx@.inventory.lots(side).reverse(),
            side_offers_fits(ctx@, side),
            tp == aim(ctx@),
            commands@ == old(commands)@ + lot_offers(ctx@, side, lots@.take(i as int), cap),
        decreases lots@.len() - i,
    {
        let lot = lots[i];
        let ghost held = ctx@.inventory.lots(side);
        proof {
            assert(lots@.take(i as int + 1).drop_last() =~= lots@.take(i as int));
            assert(lot == held[held.len() - 1 - i]);
        }
        if !has_sell_for_lot(ctx.active_orders, lot.lot_id) {
            let target = lot.buy_price.plus(tp);
            let capped = match cap {
                Some(c) => target.min(c),
                None => target,
            };
            let price = ctx.constraints.quantize_price_up(capped);
            commands.push(
                CommandIntent::SubmitSell {
                    lot_id: lot.lot_id,
                    side,
                    price,
                    qty: lot.qty,
                    role: OrderRole::Maker,
                    tif: TimeInForce::Gtc,
                },
            );
        }
        i += 1;
    }
    proof {
        assert(lots@.take(lots@.len() as int) =~= lots@);
    }
}

/// Appends the offers of both sides.
pub(crate) fn offer_both(
    ctx: &DecisionContext,
    cap: Option<Price>,
    commands: &mut Vec<CommandIntent>,
)
    requires
        both_offers_fits(ctx@),
    ensures
        final(commands)@ == old(commands)@ + both_offers(ctx@, cap),
{
    offer_side(ctx, Side::Up, cap, commands);
    offer_side(ctx, Side::Down, cap, commands);
}

} // verus!
