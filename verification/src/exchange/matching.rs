//! What the simulated exchange does to an order, told by the fields of the market, the
//! order and the reports.

use crate::decimal::{dec, Decimal};
use crate::domain::fee::FeeModel;
use crate::domain::market::MarketSnapshot;
use crate::domain::order::{Fill, Order, OrderDirection, OrderId};
use crate::domain::types::{OrderRole, Price, Side};
use crate::exchange::event::{ExchangeEvent, RejectReason};
use crate::exchange::laws::distinct_ids;
use crate::exchange::model::{
    cancellations, crosses, crossing_fills, order_place, uncancelled, uncrossed, Venue,
};
use vstd::prelude::*;

verus! {

/// Whether the book of the order's own side shows a better price than its limit: a lower
/// ask for a bid, a higher bid for an offer.
pub open spec fn is_beaten(market: MarketSnapshot, order: Order) -> bool {
    if order.side == Side::Up && order.direction == OrderDirection::Buy {
        market.up.best_ask is Some && market.up.best_ask->0@ < order.price@
    } else if order.side == Side::Up {
        market.up.best_bid is Some && market.up.best_bid->0@ > order.price@
    } else if order.direction == OrderDirection::Buy {
        market.down.best_ask is Some && market.down.best_ask->0@ < order.price@
    } else {
        market.down.best_bid is Some && market.down.best_bid->0@ > order.price@
    }
}

/// The fee of an order's role.
pub open spec fn fee_for(fee: FeeModel, order: Order) -> Decimal {
    if order.role == OrderRole::Maker {
        fee.maker_fee_rate
    } else {
        fee.taker_fee_rate
    }
}

/// Whether a fill reports an order at a price: it is about that very order; a buyer pays
/// price times ordered shares and receives them less the fee; a seller gives the ordered
/// shares and receives price times shares less the fee.
pub open spec fn reports(fill: Fill, order: Order, price: Price, fee: FeeModel) -> bool {
    &&& fill.order_id == order.order_id
    &&& fill.side == order.side
    &&& fill.direction == order.direction
    &&& fill.role == order.role
    &&& fill.generation == order.generation
    &&& fill.price == price
    &&& order.direction == OrderDirection::Buy ==> {
        &&& fill.cash == price * order.qty
        &&& fill.filled_qty == order.qty * (dec(1, 0) - fee_for(fee, order))
    }
    &&& order.direction == OrderDirection::Sell ==> {
        &&& fill.filled_qty == order.qty
        &&& fill.cash == price * order.qty * (dec(1, 0) - fee_for(fee, order))
    }
}

/// Whether a report, from `from` on, says that an order was filled.
pub open spec fn is_reported_filled(
    outbox: Seq<ExchangeEvent>,
    from: int,
    order: Order,
    fee: FeeModel,
) -> bool {
    exists|k: int|
        from <= k < outbox.len() && (#[trigger] outbox[k] matches ExchangeEvent::Filled(fill)
            && reports(fill, order, order.price, fee))
}

/// Whether a report, from `from` on, is about the fill of an order with this identifier.
pub open spec fn is_mentioned(outbox: Seq<ExchangeEvent>, from: int, order_id: OrderId) -> bool {
    exists|k: int|
        from <= k < outbox.len() && (#[trigger] outbox[k] matches ExchangeEvent::Filled(fill)
            && fill.order_id == order_id)
}

/// After a move of the market a resting order is filled, at its limit, if and only if the
/// book of its own side beats that limit; otherwise it goes on resting and no fill of it is
/// reported. Nothing else comes to rest, and the reports before the move stay.
pub proof fn orders_are_filled_by_their_own_side(venue: Venue, market: MarketSnapshot, i: int)
    requires
        distinct_ids(venue.resting),
        0 <= i < venue.resting.len(),
    ensures
        ({
            let order = venue.resting[i];
            let after = venue.moved(market);
            let n = venue.outbox.len() as int;
            &&& is_beaten(market, order) <==> !after.resting.contains(order)
            &&& is_beaten(market, order) <==> is_mentioned(after.outbox, n, order.order_id)
            &&& is_beaten(market, order) <==> is_reported_filled(after.outbox, n, order, venue.fee)
            &&& after.market == Some(market)
            &&& after.fee == venue.fee
            &&& n <= after.outbox.len()
            &&& after.outbox.take(n) == venue.outbox
        }),
{
    let order = venue.resting[i];
    let after = venue.moved(market);
    let n = venue.outbox.len() as int;
    let fills = crossing_fills(venue.fee, market, venue.resting);
    assert(crosses(market, order) == is_beaten(market, order));
    lemma_fills(venue.fee, market, venue.resting);
    lemma_rest(market, venue.resting);
    assert(after.outbox.take(n) =~= venue.outbox);
    if is_beaten(market, order) {
        let k = lemma_found(venue.fee, market, venue.resting, i);
        assert(after.outbox[n + k] == fills[k]);
        assert(is_reported_filled(after.outbox, n, order, venue.fee));
        assert(is_mentioned(after.outbox, n, order.order_id));
        if after.resting.contains(order) {
            let j = choose|j: int| 0 <= j < after.resting.len() && after.resting[j] == order;
            assert(!crosses(market, uncrossed(market, venue.resting)[j]));
        }
    } else {
        let j = lemma_kept(market, venue.resting, i);
        assert(after.resting[j] == order);
        if is_mentioned(after.outbox, n, order.order_id) {
            let k = choose|k: int|
                n <= k < after.outbox.len() && (#[trigger] after.outbox[k]
                    matches ExchangeEvent::Filled(fill) && fill.order_id == order.order_id);
            assert(after.outbox[k] == fills[k - n]);
            let s = lemma_source(venue.fee, market, venue.resting, k - n);
            assert(venue.resting[s].order_id == order.order_id);
            if s < i {
                assert(venue.resting[s].order_id != venue.resting[i].order_id);
            } else if i < s {
                assert(venue.resting[i].order_id != venue.resting[s].order_id);
            }
            assert(false);
        }
        if is_reported_filled(after.outbox, n, order, venue.fee) {
            let k = choose|k: int|
                n <= k < after.outbox.len() && (#[trigger] after.outbox[k]
                    matches ExchangeEvent::Filled(fill) && reports(
                    fill,
                    order,
                    order.price,
                    venue.fee,
                ));
            assert(is_mentioned(after.outbox, n, order.order_id));
        }
    }
}

/// Every report of a move is the fill of an order that rested, at its limit, and what rests
/// afterwards rested before, in the same order.
pub proof fn moves_invent_nothing(venue: Venue, market: MarketSnapshot, k: int) -> (s: int)
    requires
        venue.outbox.len() <= k < venue.moved(market).outbox.len(),
    ensures
        0 <= s < venue.resting.len(),
        is_beaten(market, venue.resting[s]),
        venue.moved(market).outbox[k] matches ExchangeEvent::Filled(fill) && reports(
            fill,
            venue.resting[s],
            venue.resting[s].price,
            venue.fee,
        ),
{
    let s = lemma_source(venue.fee, market, venue.resting, k - venue.outbox.len());
    assert(crosses(market, venue.resting[s]) == is_beaten(market, venue.resting[s]));
    s
}

/// The price that the book of the order's own side shows to a taker: the ask to a buyer,
/// the bid to a seller.
pub open spec fn shown_to(market: MarketSnapshot, order: Order) -> Option<Price> {
    if order.side == Side::Up && order.direction == OrderDirection::Buy {
        market.up.best_ask
    } else if order.side == Side::Up {
        market.up.best_bid
    } else if order.direction == OrderDirection::Buy {
        market.down.best_ask
    } else {
        market.down.best_bid
    }
}

/// Whether a taker trades: a market is there, its own side shows a price, and that is no
/// worse than its limit.
pub open spec fn can_trade(market: Option<MarketSnapshot>, order: Order) -> bool {
    market matches Some(m) && (shown_to(m, order) matches Some(price) && if order.direction
        == OrderDirection::Buy {
        price@ <= order.price@
    } else {
        price@ >= order.price@
    })
}

/// A taker gets one report and never rests: it is filled at the price that its own side
/// shows, if that is within its limit, and otherwise rejected.
pub proof fn takers_trade_at_once_or_not_at_all(venue: Venue, order: Order)
    requires
        order.role == OrderRole::Taker,
    ensures
        ({
            let after = venue.submitted(order);
            let n = venue.outbox.len() as int;
            &&& after.resting == venue.resting
            &&& after.market == venue.market
            &&& after.fee == venue.fee
            &&& after.outbox.len() == n + 1
            &&& after.outbox.take(n) == venue.outbox
            &&& can_trade(venue.market, order) ==> (after.outbox[n] matches ExchangeEvent::Filled(
                fill,
            ) && reports(fill, order, shown_to(venue.market->0, order)->0, venue.fee))
            &&& !can_trade(venue.market, order) ==> after.outbox[n] == (ExchangeEvent::Rejected {
                order_id: order.order_id,
                reason: RejectReason::InvalidPrice,
            })
        }),
{
    let after = venue.submitted(order);
    assert(after.outbox.take(venue.outbox.len() as int) =~= venue.outbox);
}

/// A maker comes to rest, in place of one with its identifier and beside all others, and
/// nothing is reported.
pub proof fn makers_come_to_rest(venue: Venue, order: Order)
    requires
        order.role == OrderRole::Maker,
    ensures
        ({
            let after = venue.submitted(order);
            &&& after.outbox == venue.outbox
            &&& after.market == venue.market
            &&& after.fee == venue.fee
            &&& after.resting.contains(order)
            &&& forall|i: int|
                0 <= i < venue.resting.len() && (#[trigger] venue.resting[i]).order_id
                    != order.order_id ==> after.resting.contains(venue.resting[i])
            &&& forall|j: int|
                0 <= j < after.resting.len() ==> (#[trigger] after.resting[j]) == order
                    || venue.resting.contains(after.resting[j])
        }),
{
    let after = venue.submitted(order);
    lemma_place(venue.resting, order.order_id, 0);
    match order_place(venue.resting, order.order_id, 0) {
        Some(at) => {
            assert(after.resting[at] == order);
            assert forall|i: int|
                0 <= i < venue.resting.len() && (#[trigger] venue.resting[i]).order_id
                    != order.order_id implies after.resting.contains(venue.resting[i]) by {
                assert(after.resting[i] == venue.resting[i]);
            }
            assert forall|j: int| 0 <= j < after.resting.len() implies (#[trigger]
            after.resting[j]) == order || venue.resting.contains(after.resting[j]) by {
                if j != at {
                    assert(venue.resting[j] == after.resting[j]);
                }
            }
        },
        None => {
            assert(after.resting[venue.resting.len() as int] == order);
            assert forall|i: int| 0 <= i < venue.resting.len() implies after.resting.contains(
                #[trigger] venue.resting[i],
            ) by {
                assert(after.resting[i] == venue.resting[i]);
            }
            assert forall|j: int| 0 <= j < after.resting.len() implies (#[trigger]
            after.resting[j]) == order || venue.resting.contains(after.resting[j]) by {
                if j < venue.resting.len() {
                    assert(venue.resting[j] == after.resting[j]);
                }
            }
        },
    }
}

/// Cancelling one order takes away that order and no other, and is reported as done if it
/// rested and as failed if it did not.
pub proof fn one_cancellation_takes_one_order(venue: Venue, order_id: OrderId)
    requires
        distinct_ids(venue.resting),
    ensures
        ({
            let after = venue.cancelled_one(order_id);
            let rested = exists|i: int|
                0 <= i < venue.resting.len() && (#[trigger] venue.resting[i]).order_id == order_id;
            &&& after.outbox == venue.outbox.push(
                if rested {
                    ExchangeEvent::Canceled(order_id)
                } else {
                    ExchangeEvent::CancelFailed(order_id)
                },
            )
            &&& after.market == venue.market
            &&& after.fee == venue.fee
            &&& forall|order: Order| #[trigger]
                after.resting.contains(order) <==> venue.resting.contains(order)
                    && order.order_id != order_id
        }),
{
    let after = venue.cancelled_one(order_id);
    lemma_place(venue.resting, order_id, 0);
    if let Some(at) = order_place(venue.resting, order_id, 0) {
        assert(venue.resting[at].order_id == order_id);
        assert forall|order: Order| #[trigger]
            after.resting.contains(order) <==> venue.resting.contains(order) && order.order_id
                != order_id by {
            if after.resting.contains(order) {
                let j = choose|j: int| 0 <= j < after.resting.len() && after.resting[j] == order;
                let k = if j < at { j } else { j + 1 };
                assert(venue.resting[k] == order);
                assert(venue.resting[at].order_id == order_id);
            }
            if venue.resting.contains(order) && order.order_id != order_id {
                let k = choose|k: int| 0 <= k < venue.resting.len() && venue.resting[k] == order;
                let j = if k < at { k } else { k - 1 };
                assert(after.resting[j] == order);
            }
        }
    } else {
        assert forall|order: Order| #[trigger]
            after.resting.contains(order) <==> venue.resting.contains(order) && order.order_id
                != order_id by {
            if venue.resting.contains(order) {
                let k = choose|k: int| 0 <= k < venue.resting.len() && venue.resting[k] == order;
                assert(venue.resting[k].order_id != order_id);
            }
        }
    }
}

/// Cancelling a side takes away every order of that side and none of the other; cancelling
/// everything takes away all. Each order that goes is reported once, in order, and nothing
/// else is.
pub proof fn cancelling_a_side_spares_the_other(venue: Venue, side: Option<Side>)
    ensures
        ({
            let after = venue.cancelled(side);
            let n = venue.outbox.len() as int;
            &&& after.market == venue.market
            &&& after.fee == venue.fee
            &&& n <= after.outbox.len()
            &&& after.outbox.take(n) == venue.outbox
            &&& forall|order: Order| #[trigger]
                after.resting.contains(order) <==> venue.resting.contains(order) && side is Some
                    && order.side != side->0
            &&& forall|i: int|
                0 <= i < venue.resting.len() && (side is None || (#[trigger] venue.resting[i]).side
                    == side->0) ==> after.outbox.contains(
                    ExchangeEvent::Canceled(venue.resting[i].order_id),
                )
            &&& after.resting.len() + after.outbox.len() == venue.resting.len()
                + venue.outbox.len()
        }),
{
    let after = venue.cancelled(side);
    let n = venue.outbox.len() as int;
    let gone = cancellations(side, venue.resting);
    assert(after.outbox.take(n) =~= venue.outbox);
    lemma_cancelled(side, venue.resting);
    assert forall|i: int|
        0 <= i < venue.resting.len() && (side is None || (#[trigger] venue.resting[i]).side
            == side->0) implies after.outbox.contains(
        ExchangeEvent::Canceled(venue.resting[i].order_id),
    ) by {
        let event = ExchangeEvent::Canceled(venue.resting[i].order_id);
        let k = lemma_reported(side, venue.resting, i);
        assert(after.outbox[n + k] == event);
    }
}

proof fn lemma_place(orders: Seq<Order>, order_id: OrderId, from: int)
    requires
        0 <= from <= orders.len(),
    ensures
        match order_place(orders, order_id, from) {
            Some(i) => from <= i < orders.len() && orders[i].order_id == order_id,
            None => forall|k: int|
                from <= k < orders.len() ==> (#[trigger] orders[k]).order_id != order_id,
        },
    decreases orders.len() - from,
{
    if from < orders.len() {
        lemma_place(orders, order_id, from + 1);
    }
}

proof fn lemma_fills(fee: FeeModel, market: MarketSnapshot, orders: Seq<Order>)
    ensures
        forall|k: int|
            0 <= k < crossing_fills(fee, market, orders).len() ==> (#[trigger] crossing_fills(
                fee,
                market,
                orders,
            )[k]) is Filled,
    decreases orders.len(),
{
    if orders.len() > 0 {
        lemma_fills(fee, market, orders.drop_last());
    }
}

proof fn lemma_rest(market: MarketSnapshot, orders: Seq<Order>)
    ensures
        forall|j: int|
            0 <= j < uncrossed(market, orders).len() ==> !crosses(
                market,
                #[trigger] uncrossed(market, orders)[j],
            ),
    decreases orders.len(),
{
    if orders.len() > 0 {
        lemma_rest(market, orders.drop_last());
        let before = uncrossed(market, orders.drop_last());
        let all = uncrossed(market, orders);
        assert forall|j: int| 0 <= j < all.len() implies !crosses(market, #[trigger] all[j]) by {
            if j < before.len() {
                assert(all[j] == before[j]);
            }
        }
    }
}

proof fn lemma_found(fee: FeeModel, market: MarketSnapshot, orders: Seq<Order>, i: int) -> (k: int)
    requires
        0 <= i < orders.len(),
        crosses(market, orders[i]),
    ensures
        0 <= k < crossing_fills(fee, market, orders).len(),
        crossing_fills(fee, market, orders)[k] matches ExchangeEvent::Filled(fill) && reports(
            fill,
            orders[i],
            orders[i].price,
            fee,
        ),
    decreases orders.len(),
{
    if i == orders.len() - 1 {
        crossing_fills(fee, market, orders).len() - 1
    } else {
        lemma_found(fee, market, orders.drop_last(), i)
    }
}

proof fn lemma_kept(market: MarketSnapshot, orders: Seq<Order>, i: int) -> (j: int)
    requires
        0 <= i < orders.len(),
        !crosses(market, orders[i]),
    ensures
        0 <= j < uncrossed(market, orders).len(),
        uncrossed(market, orders)[j] == orders[i],
    decreases orders.len(),
{
    if i == orders.len() - 1 {
        uncrossed(market, orders).len() - 1
    } else {
        lemma_kept(market, orders.drop_last(), i)
    }
}

proof fn lemma_source(
    fee: FeeModel,
    market: MarketSnapshot,
    orders: Seq<Order>,
    k: int,
) -> (s: int)
    requires
        0 <= k < crossing_fills(fee, market, orders).len(),
    ensures
        0 <= s < orders.len(),
        crosses(market, orders[s]),
        crossing_fills(fee, market, orders)[k] matches ExchangeEvent::Filled(fill) && reports(
            fill,
            orders[s],
            orders[s].price,
            fee,
        ),
    decreases orders.len(),
{
    let before = crossing_fills(fee, market, orders.drop_last());
    if k < before.len() {
        lemma_source(fee, market, orders.drop_last(), k)
    } else {
        orders.len() - 1
    }
}

proof fn lemma_cancelled(side: Option<Side>, orders: Seq<Order>)
    ensures
        forall|order: Order| #[trigger]
            uncancelled(side, orders).contains(order) <==> orders.contains(order) && side is Some
                && order.side != side->0,
        uncancelled(side, orders).len() + cancellations(side, orders).len() == orders.len(),
    decreases orders.len(),
{
    if orders.len() > 0 {
        let init = orders.drop_last();
        let last = orders.last();
        lemma_cancelled(side, init);
        let before = uncancelled(side, init);
        let all = uncancelled(side, orders);
        assert forall|order: Order| #[trigger]
            all.contains(order) <==> orders.contains(order) && side is Some && order.side
                != side->0 by {
            if all.contains(order) {
                let j = choose|j: int| 0 <= j < all.len() && all[j] == order;
                if j < before.len() {
                    assert(before[j] == order);
                    assert(before.contains(order));
                    let k = choose|k: int| 0 <= k < init.len() && init[k] == order;
                    assert(orders[k] == order);
                } else {
                    assert(orders[orders.len() - 1] == order);
                }
            }
            if orders.contains(order) && side is Some && order.side != side->0 {
                let k = choose|k: int| 0 <= k < orders.len() && orders[k] == order;
                if k < init.len() {
                    assert(init[k] == order);
                    assert(before.contains(order));
                    let j = choose|j: int| 0 <= j < before.len() && before[j] == order;
                    assert(all[j] == order);
                } else {
                    assert(all[all.len() - 1] == order);
                }
            }
        }
    }
}

proof fn lemma_reported(side: Option<Side>, orders: Seq<Order>, i: int) -> (k: int)
    requires
        0 <= i < orders.len(),
        side is None || orders[i].side == side->0,
    ensures
        0 <= k < cancellations(side, orders).len(),
        cancellations(side, orders)[k] == ExchangeEvent::Canceled(orders[i].order_id),
    decreases orders.len(),
{
    if i == orders.len() - 1 {
        cancellations(side, orders).len() - 1
    } else {
        lemma_reported(side, orders.drop_last(), i)
    }
}

} // verus!
