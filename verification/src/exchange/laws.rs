//! What holds of the simulated exchange.

use crate::domain::market::MarketSnapshot;
use crate::domain::order::{Order, OrderDirection, OrderId};
use crate::domain::types::{OrderRole, Side};
use crate::exchange::event::ExchangeEvent;
use crate::exchange::model::{
    cancellations, concerns, crosses, crossing_fills, fill_of, order_place, taking_price,
    uncancelled, uncrossed, Venue,
};
use vstd::prelude::*;

verus! {

/// Whether no two resting orders share an identifier.
pub open spec fn distinct_ids(orders: Seq<Order>) -> bool {
    forall|i: int, j: int|
        0 <= i < j < orders.len() ==> orders[i].order_id != orders[j].order_id
}

/// Whatever is asked of the exchange, no two resting orders share an identifier.
pub proof fn identifiers_stay_distinct(
    venue: Venue,
    order: Order,
    order_id: OrderId,
    side: Option<Side>,
    market: MarketSnapshot,
)
    requires
        distinct_ids(venue.resting),
    ensures
        distinct_ids(venue.submitted(order).resting),
        distinct_ids(venue.cancelled_one(order_id).resting),
        distinct_ids(venue.cancelled(side).resting),
        distinct_ids(venue.moved(market).resting),
{
    lemma_place(venue.resting, order.order_id, 0);
    lemma_place(venue.resting, order_id, 0);
    lemma_uncancelled(side, venue.resting);
    lemma_uncrossed(market, venue.resting);
}

/// A new exchange has no two orders of one identifier.
pub proof fn new_exchange_is_distinct(fee: crate::domain::fee::FeeModel)
    ensures
        distinct_ids(Venue::opened(fee).resting),
{
}

/// A resting order is filled by a move of the market exactly when the market crosses
/// it, and otherwise goes on resting.
pub proof fn only_crossed_orders_are_filled(venue: Venue, market: MarketSnapshot, i: int)
    requires
        0 <= i < venue.resting.len(),
    ensures
        !crosses(market, venue.resting[i]) ==> venue.moved(market).resting.contains(
            venue.resting[i],
        ),
        crosses(market, venue.resting[i]) ==> venue.moved(market).outbox.contains(
            ExchangeEvent::Filled(fill_of(venue.fee, venue.resting[i], venue.resting[i].price)),
        ),
{
    lemma_split(venue.fee, market, venue.resting, i);
    let fills = crossing_fills(venue.fee, market, venue.resting);
    if crosses(market, venue.resting[i]) {
        let event = ExchangeEvent::Filled(
            fill_of(venue.fee, venue.resting[i], venue.resting[i].price),
        );
        let k = choose|k: int| 0 <= k < fills.len() && fills[k] == event;
        assert(venue.moved(market).outbox[venue.outbox.len() + k] == event);
    }
}

/// After a move of the market nothing that rests is crossed by it, and no order was
/// lost or invented: the orders that rest and the new reports add up to those before.
pub proof fn moves_lose_no_order(venue: Venue, market: MarketSnapshot)
    ensures
        forall|i: int|
            0 <= i < venue.moved(market).resting.len() ==> !crosses(
                market,
                #[trigger] venue.moved(market).resting[i],
            ),
        venue.moved(market).resting.len() + venue.moved(market).outbox.len()
            == venue.resting.len() + venue.outbox.len(),
{
    lemma_uncrossed(market, venue.resting);
    lemma_counts(venue.fee, market, venue.resting);
}

/// Takers trade within their limit: a buyer never pays more, a seller never gets less.
pub proof fn takers_trade_within_their_limit(market: Option<MarketSnapshot>, order: Order)
    ensures
        taking_price(market, order) matches Some(price) ==> match order.direction {
            OrderDirection::Buy => price@ <= order.price@,
            OrderDirection::Sell => price@ >= order.price@,
        },
{
}

/// A taker never rests, and gets exactly one report.
pub proof fn takers_never_rest(venue: Venue, order: Order)
    requires
        order.role == OrderRole::Taker,
    ensures
        venue.submitted(order).resting == venue.resting,
        venue.submitted(order).outbox.len() == venue.outbox.len() + 1,
{
}

/// A cancelled order rests no more, and asking again fails.
pub proof fn cancelled_orders_are_gone(venue: Venue, order_id: OrderId)
    requires
        distinct_ids(venue.resting),
    ensures
        order_place(venue.cancelled_one(order_id).resting, order_id, 0) is None,
        venue.cancelled_one(order_id).cancelled_one(order_id).outbox.last()
            == ExchangeEvent::CancelFailed(order_id),
{
    lemma_place(venue.resting, order_id, 0);
    lemma_place(venue.cancelled_one(order_id).resting, order_id, 0);
}

/// After a side was cancelled nothing of it rests; after everything was, nothing does.
pub proof fn cancellations_are_complete(venue: Venue, side: Side)
    ensures
        forall|i: int|
            0 <= i < venue.cancelled(Some(side)).resting.len() ==> (#[trigger] venue.cancelled(
                Some(side),
            ).resting[i]).side != side,
        venue.cancelled(None).resting.len() == 0,
        venue.cancelled(None).outbox.len() == venue.outbox.len() + venue.resting.len(),
{
    lemma_uncancelled(Some(side), venue.resting);
    lemma_uncancelled(None, venue.resting);
    lemma_cancel_counts(venue.resting);
}

/// An order that was placed and cancelled leaves the resting orders as they were.
pub proof fn cancelling_undoes_placing(venue: Venue, order: Order)
    requires
        order.role == OrderRole::Maker,
        order_place(venue.resting, order.order_id, 0) is None,
    ensures
        venue.submitted(order).cancelled_one(order.order_id).resting == venue.resting,
{
    lemma_place(venue.resting, order.order_id, 0);
    let placed = venue.submitted(order).resting;
    lemma_place(placed, order.order_id, 0);
    assert(placed[venue.resting.len() as int].order_id == order.order_id);
    assert(placed.remove(venue.resting.len() as int) =~= venue.resting);
}

proof fn lemma_place(orders: Seq<Order>, order_id: OrderId, from: int)
    requires
        0 <= from <= orders.len(),
    ensures
        match order_place(orders, order_id, from) {
            Some(i) => from <= i < orders.len() && orders[i].order_id == order_id && forall|k: int|
                from <= k < i ==> orders[k].order_id != order_id,
            None => forall|k: int| from <= k < orders.len() ==> orders[k].order_id != order_id,
        },
    decreases orders.len() - from,
{
    if from < orders.len() {
        lemma_place(orders, order_id, from + 1);
    }
}

proof fn lemma_uncrossed(market: MarketSnapshot, orders: Seq<Order>)
    ensures
        forall|i: int|
            0 <= i < uncrossed(market, orders).len() ==> !crosses(
                market,
                #[trigger] uncrossed(market, orders)[i],
            ) && orders.contains(uncrossed(market, orders)[i]),
        distinct_ids(orders) ==> distinct_ids(uncrossed(market, orders)),
    decreases orders.len(),
{
    if orders.len() > 0 {
        let init = orders.drop_last();
        lemma_uncrossed(market, init);
        let all = uncrossed(market, orders);
        let before = uncrossed(market, init);
        assert forall|i: int| 0 <= i < all.len() implies !crosses(market, #[trigger] all[i])
            && orders.contains(all[i]) by {
            if i < before.len() {
                let k = choose|k: int| 0 <= k < init.len() && init[k] == before[i];
                assert(orders[k] == all[i]);
            } else {
                assert(orders[orders.len() - 1] == all[i]);
            }
        }
        if distinct_ids(orders) {
            assert(distinct_ids(init));
            assert forall|i: int, j: int| 0 <= i < j < all.len() implies all[i].order_id
                != all[j].order_id by {
                if j == before.len() {
                    let k = choose|k: int| 0 <= k < init.len() && init[k] == before[i];
                    assert(orders[k] == all[i]);
                }
            }
        }
    }
}

proof fn lemma_uncancelled(side: Option<Side>, orders: Seq<Order>)
    ensures
        forall|i: int|
            0 <= i < uncancelled(side, orders).len() ==> !concerns(
                side,
                #[trigger] uncancelled(side, orders)[i],
            ) && orders.contains(uncancelled(side, orders)[i]),
        distinct_ids(orders) ==> distinct_ids(uncancelled(side, orders)),
        side is None ==> uncancelled(side, orders).len() == 0,
    decreases orders.len(),
{
    if orders.len() > 0 {
        let init = orders.drop_last();
        lemma_uncancelled(side, init);
        let all = uncancelled(side, orders);
        let before = uncancelled(side, init);
        assert forall|i: int| 0 <= i < all.len() implies !concerns(side, #[trigger] all[i])
            && orders.contains(all[i]) by {
            if i < before.len() {
                let k = choose|k: int| 0 <= k < init.len() && init[k] == before[i];
                assert(orders[k] == all[i]);
            } else {
                assert(orders[orders.len() - 1] == all[i]);
            }
        }
        if distinct_ids(orders) {
            assert(distinct_ids(init));
            assert forall|i: int, j: int| 0 <= i < j < all.len() implies all[i].order_id
                != all[j].order_id by {
                if j == before.len() {
                    let k = choose|k: int| 0 <= k < init.len() && init[k] == before[i];
                    assert(orders[k] == all[i]);
                }
            }
        }
    }
}

proof fn lemma_cancel_counts(orders: Seq<Order>)
    ensures
        cancellations(None, orders).len() == orders.len(),
    decreases orders.len(),
{
    if orders.len() > 0 {
        lemma_cancel_counts(orders.drop_last());
    }
}

proof fn lemma_counts(
    fee: crate::domain::fee::FeeModel,
    market: MarketSnapshot,
    orders: Seq<Order>,
)
    ensures
        uncrossed(market, orders).len() + crossing_fills(fee, market, orders).len()
            == orders.len(),
    decreases orders.len(),
{
    if orders.len() > 0 {
        lemma_counts(fee, market, orders.drop_last());
    }
}

proof fn lemma_split(
    fee: crate::domain::fee::FeeModel,
    market: MarketSnapshot,
    orders: Seq<Order>,
    i: int,
)
    requires
        0 <= i < orders.len(),
    ensures
        !crosses(market, orders[i]) ==> uncrossed(market, orders).contains(orders[i]),
        crosses(market, orders[i]) ==> crossing_fills(fee, market, orders).contains(
            ExchangeEvent::Filled(fill_of(fee, orders[i], orders[i].price)),
        ),
    decreases orders.len(),
{
    let init = orders.drop_last();
    if i < init.len() {
        lemma_split(fee, market, init, i);
        if crosses(market, orders[i]) {
            let event = ExchangeEvent::Filled(fill_of(fee, orders[i], orders[i].price));
            let before = crossing_fills(fee, market, init);
            let k = choose|k: int| 0 <= k < before.len() && before[k] == event;
            assert(crossing_fills(fee, market, orders)[k] == event);
        } else {
            let before = uncrossed(market, init);
            let k = choose|k: int| 0 <= k < before.len() && before[k] == orders[i];
            assert(uncrossed(market, orders)[k] == orders[i]);
        }
    } else {
        if crosses(market, orders[i]) {
            let all = crossing_fills(fee, market, orders);
            assert(all[all.len() - 1] == ExchangeEvent::Filled(
                fill_of(fee, orders[i], orders[i].price),
            ));
        } else {
            let all = uncrossed(market, orders);
            assert(all[all.len() - 1] == orders[i]);
        }
    }
}

} // verus!
