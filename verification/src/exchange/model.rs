//! The mathematical model of the simulated exchange.

use crate::decimal::dec;
use crate::domain::fee::FeeModel;
use crate::domain::market::MarketSnapshot;
use crate::domain::order::{Fill, Order, OrderDirection, OrderId};
use crate::domain::types::{OrderRole, Price, Side};
use crate::exchange::event::{ExchangeEvent, RejectReason};
use vstd::prelude::*;

verus! {

/// Whether the market crosses a resting order: an ask strictly below a bid's limit,
/// or a bid strictly above an offer's.
pub open spec fn crosses(market: MarketSnapshot, order: Order) -> bool {
    match order.direction {
        OrderDirection::Buy => market.at(order.side).best_ask matches Some(ask) && ask@
            < order.price@,
        OrderDirection::Sell => market.at(order.side).best_bid matches Some(bid) && bid@
            > order.price@,
    }
}

/// The price at which an order that does not rest trades at once: the best ask if it
/// is not above a bid's limit, or the best bid if it is not below an offer's.
pub open spec fn taking_price(market: Option<MarketSnapshot>, order: Order) -> Option<Price> {
    match market {
        Some(m) => match order.direction {
            OrderDirection::Buy => match m.at(order.side).best_ask {
                Some(ask) => if ask@ <= order.price@ {
                    Some(ask)
                } else {
                    None
                },
                None => None,
            },
            OrderDirection::Sell => match m.at(order.side).best_bid {
                Some(bid) => if bid@ >= order.price@ {
                    Some(bid)
                } else {
                    None
                },
                None => None,
            },
        },
        None => None,
    }
}

/// The report that an order was filled at `price`. A buyer pays the fee in shares, a
/// seller in cash.
pub open spec fn fill_of(fee: FeeModel, order: Order, price: Price) -> Fill {
    Fill {
        order_id: order.order_id,
        side: order.side,
        direction: order.direction,
        role: order.role,
        price,
        filled_qty: match order.direction {
            OrderDirection::Buy => fee.net(order.role, order.qty),
            OrderDirection::Sell => order.qty,
        },
        cash: match order.direction {
            OrderDirection::Buy => price * order.qty,
            OrderDirection::Sell => price * order.qty * (dec(1, 0) - fee.rate(order.role)),
        },
        generation: order.generation,
    }
}

/// Whether the report can be computed.
pub open spec fn fill_fits(fee: FeeModel, order: Order, price: Price) -> bool {
    &&& price.mul_fits(order.qty)
    &&& match order.direction {
        OrderDirection::Buy => fee.net_fits(order.role, order.qty),
        OrderDirection::Sell => {
            &&& dec(1, 0).sub_fits(fee.rate(order.role))
            &&& (price * order.qty).mul_fits(dec(1, 0) - fee.rate(order.role))
        },
    }
}

/// The orders that the market does not cross, in order.
pub open spec fn uncrossed(market: MarketSnapshot, orders: Seq<Order>) -> Seq<Order>
    decreases orders.len(),
{
    if orders.len() == 0 {
        Seq::empty()
    } else {
        let before = uncrossed(market, orders.drop_last());
        if crosses(market, orders.last()) {
            before
        } else {
            before.push(orders.last())
        }
    }
}

/// The reports of the orders that the market crosses, in order, each at its limit.
pub open spec fn crossing_fills(fee: FeeModel, market: MarketSnapshot, orders: Seq<Order>) -> Seq<
    ExchangeEvent,
>
    decreases orders.len(),
{
    if orders.len() == 0 {
        Seq::empty()
    } else {
        let before = crossing_fills(fee, market, orders.drop_last());
        if crosses(market, orders.last()) {
            before.push(ExchangeEvent::Filled(fill_of(fee, orders.last(), orders.last().price)))
        } else {
            before
        }
    }
}

/// Whether a cancellation of `side`, or of everything, concerns an order.
pub open spec fn concerns(side: Option<Side>, order: Order) -> bool {
    side matches Some(s) ==> order.side == s
}

/// The orders that a cancellation leaves, in order.
pub open spec fn uncancelled(side: Option<Side>, orders: Seq<Order>) -> Seq<Order>
    decreases orders.len(),
{
    if orders.len() == 0 {
        Seq::empty()
    } else {
        let before = uncancelled(side, orders.drop_last());
        if concerns(side, orders.last()) {
            before
        } else {
            before.push(orders.last())
        }
    }
}

/// The reports of a cancellation, in order.
pub open spec fn cancellations(side: Option<Side>, orders: Seq<Order>) -> Seq<ExchangeEvent>
    decreases orders.len(),
{
    if orders.len() == 0 {
        Seq::empty()
    } else {
        let before = cancellations(side, orders.drop_last());
        if concerns(side, orders.last()) {
            before.push(ExchangeEvent::Canceled(orders.last().order_id))
        } else {
            before
        }
    }
}

/// The place of an order, looking from `from` on.
pub open spec fn order_place(orders: Seq<Order>, order_id: OrderId, from: int) -> Option<int>
    decreases orders.len() - from,
{
    if from < 0 || from >= orders.len() {
        None
    } else if orders[from].order_id == order_id {
        Some(from)
    } else {
        order_place(orders, order_id, from + 1)
    }
}

/// The model of a simulated exchange.
pub struct Venue {
    /// The orders that rest, in the order in which they came.
    pub resting: Seq<Order>,
    pub fee: FeeModel,
    /// The latest market, if there was one.
    pub market: Option<MarketSnapshot>,
    /// The reports that were not taken yet, the oldest first.
    pub outbox: Seq<ExchangeEvent>,
}

impl Venue {
    /// A new exchange.
    pub open spec fn opened(fee: FeeModel) -> Venue {
        Venue { resting: Seq::empty(), fee, market: None, outbox: Seq::empty() }
    }

    /// After the market moved: every crossed order is filled at its limit.
    pub open spec fn moved(self, market: MarketSnapshot) -> Venue {
        Venue {
            resting: uncrossed(market, self.resting),
            market: Some(market),
            outbox: self.outbox + crossing_fills(self.fee, market, self.resting),
            ..self
        }
    }

    /// Whether a move of the market can be handled.
    pub open spec fn moved_fits(self, market: MarketSnapshot) -> bool {
        forall|i: int|
            0 <= i < self.resting.len() && crosses(market, #[trigger] self.resting[i])
                ==> fill_fits(self.fee, self.resting[i], self.resting[i].price)
    }

    /// After an order came: a maker rests, in place of an order with the same
    /// identifier; a taker is filled or rejected at once.
    pub open spec fn submitted(self, order: Order) -> Venue {
        match order.role {
            OrderRole::Maker => Venue {
                resting: match order_place(self.resting, order.order_id, 0) {
                    Some(i) => self.resting.update(i, order),
                    None => self.resting.push(order),
                },
                ..self
            },
            OrderRole::Taker => Venue {
                outbox: self.outbox.push(
                    match taking_price(self.market, order) {
                        Some(price) => ExchangeEvent::Filled(fill_of(self.fee, order, price)),
                        None => ExchangeEvent::Rejected {
                            order_id: order.order_id,
                            reason: RejectReason::InvalidPrice,
                        },
                    },
                ),
                ..self
            },
        }
    }

    /// Whether an order can be handled.
    pub open spec fn submitted_fits(self, order: Order) -> bool {
        order.role == OrderRole::Taker ==> (taking_price(self.market, order) matches Some(price)
            ==> fill_fits(self.fee, order, price))
    }

    /// After one order was to be cancelled.
    pub open spec fn cancelled_one(self, order_id: OrderId) -> Venue {
        match order_place(self.resting, order_id, 0) {
            Some(i) => Venue {
                resting: self.resting.remove(i),
                outbox: self.outbox.push(ExchangeEvent::Canceled(order_id)),
                ..self
            },
            None => Venue {
                outbox: self.outbox.push(ExchangeEvent::CancelFailed(order_id)),
                ..self
            },
        }
    }

    /// After the orders of a side, or all of them, were cancelled.
    pub open spec fn cancelled(self, side: Option<Side>) -> Venue {
        Venue {
            resting: uncancelled(side, self.resting),
            outbox: self.outbox + cancellations(side, self.resting),
            ..self
        }
    }
}

} // verus!
