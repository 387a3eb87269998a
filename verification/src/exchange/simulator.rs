//! A simulated exchange, for tests and backtests.
//!
//! Makers rest until the market crosses their limit strictly, and are then filled at
//! their limit. Takers are filled at once at the best opposite price within their
//! limit, or rejected.

use crate::decimal::Decimal;
use crate::domain::fee::FeeModel;
use crate::domain::market::MarketSnapshot;
use crate::domain::order::{Fill, Order, OrderDirection, OrderId};
use crate::domain::types::{OrderRole, Price, Side};
use crate::exchange::backend::ExchangeBackend;
use crate::exchange::event::{ExchangeEvent, RejectReason};
use crate::exchange::model::{
    cancellations, crosses, crossing_fills, fill_fits, fill_of, order_place, uncancelled, uncrossed,
    Venue,
};
use vstd::prelude::*;

verus! {

/// A simulated exchange.
pub struct Simulator {
    resting_orders: Vec<Order>,
    fee_model: FeeModel,
    last_snapshot: Option<MarketSnapshot>,
    outbox: Vec<ExchangeEvent>,
}

impl View for Simulator {
    type V = Venue;

    closed spec fn view(&self) -> Venue {
        Venue {
            resting: self.resting_orders@,
            fee: self.fee_model,
            market: self.last_snapshot,
            outbox: self.outbox@,
        }
    }
}

impl Simulator {
    /// An exchange without orders, market or reports.
    pub fn new(fee_model: FeeModel) -> (r: Self)
        ensures
            r@ == Venue::opened(fee_model),
    {
        Self { resting_orders: Vec::new(), fee_model, last_snapshot: None, outbox: Vec::new() }
    }

    /// The number of orders that rest.
    pub fn resting_order_count(&self) -> (r: usize)
        ensures
            r == self@.resting.len(),
    {
        self.resting_orders.len()
    }

    /// Takes the oldest report, if there is one.
    pub fn try_recv(&mut self) -> (r: Option<ExchangeEvent>)
        ensures
            r == (if old(self)@.outbox.len() > 0 {
                Some(old(self)@.outbox[0])
            } else {
                None
            }),
            final(self)@ == (Venue {
                outbox: if old(self)@.outbox.len() > 0 {
                    old(self)@.outbox.remove(0)
                } else {
                    old(self)@.outbox
                },
                ..old(self)@
            }),
    {
        if self.outbox.len() > 0 {
            Some(self.outbox.remove(0))
        } else {
            None
        }
    }

    /// Moves the market, which fills every order that it crosses.
    pub fn on_market(&mut self, snapshot: &MarketSnapshot)
        requires
            old(self)@.moved_fits(*snapshot),
        ensures
            final(self)@ == old(self)@.moved(*snapshot),
    {
        self.last_snapshot = Some(*snapshot);
        let mut kept: Vec<Order> = Vec::new();
        let mut i: usize = 0;
        proof {
            assert(self.resting_orders@.take(0) =~= Seq::<Order>::empty());
            assert(self.outbox@ =~= old(self)@.outbox + crossing_fills(
                self.fee_model,
                *snapshot,
                self.resting_orders@.take(0),
            ));
        }
        while i < self.resting_orders.len()
            invariant
                i <= self.resting_orders@.len(),
                self.resting_orders@ == old(self)@.resting,
                self.fee_model == old(self)@.fee,
                self.last_snapshot == Some(*snapshot),
                old(self)@.moved_fits(*snapshot),
                kept@ == uncrossed(*snapshot, self.resting_orders@.take(i as int)),
                self.outbox@ == old(self)@.outbox + crossing_fills(
                    self.fee_model,
                    *snapshot,
                    self.resting_orders@.take(i as int),
                ),
            decreases self.resting_orders@.len() - i,
        {
            proof {
                assert(self.resting_orders@.take(i as int + 1).drop_last()
                    =~= self.resting_orders@.take(i as int));
            }
            let order = self.resting_orders[i];
            assert(order == old(self)@.resting[i as int]);
            if is_fillable(&order, snapshot) {
                let fill = build_fill(&self.fee_model, &order, order.price);
                self.outbox.push(ExchangeEvent::Filled(fill));
            } else {
                kept.push(order);
            }
            i += 1;
        }
        proof {
            assert(self.resting_orders@.take(self.resting_orders@.len() as int)
                =~= self.resting_orders@);
        }
        self.resting_orders = kept;
    }

    /// Finds an order.
    fn find(&self, order_id: OrderId) -> (r: Option<usize>)
        ensures
            match r {
                Some(i) => order_place(self.resting_orders@, order_id, 0) == Some(i as int) && i
                    < self.resting_orders@.len(),
                None => order_place(self.resting_orders@, order_id, 0) is None,
            },
    {
        let mut i: usize = 0;
        while i < self.resting_orders.len()
            invariant
                i <= self.resting_orders@.len(),
                order_place(self.resting_orders@, order_id, 0) == order_place(
                    self.resting_orders@,
                    order_id,
                    i as int,
                ),
            decreases self.resting_orders@.len() - i,
        {
            if self.resting_orders[i].order_id == order_id {
                return Some(i);
            }
            i += 1;
        }
        None
    }

    /// Fills or rejects an order that does not rest.
    fn execute_taker(&mut self, order: &Order)
        requires
            order.role == OrderRole::Taker,
            old(self)@.submitted_fits(*order),
        ensures
            final(self)@ == old(self)@.submitted(*order),
    {
        let exec_price = match self.last_snapshot {
            Some(snapshot) => match order.direction {
                OrderDirection::Buy => match snapshot.book(order.side).best_ask {
                    Some(ask) => if ask.le(order.price) {
                        Some(ask)
                    } else {
                        None
                    },
                    None => None,
                },
                OrderDirection::Sell => match snapshot.book(order.side).best_bid {
                    Some(bid) => if bid.ge(order.price) {
                        Some(bid)
                    } else {
                        None
                    },
                    None => None,
                },
            },
            None => None,
        };
        match exec_price {
            Some(price) => {
                let fill = build_fill(&self.fee_model, order, price);
                self.outbox.push(ExchangeEvent::Filled(fill));
            },
            None => {
                self.outbox.push(
                    ExchangeEvent::Rejected {
                        order_id: order.order_id,
                        reason: RejectReason::InvalidPrice,
                    },
                );
            },
        }
    }

    /// Cancels the orders of a side, or all of them.
    fn cancel_matching(&mut self, side: Option<Side>)
        ensures
            final(self)@ == old(self)@.cancelled(side),
    {
        let mut kept: Vec<Order> = Vec::new();
        let mut i: usize = 0;
        proof {
            assert(self.resting_orders@.take(0) =~= Seq::<Order>::empty());
            assert(self.outbox@ =~= old(self)@.outbox + cancellations(
                side,
                self.resting_orders@.take(0),
            ));
        }
        while i < self.resting_orders.len()
            invariant
                i <= self.resting_orders@.len(),
                self.resting_orders@ == old(self)@.resting,
                self.fee_model == old(self)@.fee,
                self.last_snapshot == old(self)@.market,
                kept@ == uncancelled(side, self.resting_orders@.take(i as int)),
                self.outbox@ == old(self)@.outbox + cancellations(
                    side,
                    self.resting_orders@.take(i as int),
                ),
            decreases self.resting_orders@.len() - i,
        {
            proof {
                assert(self.resting_orders@.take(i as int + 1).drop_last()
                    =~= self.resting_orders@.take(i as int));
            }
            let order = self.resting_orders[i];
            let concerned = match side {
                Some(s) => order.side == s,
                None => true,
            };
            if concerned {
                self.outbox.push(ExchangeEvent::Canceled(order.order_id));
            } else {
                kept.push(order);
            }
            i += 1;
        }
        proof {
            assert(self.resting_orders@.take(self.resting_orders@.len() as int)
                =~= self.resting_orders@);
        }
        self.resting_orders = kept;
    }
}

/// Tells whether the market crosses a resting order.
fn is_fillable(order: &Order, snapshot: &MarketSnapshot) -> (r: bool)
    ensures
        r == crosses(*snapshot, *order),
{
    match order.direction {
        OrderDirection::Buy => match snapshot.book(order.side).best_ask {
            Some(ask) => ask.lt(order.price),
            None => false,
        },
        OrderDirection::Sell => match snapshot.book(order.side).best_bid {
            Some(bid) => bid.gt(order.price),
            None => false,
        },
    }
}

/// Makes the report that an order was filled.
fn build_fill(fee_model: &FeeModel, order: &Order, exec_price: Price) -> (r: Fill)
    requires
        fill_fits(*fee_model, *order, exec_price),
    ensures
        r == fill_of(*fee_model, *order, exec_price),
{
    let (filled_qty, cash) = match order.direction {
        OrderDirection::Buy => {
            (fee_model.net_qty(order.role, order.qty), exec_price.times(order.qty))
        },
        OrderDirection::Sell => {
            let gross_cash = exec_price.times(order.qty);
            let fee_rate = fee_model.rate_for(order.role);
            (order.qty, gross_cash.times(Decimal::one().minus(fee_rate)))
        },
    };
    Fill {
        order_id: order.order_id,
        side: order.side,
        direction: order.direction,
        role: order.role,
        price: exec_price,
        filled_qty,
        cash,
        generation: order.generation,
    }
}

impl ExchangeBackend for Simulator {
    open spec fn can_take(&self, order: Order) -> bool {
        self@.submitted_fits(order)
    }

    fn submit_order(&mut self, order: Order)
        ensures
            final(self)@ == old(self)@.submitted(order),
    {
        match order.role {
            OrderRole::Taker => self.execute_taker(&order),
            OrderRole::Maker => match self.find(order.order_id) {
                Some(i) => self.resting_orders.set(i, order),
                None => self.resting_orders.push(order),
            },
        }
    }

    fn cancel_order(&mut self, order_id: OrderId)
        ensures
            final(self)@ == old(self)@.cancelled_one(order_id),
    {
        match self.find(order_id) {
            Some(i) => {
                self.resting_orders.remove(i);
                self.outbox.push(ExchangeEvent::Canceled(order_id));
            },
            None => {
                self.outbox.push(ExchangeEvent::CancelFailed(order_id));
            },
        }
    }

    fn cancel_side(&mut self, side: Side)
        ensures
            final(self)@ == old(self)@.cancelled(Some(side)),
    {
        self.cancel_matching(Some(side));
    }

    fn cancel_all(&mut self)
        ensures
            final(self)@ == old(self)@.cancelled(None),
    {
        self.cancel_matching(None);
    }
}

} // verus!
