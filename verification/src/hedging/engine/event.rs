//! Books events: fills, cancellations, and moves of the market.

use crate::decimal::Decimal;
use crate::domain::order::{Fill, OrderId};
use crate::domain::state::RobotState;
use crate::domain::types::{Money, Side};
use crate::exchange::event::ExchangeEvent;
use crate::hedging::context::Trigger;
use crate::hedging::engine::config::Pool;
use crate::hedging::engine::model::{
    assigned_place, pool_of, resting_worth, resting_worth_fits, unassigned, Robot,
};
use crate::hedging::engine::Engine;
use crate::hedging::router::spread_ratio;
use crate::engine::book::BookEntry;
use vstd::prelude::*;

verus! {

impl Engine {
    /// Books an event.
    pub(crate) fn apply_event_facts(&mut self, event: &ExchangeEvent) -> (r: Trigger)
        requires
            old(self)@.booked_fits(*event),
        ensures
            final(self)@ == old(self)@.booked(*event),
            r == Robot::trigger(*event),
    {
        match event {
            ExchangeEvent::BookUpdate(snapshot) => {
                self.market = *snapshot;
                self.update_calm_tracking();
                Trigger::BookUpdate
            },
            ExchangeEvent::Filled(fill) => {
                self.book_fill(fill);
                Trigger::Fill { side: fill.side }
            },
            ExchangeEvent::Canceled(order_id) | ExchangeEvent::CancelFailed(order_id) => {
                self.book.remove(*order_id);
                self.release(*order_id);
                Trigger::OrderUpdate
            },
            ExchangeEvent::Rejected { order_id, .. } => {
                self.book.remove(*order_id);
                self.release(*order_id);
                Trigger::OrderUpdate
            },
        }
    }

    /// Finds an order among those assigned to a pool.
    fn find_assigned(&self, order_id: OrderId) -> (r: Option<usize>)
        ensures
            match r {
                Some(i) => assigned_place(self.order_pool@, order_id, 0) == Some(i as int) && i
                    < self.order_pool@.len(),
                None => assigned_place(self.order_pool@, order_id, 0) is None,
            },
    {
        let mut i: usize = 0;
        while i < self.order_pool.len()
            invariant
                i <= self.order_pool@.len(),
                assigned_place(self.order_pool@, order_id, 0) == assigned_place(
                    self.order_pool@,
                    order_id,
                    i as int,
                ),
            decreases self.order_pool@.len() - i,
        {
            if self.order_pool[i].0 == order_id {
                return Some(i);
            }
            i += 1;
        }
        None
    }

    /// The pool that an order is paid from.
    fn pool_of_order(&self, order_id: OrderId) -> (r: Option<Pool>)
        ensures
            r == pool_of(self.order_pool@, order_id),
    {
        match self.find_assigned(order_id) {
            Some(i) => Some(self.order_pool[i].1),
            None => None,
        }
    }

    /// Takes an order off its pool.
    fn release(&mut self, order_id: OrderId)
        ensures
            final(self)@ == (Robot {
                assigned: unassigned(old(self)@.assigned, order_id),
                ..old(self)@
            }),
    {
        if let Some(i) = self.find_assigned(order_id) {
            self.order_pool.remove(i);
        }
    }

    /// Assigns an order to a pool.
    pub(crate) fn assign(&mut self, order_id: OrderId, pool: Pool)
        ensures
            final(self)@ == (Robot {
                assigned: crate::hedging::engine::model::assigned_to(
                    old(self)@.assigned,
                    order_id,
                    pool,
                ),
                ..old(self)@
            }),
    {
        match self.find_assigned(order_id) {
            Some(i) => self.order_pool.set(i, (order_id, pool)),
            None => self.order_pool.push((order_id, pool)),
        }
    }

    /// Books a fill.
    fn book_fill(&mut self, fill: &Fill)
        requires
            old(self)@.after_fill_fits(*fill),
        ensures
            final(self)@ == old(self)@.after_fill(*fill),
    {
        self.ledger.apply_fill(fill);
        self.round.lock_main_field(fill.side);
        match self.pool_of_order(fill.order_id) {
            Some(Pool::GridMaker) => {
                self.filled_cost.grid_maker = self.filled_cost.grid_maker.plus(fill.cash);
            },
            Some(Pool::Dynamic) => {
                self.filled_cost.dynamic = self.filled_cost.dynamic.plus(fill.cash);
            },
            Some(Pool::Ev) => {
                self.filled_cost.ev = self.filled_cost.ev.plus(fill.cash);
            },
            None => {},
        }
        let still_resting = self.book.apply_fill(fill.order_id, fill.filled_qty);
        if !still_resting {
            self.release(fill.order_id);
        }
    }

    /// Notes, while the circuit breaker is open, since when both spreads have been calm.
    fn update_calm_tracking(&mut self)
        requires
            old(self)@.round.state == RobotState::CircuitBreaker ==> old(self)@.is_calm_fits(),
        ensures
            final(self)@ == old(self)@.after_move(old(self)@.market),
    {
        if self.round.state != RobotState::CircuitBreaker {
            self.round.calm_since = None;
            return ;
        }
        let recover = self.cfg.strategy.circuit_recover_ratio;
        let up_calm = match spread_ratio(&self.market, Side::Up) {
            Some(ratio) => ratio.lt(recover),
            None => false,
        };
        let all_calm = up_calm && match spread_ratio(&self.market, Side::Down) {
            Some(ratio) => ratio.lt(recover),
            None => false,
        };
        let now = self.now;
        self.round.update_calm(all_calm, now);
    }

    /// Adds up what the orders on record (of a pool) are worth.
    fn active_worth(&self, pool: Option<Pool>) -> (r: Money)
        requires
            resting_worth_fits(self@.book, self@.assigned, pool),
        ensures
            r == resting_worth(self@.book, self@.assigned, pool),
    {
        let ghost book = self@.book;
        let ghost assigned = self@.assigned;
        let mut sum = Decimal::zero();
        let mut i: usize = 0;
        proof {
            assert(book.take(0) =~= Seq::<BookEntry>::empty());
        }
        while i < self.book.len()
            invariant
                i <= book.len(),
                book == self.book@,
                assigned == self.order_pool@,
                resting_worth_fits(book, assigned, pool),
                sum == resting_worth(book.take(i as int), assigned, pool),
            decreases book.len() - i,
        {
            proof {
                lemma_worth_fits_prefix(book, assigned, pool, i as int + 1);
                assert(book.take(i as int + 1).drop_last() =~= book.take(i as int));
            }
            let order = self.book.order(i);
            let counts = match pool {
                Some(p) => match self.pool_of_order(order.order_id) {
                    Some(q) => q == p,
                    None => false,
                },
                None => true,
            };
            if counts {
                sum = sum.plus(order.price.times(order.qty));
            }
            i += 1;
        }
        proof {
            assert(book.take(book.len() as int) =~= book);
        }
        sum
    }

    /// The cash that is neither spent nor promised to a resting order.
    pub(crate) fn free_cash(&self) -> (r: Money)
        requires
            self@.free_cash_fits(),
        ensures
            r == self@.free_cash(),
    {
        let costs = self.filled_cost;
        let filled = costs.grid_maker.plus(costs.dynamic).plus(costs.ev);
        let active = self.active_worth(None);
        self.cfg.pools.total_capital().minus(filled).minus(active)
    }

    /// What is left of a pool.
    pub(crate) fn pool_remaining(&self, pool: Pool) -> (r: Money)
        requires
            self@.pool_left_fits(pool),
        ensures
            r == self@.pool_left(pool),
    {
        let total = match pool {
            Pool::GridMaker => self.cfg.pools.grid_maker(),
            Pool::Dynamic => self.cfg.pools.dynamic(),
            Pool::Ev => self.cfg.pools.ev(),
        };
        let filled = match pool {
            Pool::GridMaker => self.filled_cost.grid_maker,
            Pool::Dynamic => self.filled_cost.dynamic,
            Pool::Ev => self.filled_cost.ev,
        };
        let active = self.active_worth(Some(pool));
        total.minus(filled).minus(active)
    }
}

proof fn lemma_worth_fits_prefix(
    book: Seq<BookEntry>,
    assigned: Seq<(OrderId, Pool)>,
    pool: Option<Pool>,
    n: int,
)
    requires
        0 <= n <= book.len(),
        resting_worth_fits(book, assigned, pool),
    ensures
        resting_worth_fits(book.take(n), assigned, pool),
    decreases book.len(),
{
    if n < book.len() {
        lemma_worth_fits_prefix(book.drop_last(), assigned, pool, n);
        assert(book.drop_last().take(n) =~= book.take(n));
    } else {
        assert(book.take(n) =~= book);
    }
}

} // verus!
