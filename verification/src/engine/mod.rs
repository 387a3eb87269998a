//! The engine: it books events, asks the strategy, and carries out what it decides.

use crate::decimal::laws::{quotient_fits, short_numbers_are_narrow, whole_value};
use crate::decimal::Decimal;
use crate::domain::command::Command;
use crate::domain::market::MarketSnapshot;
use crate::domain::order::{
    Fill, Generation, Order, OrderDirection, OrderId, OrderIdGenerator, TimeInForce,
};
use crate::domain::phase::Phase;
use crate::domain::types::{Money, OrderRole, Price, Qty, Side};
use crate::engine::book::OrderBook;
use crate::engine::config::EngineConfig;
use crate::engine::model::{cancel_commands, Desk};
use crate::exchange::clock::Millis;
use crate::exchange::event::ExchangeEvent;
use crate::inventory::Inventory;
use crate::strategy::context::{CommandIntent, Decision, DecisionContext, Trigger};
use crate::strategy::{plan, plan_fits, route};
use vstd::prelude::*;

pub mod book;
pub mod config;
pub mod laws;
pub mod model;
pub mod recording;

verus! {

/// The only writer of all that changes during a match.
pub struct Engine {
    cfg: EngineConfig,
    phase: Phase,
    inventory: Inventory,
    book: OrderBook,
    id_gen: OrderIdGenerator,
    generation: Generation,
    market: MarketSnapshot,
    now: Millis,
}

impl View for Engine {
    type V = Desk;

    closed spec fn view(&self) -> Desk {
        Desk {
            cfg: self.cfg,
            phase: self.phase,
            holdings: self.inventory@,
            book: self.book@,
            issued: self.id_gen.issued(),
            generation: self.generation,
            market: self.market,
            now: self.now,
        }
    }
}

impl Engine {
    /// An engine at the start of a match.
    pub fn new(cfg: EngineConfig) -> (r: Self)
        ensures
            r@ == Desk::opened(cfg),
    {
        Self {
            cfg,
            phase: Phase::Building,
            inventory: Inventory::new(),
            book: OrderBook::new(),
            id_gen: OrderIdGenerator::new(),
            generation: Generation::new(),
            market: MarketSnapshot::default(),
            now: 0,
        }
    }

    /// Handles an event at a moment and returns what is to be sent. In the last phase a fill
    /// is still booked, and nothing is sent.
    pub fn handle_event(&mut self, event: &ExchangeEvent, now: Millis) -> (r: Vec<Command>)
        requires
            old(self)@.handled_fits(*event, now),
        ensures
            final(self)@ == old(self)@.handled(*event, now),
            r@ == old(self)@.answer(*event, now),
    {
        self.now = now;
        if self.phase.is_terminal() {
            if let ExchangeEvent::Filled(_) = event {
                self.apply_event_facts(event);
            }
            return Vec::new();
        }
        let (trigger, mut cleanup) = self.apply_event_facts(event);
        let decision = self.decide(trigger);
        let mut commands = self.apply_decision(decision);
        commands.append(&mut cleanup);
        commands
    }

    /// The current phase.
    pub fn phase(&self) -> (r: Phase)
        ensures
            r == self@.phase,
    {
        self.phase
    }

    /// The inventory.
    pub fn inventory(&self) -> (r: &Inventory)
        ensures
            r@ == self@.holdings,
    {
        &self.inventory
    }

    /// Books an event.
    fn apply_event_facts(&mut self, event: &ExchangeEvent) -> (r: (Trigger, Vec<Command>))
        requires
            old(self)@.booked_fits(*event),
        ensures
            final(self)@ == old(self)@.booked(*event),
            r.0 == old(self)@.trigger(*event),
            r.1@ == old(self)@.cleanup(*event),
    {
        match event {
            ExchangeEvent::BookUpdate(snapshot) => {
                self.market = *snapshot;
                (Trigger::BookUpdate, Vec::new())
            },
            ExchangeEvent::Filled(fill) => match fill.direction {
                OrderDirection::Buy => {
                    let buy_price = fill.cash.over(fill.filled_qty);
                    let lot_id = self.inventory.open_lot(
                        fill.side,
                        buy_price,
                        fill.filled_qty,
                        fill.cash,
                        self.now,
                    );
                    self.book.apply_fill(fill.order_id, fill.filled_qty);
                    (
                        Trigger::Filled {
                            side: fill.side,
                            direction: OrderDirection::Buy,
                            lot_id: Some(lot_id),
                        },
                        Vec::new(),
                    )
                },
                OrderDirection::Sell => self.apply_sell(fill),
            },
            ExchangeEvent::Canceled(order_id) | ExchangeEvent::CancelFailed(order_id) => {
                self.book.remove(*order_id);
                (Trigger::OrderUpdate, Vec::new())
            },
            ExchangeEvent::Rejected { order_id, .. } => {
                self.book.remove(*order_id);
                (Trigger::OrderUpdate, Vec::new())
            },
        }
    }

    /// Books a sale. When its lot is gone, the lot's other offers are to be cancelled.
    fn apply_sell(&mut self, fill: &Fill) -> (r: (Trigger, Vec<Command>))
        requires
            fill.direction == OrderDirection::Sell,
            old(self)@.sell_fits(*fill),
        ensures
            final(self)@ == old(self)@.after_sell(*fill),
            r.0 == old(self)@.trigger(ExchangeEvent::Filled(*fill)),
            r.1@ == old(self)@.cleanup(ExchangeEvent::Filled(*fill)),
    {
        let mut cancels: Vec<Command> = Vec::new();
        if let Some(lid) = self.book.lot_id_for(fill.order_id) {
            let profit = self.inventory.reduce_lot(fill.side, lid, fill.filled_qty, fill.cash);
            if profit.is_some() && !self.inventory.lot_exists(fill.side, lid) {
                let stale = self.book.remove_sells_for_lot(lid, fill.order_id);
                cancels = cancel_all_of(&stale);
            }
        }
        self.book.apply_fill(fill.order_id, fill.filled_qty);
        (
            Trigger::Filled { side: fill.side, direction: OrderDirection::Sell, lot_id: None },
            cancels,
        )
    }

    /// Asks the strategy.
    fn decide(&self, trigger: Trigger) -> (r: Decision)
        requires
            self@.free_cash_fits(),
            plan_fits(self@.phase, self@.situation(trigger)),
        ensures
            r@ == plan(self@.phase, self@.situation(trigger)),
    {
        let active_orders = self.book.active_order_views();
        let ctx = DecisionContext {
            trigger,
            progress: self.progress(),
            market: self.market,
            inventory: &self.inventory,
            active_orders: active_orders.as_slice(),
            free_cash: self.free_cash(),
            constraints: self.cfg.constraints,
            config: &self.cfg.strategy,
        };
        route(self.phase, &ctx)
    }

    /// Carries out a decision and returns what is to be sent.
    fn apply_decision(&mut self, decision: Decision) -> (r: Vec<Command>)
        requires
            old(self)@.done_fits(decision@),
        ensures
            final(self)@ == old(self)@.done(decision@),
            r@ == old(self)@.all_sent(decision@.commands),
    {
        let mut commands: Vec<Command> = Vec::new();
        let mut i: usize = 0;
        let ghost intents = decision.commands@;
        proof {
            assert(intents.take(0) =~= Seq::<CommandIntent>::empty());
        }
        while i < decision.commands.len()
            invariant
                i <= decision.commands@.len(),
                intents == decision.commands@,
                old(self)@.all_carried_fits(intents),
                self@ == old(self)@.all_carried(intents.take(i as int)),
                commands@ == old(self)@.all_sent(intents.take(i as int)),
            decreases decision.commands@.len() - i,
        {
            proof {
                lemma_carried_prefix(old(self)@, intents, i as int + 1);
                assert(intents.take(i as int + 1).drop_last() =~= intents.take(i as int));
            }
            match decision.commands[i] {
                CommandIntent::SubmitBuy { side, price, qty, role, tif } => {
                    let notional = price.times(qty);
                    if notional.le(self.free_cash()) {
                        let order = self.make_order(
                            side,
                            OrderDirection::Buy,
                            price,
                            qty,
                            role,
                            tif,
                        );
                        self.book.insert(order, None);
                        commands.push(Command::SubmitOrder(order));
                    }
                },
                CommandIntent::SubmitSell { lot_id, side, price, qty, role, tif } => {
                    let order = self.make_order(
                        side,
                        OrderDirection::Sell,
                        price,
                        qty,
                        role,
                        tif,
                    );
                    self.book.insert(order, Some(lot_id));
                    commands.push(Command::SubmitOrder(order));
                },
                CommandIntent::Cancel(order_id) => {
                    self.book.mark_cancel_pending(order_id);
                    commands.push(Command::CancelOrder(order_id));
                },
                CommandIntent::CancelSide(side) => {
                    self.book.mark_side_cancel_pending(side);
                    commands.push(Command::CancelSide(side));
                },
                CommandIntent::CancelAll => {
                    self.book.mark_all_cancel_pending();
                    commands.push(Command::CancelAll);
                },
            }
            i += 1;
        }
        proof {
            assert(intents.take(intents.len() as int) =~= intents);
        }
        if let Some(phase) = decision.transition {
            if self.phase.can_transition_to(phase) {
                self.phase = phase;
                self.generation = self.generation.next();
            }
        }
        commands
    }

    /// Makes the next order.
    fn make_order(
        &mut self,
        side: Side,
        direction: OrderDirection,
        price: Price,
        qty: Qty,
        role: OrderRole,
        tif: TimeInForce,
    ) -> (r: Order)
        requires
            old(self)@.issued < u64::MAX,
        ensures
            r == old(self)@.next_order(side, direction, price, qty, role, tif),
            final(self)@ == (Desk { issued: old(self)@.issued + 1, ..old(self)@ }),
    {
        Order {
            order_id: self.id_gen.next(),
            side,
            direction,
            price,
            qty,
            role,
            time_in_force: tif,
            generation: self.generation,
        }
    }

    /// How much of the match has passed.
    fn progress(&self) -> (r: Decimal)
        ensures
            r == self@.progress(),
    {
        let elapsed = Decimal::whole(self.now);
        let total = Decimal::whole(900_000);
        proof {
            whole_value(self.now as int);
            whole_value(900000);
            short_numbers_are_narrow(900000, 0);
            quotient_fits(elapsed, total);
        }
        elapsed.over(total)
    }

    /// The cash that is neither invested nor promised to an active bid.
    fn free_cash(&self) -> (r: Money)
        requires
            self@.free_cash_fits(),
        ensures
            r == self@.free_cash(),
    {
        self.cfg.total_capital.minus(self.inventory.net_invested()).minus(
            self.book.total_active_buy_notional(),
        )
    }
}

/// Makes the cancellations of a list of orders.
fn cancel_all_of(ids: &Vec<OrderId>) -> (r: Vec<Command>)
    ensures
        r@ == cancel_commands(ids@),
{
    let mut commands: Vec<Command> = Vec::new();
    let mut i: usize = 0;
    while i < ids.len()
        invariant
            i <= ids@.len(),
            commands@.len() == i,
            forall|k: int| 0 <= k < i ==> commands@[k] == Command::CancelOrder(ids@[k]),
        decreases ids@.len() - i,
    {
        commands.push(Command::CancelOrder(ids[i]));
        i += 1;
    }
    assert(commands@ =~= cancel_commands(ids@));
    commands
}

proof fn lemma_carried_prefix(desk: Desk, intents: Seq<CommandIntent>, n: int)
    requires
        0 <= n <= intents.len(),
        desk.all_carried_fits(intents),
    ensures
        desk.all_carried_fits(intents.take(n)),
    decreases intents.len(),
{
    if n < intents.len() {
        lemma_carried_prefix(desk, intents.drop_last(), n);
        assert(intents.drop_last().take(n) =~= intents.take(n));
    } else {
        assert(intents.take(n) =~= intents);
    }
}

} // verus!
