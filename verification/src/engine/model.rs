//! The mathematical model of the engine.

use crate::decimal::{dec, Decimal};
use crate::domain::command::Command;
use crate::domain::market::MarketSnapshot;
use crate::domain::order::{Fill, Generation, Order, OrderDirection, OrderId, TimeInForce};
use crate::domain::phase::Phase;
use crate::domain::types::{Money, OrderRole, Price, Qty, Side};
use crate::engine::book::{
    active_views, all_promised, all_promised_fits, lot_of, one_pending, part_filled,
    part_filled_fits, recorded, side_pending, stale_ids, struck_off, without_stale, BookEntry,
};
use crate::engine::config::EngineConfig;
use crate::exchange::clock::Millis;
use crate::exchange::event::ExchangeEvent;
use crate::inventory::lot::LotId;
use crate::inventory::model::Holdings;
use crate::strategy::context::{CommandIntent, Plan, Situation, Trigger};
use crate::strategy::{plan, plan_fits};
use vstd::prelude::*;

verus! {

/// The model of an engine.
pub struct Desk {
    pub cfg: EngineConfig,
    pub phase: Phase,
    pub holdings: Holdings,
    pub book: Seq<BookEntry>,
    /// How many order identifiers were handed out.
    pub issued: nat,
    pub generation: Generation,
    pub market: MarketSnapshot,
    pub now: Millis,
}

/// The cancellations of a list of orders.
pub open spec fn cancel_commands(ids: Seq<OrderId>) -> Seq<Command> {
    Seq::new(ids.len(), |i: int| Command::CancelOrder(ids[i]))
}

impl Desk {
    /// An engine at the start of a match.
    pub open spec fn opened(cfg: EngineConfig) -> Desk {
        let empty = crate::domain::market::BookTop {
            best_bid: None,
            best_ask: None,
            last_trade: None,
        };
        Desk {
            cfg,
            phase: Phase::Building,
            holdings: Holdings::empty(),
            book: Seq::empty(),
            issued: 0,
            generation: Generation(0),
            market: MarketSnapshot { up: empty, down: empty },
            now: 0,
        }
    }

    /// How much of the fifteen minutes has passed.
    pub open spec fn progress(self) -> Decimal {
        dec(self.now as int, 0) / dec(900000, 0)
    }

    /// The cash that is neither invested nor promised to an active bid.
    pub open spec fn free_cash(self) -> Money {
        self.cfg.total_capital - self.holdings.invested() - all_promised(self.book)
    }

    /// Whether the free cash can be computed.
    pub open spec fn free_cash_fits(self) -> bool {
        &&& self.holdings.cash_out.sub_fits(self.holdings.cash_in)
        &&& self.cfg.total_capital.sub_fits(self.holdings.invested())
        &&& all_promised_fits(self.book)
        &&& (self.cfg.total_capital - self.holdings.invested()).sub_fits(all_promised(self.book))
    }

    /// After a purchase was filled: it opens a lot at what a share really cost.
    pub open spec fn after_buy(self, fill: Fill) -> Desk {
        Desk {
            holdings: self.holdings.bought(
                fill.side,
                fill.cash / fill.filled_qty,
                fill.filled_qty,
                fill.cash,
                self.now,
            ),
            book: part_filled(self.book, fill.order_id, fill.filled_qty),
            ..self
        }
    }

    /// Whether a purchase can be booked.
    pub open spec fn buy_fits(self, fill: Fill) -> bool {
        &&& fill.cash.div_fits(fill.filled_qty)
        &&& self.holdings.opened < u64::MAX
        &&& self.holdings.cash_out.add_fits(fill.cash)
        &&& part_filled_fits(self.book, fill.order_id, fill.filled_qty)
    }

    /// The holdings after a sale was filled.
    pub open spec fn holdings_after_sell(self, fill: Fill) -> Holdings {
        match lot_of(self.book, fill.order_id) {
            Some(lot_id) => self.holdings.part_sold(
                fill.side,
                lot_id,
                fill.filled_qty,
                fill.cash,
            ),
            None => self.holdings,
        }
    }

    /// Whether a sale ends its lot.
    pub open spec fn sell_ends_lot(self, fill: Fill) -> bool {
        lot_of(self.book, fill.order_id) matches Some(lot_id) && self.holdings.place(
            fill.side,
            lot_id,
        ) is Some && self.holdings_after_sell(fill).place(fill.side, lot_id) is None
    }

    /// The book after a sale was filled, before the fill itself is recorded: when the
    /// lot is gone, its other offers go too.
    pub open spec fn book_after_sell(self, fill: Fill) -> Seq<BookEntry> {
        if self.sell_ends_lot(fill) {
            without_stale(self.book, lot_of(self.book, fill.order_id)->0, fill.order_id)
        } else {
            self.book
        }
    }

    /// After a sale was filled.
    pub open spec fn after_sell(self, fill: Fill) -> Desk {
        Desk {
            holdings: self.holdings_after_sell(fill),
            book: part_filled(self.book_after_sell(fill), fill.order_id, fill.filled_qty),
            ..self
        }
    }

    /// Whether a sale can be booked.
    pub open spec fn sell_fits(self, fill: Fill) -> bool {
        &&& lot_of(self.book, fill.order_id) matches Some(lot_id) ==> self.holdings.part_sold_fits(
            fill.side,
            lot_id,
            fill.filled_qty,
            fill.cash,
        )
        &&& part_filled_fits(self.book_after_sell(fill), fill.order_id, fill.filled_qty)
    }

    /// After an event was booked.
    pub open spec fn booked(self, event: ExchangeEvent) -> Desk {
        match event {
            ExchangeEvent::BookUpdate(market) => Desk { market, ..self },
            ExchangeEvent::Filled(fill) => match fill.direction {
                OrderDirection::Buy => self.after_buy(fill),
                OrderDirection::Sell => self.after_sell(fill),
            },
            ExchangeEvent::Canceled(order_id) => Desk {
                book: struck_off(self.book, order_id),
                ..self
            },
            ExchangeEvent::CancelFailed(order_id) => Desk {
                book: struck_off(self.book, order_id),
                ..self
            },
            ExchangeEvent::Rejected { order_id, .. } => Desk {
                book: struck_off(self.book, order_id),
                ..self
            },
        }
    }

    /// Whether an event can be booked.
    pub open spec fn booked_fits(self, event: ExchangeEvent) -> bool {
        event matches ExchangeEvent::Filled(fill) ==> match fill.direction {
            OrderDirection::Buy => self.buy_fits(fill),
            OrderDirection::Sell => self.sell_fits(fill),
        }
    }

    /// What an event asks the strategy to react to.
    pub open spec fn trigger(self, event: ExchangeEvent) -> Trigger {
        match event {
            ExchangeEvent::BookUpdate(_) => Trigger::BookUpdate,
            ExchangeEvent::Filled(fill) => Trigger::Filled {
                side: fill.side,
                direction: fill.direction,
                lot_id: match fill.direction {
                    OrderDirection::Buy => Some(LotId(self.holdings.opened as u64)),
                    OrderDirection::Sell => None,
                },
            },
            _ => Trigger::OrderUpdate,
        }
    }

    /// The cancellations that an event calls for.
    pub open spec fn cleanup(self, event: ExchangeEvent) -> Seq<Command> {
        match event {
            ExchangeEvent::Filled(fill) => if fill.direction == OrderDirection::Sell
                && self.sell_ends_lot(fill) {
                cancel_commands(
                    stale_ids(self.book, lot_of(self.book, fill.order_id)->0, fill.order_id),
                )
            } else {
                Seq::empty()
            },
            _ => Seq::empty(),
        }
    }

    /// What the strategy sees.
    pub open spec fn situation(self, trigger: Trigger) -> Situation {
        Situation {
            trigger,
            progress: self.progress(),
            market: self.market,
            inventory: self.holdings,
            active_orders: active_views(self.book),
            free_cash: self.free_cash(),
            constraints: self.cfg.constraints,
            config: self.cfg.strategy,
        }
    }

    /// The next order.
    pub open spec fn next_order(
        self,
        side: Side,
        direction: OrderDirection,
        price: Price,
        qty: Qty,
        role: OrderRole,
        tif: TimeInForce,
    ) -> Order {
        Order {
            order_id: OrderId(self.issued as u64),
            side,
            direction,
            price,
            qty,
            role,
            time_in_force: tif,
            generation: self.generation,
        }
    }

    /// After an order was placed.
    pub open spec fn placing(self, order: Order, lot_id: Option<LotId>) -> Desk {
        Desk { issued: self.issued + 1, book: recorded(self.book, order, lot_id), ..self }
    }

    /// After one wish of the strategy was carried out. A bid that costs more than the
    /// free cash is dropped.
    pub open spec fn carried(self, intent: CommandIntent) -> Desk {
        match intent {
            CommandIntent::SubmitBuy { side, price, qty, role, tif } => if (price * qty)@
                > self.free_cash()@ {
                self
            } else {
                self.placing(
                    self.next_order(side, OrderDirection::Buy, price, qty, role, tif),
                    None,
                )
            },
            CommandIntent::SubmitSell { lot_id, side, price, qty, role, tif } => self.placing(
                self.next_order(side, OrderDirection::Sell, price, qty, role, tif),
                Some(lot_id),
            ),
            CommandIntent::Cancel(order_id) => Desk {
                book: one_pending(self.book, order_id),
                ..self
            },
            CommandIntent::CancelSide(side) => Desk {
                book: side_pending(self.book, Some(side)),
                ..self
            },
            CommandIntent::CancelAll => Desk { book: side_pending(self.book, None), ..self },
        }
    }

    /// What one wish of the strategy sends.
    pub open spec fn sent(self, intent: CommandIntent) -> Seq<Command> {
        match intent {
            CommandIntent::SubmitBuy { side, price, qty, role, tif } => if (price * qty)@
                > self.free_cash()@ {
                Seq::empty()
            } else {
                seq![
                    Command::SubmitOrder(
                        self.next_order(side, OrderDirection::Buy, price, qty, role, tif),
                    ),
                ]
            },
            CommandIntent::SubmitSell { lot_id, side, price, qty, role, tif } => seq![
                Command::SubmitOrder(
                    self.next_order(side, OrderDirection::Sell, price, qty, role, tif),
                ),
            ],
            CommandIntent::Cancel(order_id) => seq![Command::CancelOrder(order_id)],
            CommandIntent::CancelSide(side) => seq![Command::CancelSide(side)],
            CommandIntent::CancelAll => seq![Command::CancelAll],
        }
    }

    /// Whether one wish of the strategy can be carried out.
    pub open spec fn carried_fits(self, intent: CommandIntent) -> bool {
        match intent {
            CommandIntent::SubmitBuy { price, qty, .. } => {
                &&& price.mul_fits(qty)
                &&& self.free_cash_fits()
                &&& (price * qty)@ <= self.free_cash()@ ==> self.issued < u64::MAX
            },
            CommandIntent::SubmitSell { .. } => self.issued < u64::MAX,
            _ => true,
        }
    }

    /// After several wishes were carried out in order.
    pub open spec fn all_carried(self, intents: Seq<CommandIntent>) -> Desk
        decreases intents.len(),
    {
        if intents.len() == 0 {
            self
        } else {
            self.all_carried(intents.drop_last()).carried(intents.last())
        }
    }

    /// What several wishes send, in order.
    pub open spec fn all_sent(self, intents: Seq<CommandIntent>) -> Seq<Command>
        decreases intents.len(),
    {
        if intents.len() == 0 {
            Seq::empty()
        } else {
            self.all_sent(intents.drop_last()) + self.all_carried(intents.drop_last()).sent(
                intents.last(),
            )
        }
    }

    /// Whether several wishes can be carried out.
    pub open spec fn all_carried_fits(self, intents: Seq<CommandIntent>) -> bool
        decreases intents.len(),
    {
        intents.len() > 0 ==> {
            &&& self.all_carried_fits(intents.drop_last())
            &&& self.all_carried(intents.drop_last()).carried_fits(intents.last())
        }
    }

    /// After a phase was asked for: it is entered unless that goes back.
    pub open spec fn shifted(self, transition: Option<Phase>) -> Desk {
        match transition {
            Some(phase) => if phase.rank() >= self.phase.rank() {
                Desk { phase, generation: Generation((self.generation.0 + 1) as u64), ..self }
            } else {
                self
            },
            None => self,
        }
    }

    /// Whether a phase can be entered.
    pub open spec fn shifted_fits(self, transition: Option<Phase>) -> bool {
        (transition matches Some(phase) && phase.rank() >= self.phase.rank())
            ==> self.generation.0 < u64::MAX
    }

    /// After a decision was carried out.
    pub open spec fn done(self, decision: Plan) -> Desk {
        self.all_carried(decision.commands).shifted(decision.transition)
    }

    /// Whether a decision can be carried out.
    pub open spec fn done_fits(self, decision: Plan) -> bool {
        &&& self.all_carried_fits(decision.commands)
        &&& self.all_carried(decision.commands).shifted_fits(decision.transition)
    }

    /// At another moment.
    pub open spec fn at(self, now: Millis) -> Desk {
        Desk { now, ..self }
    }

    /// The decision upon an event.
    pub open spec fn decision(self, event: ExchangeEvent) -> Plan {
        plan(self.phase, self.booked(event).situation(self.trigger(event)))
    }

    /// After an event was handled: booked, decided upon, and the decision carried out.
    /// In the last phase only a fill is booked, since it cannot be undone, and nothing else
    /// is done.
    pub open spec fn handled(self, event: ExchangeEvent, now: Millis) -> Desk {
        let desk = self.at(now);
        if self.phase == Phase::Settled {
            if event is Filled {
                desk.booked(event)
            } else {
                desk
            }
        } else {
            desk.booked(event).done(desk.decision(event))
        }
    }

    /// What the handling of an event sends.
    pub open spec fn answer(self, event: ExchangeEvent, now: Millis) -> Seq<Command> {
        let desk = self.at(now);
        if self.phase == Phase::Settled {
            Seq::empty()
        } else {
            desk.booked(event).all_sent(desk.decision(event).commands) + desk.cleanup(event)
        }
    }

    /// Whether an event can be handled.
    pub open spec fn handled_fits(self, event: ExchangeEvent, now: Millis) -> bool {
        let desk = self.at(now);
        &&& desk.booked_fits(event)
        &&& self.phase != Phase::Settled ==> {
            &&& desk.booked(event).free_cash_fits()
            &&& plan_fits(desk.phase, desk.booked(event).situation(desk.trigger(event)))
            &&& desk.booked(event).done_fits(desk.decision(event))
        }
    }
}

} // verus!
