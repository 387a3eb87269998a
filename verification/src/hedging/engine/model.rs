//! The mathematical model of the hedging engine.

use crate::decimal::dec;
use crate::domain::command::Command;
use crate::domain::market::MarketSnapshot;
use crate::domain::order::{Fill, Generation, Order, OrderId};
use crate::domain::pnl::PositionSnapshot;
use crate::domain::round_state::RoundState;
use crate::domain::state::RobotState;
use crate::domain::types::{Money, Side};
use crate::engine::book::{
    entry_place, one_pending, part_filled, part_filled_fits, recorded, side_pending, struck_off,
    BookEntry,
};
use crate::exchange::clock::Millis;
use crate::exchange::event::ExchangeEvent;
use crate::fsm::legal;
use crate::hedging::building::BuildingStrategy;
use crate::hedging::circuit_breaker::CircuitBreakerStrategy;
use crate::hedging::context::{
    ActiveOrder, Choice, CommandIntent, OrderIntent, Outlook, PhaseStrategy, PoolBudgets, Trigger,
};
use crate::hedging::dynamic_hedge::DynamicHedgeStrategy;
use crate::hedging::engine::config::{EngineConfig, Pool};
use crate::hedging::ev_hedge::EvHedgeStrategy;
use crate::hedging::pairing::PairingStrategy;
use crate::hedging::router::{spread, spread_fits, way, way_fits, Phase, Way};
use crate::ledger::ledger::{Ledger, SideBook};
use crate::risk::auditor::{Approval, RiskAuditor};
use vstd::prelude::*;

verus! {

/// What was spent out of each pool.
#[derive(Debug, Clone, Copy, PartialEq, Eq, Structural)]
pub struct PoolCosts {
    pub grid_maker: Money,
    pub dynamic: Money,
    pub ev: Money,
}

impl PoolCosts {
    /// What was spent out of a pool.
    pub open spec fn of(self, pool: Pool) -> Money {
        match pool {
            Pool::GridMaker => self.grid_maker,
            Pool::Dynamic => self.dynamic,
            Pool::Ev => self.ev,
        }
    }

    /// With more spent out of a pool.
    pub open spec fn plus(self, pool: Pool, cash: Money) -> PoolCosts {
        match pool {
            Pool::GridMaker => PoolCosts { grid_maker: self.grid_maker + cash, ..self },
            Pool::Dynamic => PoolCosts { dynamic: self.dynamic + cash, ..self },
            Pool::Ev => PoolCosts { ev: self.ev + cash, ..self },
        }
    }

    /// What was spent in all.
    pub open spec fn total(self) -> Money {
        self.grid_maker + self.dynamic + self.ev
    }

    /// Whether the total can be computed.
    pub open spec fn total_fits(self) -> bool {
        self.grid_maker.add_fits(self.dynamic) && (self.grid_maker + self.dynamic).add_fits(
            self.ev,
        )
    }
}

/// The place of an order among those assigned to a pool, looking from `from` on.
pub open spec fn assigned_place(
    assigned: Seq<(OrderId, Pool)>,
    order_id: OrderId,
    from: int,
) -> Option<int>
    decreases assigned.len() - from,
{
    if from < 0 || from >= assigned.len() {
        None
    } else if assigned[from].0 == order_id {
        Some(from)
    } else {
        assigned_place(assigned, order_id, from + 1)
    }
}

/// The pool that an order is paid from.
pub open spec fn pool_of(assigned: Seq<(OrderId, Pool)>, order_id: OrderId) -> Option<Pool> {
    match assigned_place(assigned, order_id, 0) {
        Some(i) => Some(assigned[i].1),
        None => None,
    }
}

/// After an order was assigned to a pool.
pub open spec fn assigned_to(assigned: Seq<(OrderId, Pool)>, order_id: OrderId, pool: Pool) -> Seq<
    (OrderId, Pool),
> {
    match assigned_place(assigned, order_id, 0) {
        Some(i) => assigned.update(i, (order_id, pool)),
        None => assigned.push((order_id, pool)),
    }
}

/// After an order was taken off its pool.
pub open spec fn unassigned(assigned: Seq<(OrderId, Pool)>, order_id: OrderId) -> Seq<
    (OrderId, Pool),
> {
    match assigned_place(assigned, order_id, 0) {
        Some(i) => assigned.remove(i),
        None => assigned,
    }
}

/// Whether an order counts: all do, or those of a pool.
pub open spec fn belongs(
    assigned: Seq<(OrderId, Pool)>,
    order_id: OrderId,
    pool: Option<Pool>,
) -> bool {
    pool is Some ==> pool_of(assigned, order_id) == pool
}

/// What the orders on record (of a pool) are worth, added up in order.
pub open spec fn resting_worth(
    book: Seq<BookEntry>,
    assigned: Seq<(OrderId, Pool)>,
    pool: Option<Pool>,
) -> Money
    decreases book.len(),
{
    if book.len() == 0 {
        dec(0, 0)
    } else {
        let before = resting_worth(book.drop_last(), assigned, pool);
        let order = book.last().order;
        if belongs(assigned, order.order_id, pool) {
            before + order.price * order.qty
        } else {
            before
        }
    }
}

/// Whether that can be added up.
pub open spec fn resting_worth_fits(
    book: Seq<BookEntry>,
    assigned: Seq<(OrderId, Pool)>,
    pool: Option<Pool>,
) -> bool
    decreases book.len(),
{
    book.len() > 0 ==> {
        let order = book.last().order;
        &&& resting_worth_fits(book.drop_last(), assigned, pool)
        &&& belongs(assigned, order.order_id, pool) ==> {
            &&& order.price.mul_fits(order.qty)
            &&& resting_worth(book.drop_last(), assigned, pool).add_fits(order.price * order.qty)
        }
    }
}

/// What a strategy sees of the orders on record.
pub open spec fn resting_orders(book: Seq<BookEntry>) -> Seq<ActiveOrder> {
    Seq::new(
        book.len(),
        |i: int|
            ActiveOrder {
                order_id: book[i].order.order_id,
                side: book[i].order.side,
                direction: book[i].order.direction,
                price: book[i].order.price,
                qty: book[i].order.qty,
                role: book[i].order.role,
            },
    )
}

/// The pool from which orders of a state are paid.
pub open spec fn pool_in(state: RobotState) -> Pool {
    match state {
        RobotState::DynamicHedge { .. } => Pool::Dynamic,
        RobotState::EvHedge => Pool::Ev,
        _ => Pool::GridMaker,
    }
}

/// How far a state is along the way.
pub open spec fn depth_of(state: RobotState) -> u8 {
    match state {
        RobotState::Pairing => 1,
        RobotState::DynamicHedge { .. } => 2,
        RobotState::EvHedge => 3,
        _ => 0,
    }
}

/// The model of a hedging engine.
pub struct Robot {
    pub cfg: EngineConfig,
    pub auditor: RiskAuditor,
    pub round: RoundState,
    pub ledger: Ledger,
    pub book: Seq<BookEntry>,
    /// The pool of each order on record.
    pub assigned: Seq<(OrderId, Pool)>,
    pub spent: PoolCosts,
    pub issued: nat,
    pub generation: Generation,
    pub market: MarketSnapshot,
    pub now: Millis,
    pub time_to_expiry: Millis,
    /// The furthest state that was reached.
    pub deepest: u8,
}

impl Robot {
    /// A robot at the start of a match.
    pub open spec fn opened(cfg: EngineConfig) -> Robot {
        let empty = crate::domain::market::BookTop {
            best_bid: None,
            best_ask: None,
            last_trade: None,
        };
        Robot {
            cfg,
            auditor: RiskAuditor::guarding(cfg.pools, cfg.cash_guard_ratio),
            round: crate::domain::round_state::fresh_round(),
            ledger: Ledger::holding(SideBook::empty(), SideBook::empty()),
            book: Seq::empty(),
            assigned: Seq::empty(),
            spent: PoolCosts { grid_maker: dec(0, 0), dynamic: dec(0, 0), ev: dec(0, 0) },
            issued: 0,
            generation: Generation(0),
            market: MarketSnapshot { up: empty, down: empty },
            now: 0,
            time_to_expiry: 0,
            deepest: 0,
        }
    }

    /// The cash that is neither spent nor promised to a resting order.
    pub open spec fn free_cash(self) -> Money {
        self.cfg.pools.capital() - self.spent.total() - resting_worth(
            self.book,
            self.assigned,
            None,
        )
    }

    /// Whether the free cash can be computed.
    pub open spec fn free_cash_fits(self) -> bool {
        &&& self.spent.total_fits()
        &&& resting_worth_fits(self.book, self.assigned, None)
        &&& self.cfg.pools.capital().sub_fits(self.spent.total())
        &&& (self.cfg.pools.capital() - self.spent.total()).sub_fits(
            resting_worth(self.book, self.assigned, None),
        )
    }

    /// The size of a pool.
    pub open spec fn pool_size(self, pool: Pool) -> Money {
        match pool {
            Pool::GridMaker => self.cfg.pools.capital() * self.cfg.pools.shares().grid_maker,
            Pool::Dynamic => self.cfg.pools.capital() * self.cfg.pools.shares().dynamic,
            Pool::Ev => self.cfg.pools.capital() * self.cfg.pools.shares().ev,
        }
    }

    /// What is left of a pool: its size less what was spent and what is promised.
    pub open spec fn pool_left(self, pool: Pool) -> Money {
        self.pool_size(pool) - self.spent.of(pool) - resting_worth(
            self.book,
            self.assigned,
            Some(pool),
        )
    }

    /// Whether that can be computed.
    pub open spec fn pool_left_fits(self, pool: Pool) -> bool {
        &&& resting_worth_fits(self.book, self.assigned, Some(pool))
        &&& self.pool_size(pool).sub_fits(self.spent.of(pool))
        &&& (self.pool_size(pool) - self.spent.of(pool)).sub_fits(
            resting_worth(self.book, self.assigned, Some(pool)),
        )
    }

    /// Whether an order is refused or approved.
    pub open spec fn verdict(self) -> Approval {
        self.auditor.verdict(self.free_cash())
    }

    /// Whether both spreads are calm.
    pub open spec fn is_calm(self) -> bool {
        let limit = self.cfg.strategy.circuit_recover_ratio;
        &&& spread(self.market, Side::Up) matches Some(up) && up@ < limit@
        &&& spread(self.market, Side::Down) matches Some(down) && down@ < limit@
    }

    /// Whether that can be computed.
    pub open spec fn is_calm_fits(self) -> bool {
        let limit = self.cfg.strategy.circuit_recover_ratio;
        &&& spread_fits(self.market, Side::Up)
        &&& (spread(self.market, Side::Up) matches Some(up) && up@ < limit@) ==> spread_fits(
            self.market,
            Side::Down,
        )
    }

    /// After the market moved. While the circuit breaker is open, it is noted since when
    /// both spreads have been calm.
    pub open spec fn after_move(self, market: MarketSnapshot) -> Robot {
        let moved = Robot { market, ..self };
        if self.round.state == RobotState::CircuitBreaker {
            Robot { round: self.round.calmed(moved.is_calm(), self.now), ..moved }
        } else {
            Robot { round: RoundState { calm_since: None, ..self.round }, ..moved }
        }
    }

    /// Whether the order of a fill is still on record after it.
    pub open spec fn still_rests(self, fill: Fill) -> bool {
        entry_place(self.book, fill.order_id, 0) matches Some(i) && (self.book[i].order.qty
            - fill.filled_qty)@ > 0real
    }

    /// After a fill: it is booked, its side becomes the main one if there is none, its
    /// cash is counted against its pool, and an order that is filled goes.
    pub open spec fn after_fill(self, fill: Fill) -> Robot {
        Robot {
            ledger: self.ledger.filled(fill),
            round: self.round.locked(fill.side),
            spent: match pool_of(self.assigned, fill.order_id) {
                Some(pool) => self.spent.plus(pool, fill.cash),
                None => self.spent,
            },
            book: part_filled(self.book, fill.order_id, fill.filled_qty),
            assigned: if self.still_rests(fill) {
                self.assigned
            } else {
                unassigned(self.assigned, fill.order_id)
            },
            ..self
        }
    }

    /// Whether a fill can be booked.
    pub open spec fn after_fill_fits(self, fill: Fill) -> bool {
        &&& self.ledger.book(fill.side).filled_fits(fill)
        &&& pool_of(self.assigned, fill.order_id) matches Some(pool) ==> self.spent.of(
            pool,
        ).add_fits(fill.cash)
        &&& part_filled_fits(self.book, fill.order_id, fill.filled_qty)
    }

    /// After an order was struck off.
    pub open spec fn after_end(self, order_id: OrderId) -> Robot {
        Robot {
            book: struck_off(self.book, order_id),
            assigned: unassigned(self.assigned, order_id),
            ..self
        }
    }

    /// After an event was booked.
    pub open spec fn booked(self, event: ExchangeEvent) -> Robot {
        match event {
            ExchangeEvent::BookUpdate(market) => self.after_move(market),
            ExchangeEvent::Filled(fill) => self.after_fill(fill),
            ExchangeEvent::Canceled(order_id) => self.after_end(order_id),
            ExchangeEvent::CancelFailed(order_id) => self.after_end(order_id),
            ExchangeEvent::Rejected { order_id, .. } => self.after_end(order_id),
        }
    }

    /// Whether an event can be booked.
    pub open spec fn booked_fits(self, event: ExchangeEvent) -> bool {
        match event {
            ExchangeEvent::BookUpdate(market) => self.round.state == RobotState::CircuitBreaker
                ==> (Robot { market, ..self }).is_calm_fits(),
            ExchangeEvent::Filled(fill) => self.after_fill_fits(fill),
            _ => true,
        }
    }

    /// What is left of the pools.
    pub open spec fn budgets(self) -> PoolBudgets {
        PoolBudgets {
            grid_maker_total: self.pool_size(Pool::GridMaker),
            grid_maker_remaining: self.pool_left(Pool::GridMaker),
            dynamic_remaining: self.pool_left(Pool::Dynamic),
            ev_remaining: self.pool_left(Pool::Ev),
            max_exposure: self.cfg.pools.exposure_limit(),
        }
    }

    /// Whether that can be computed.
    pub open spec fn budgets_fits(self) -> bool {
        &&& self.pool_left_fits(Pool::GridMaker)
        &&& self.pool_left_fits(Pool::Dynamic)
        &&& self.pool_left_fits(Pool::Ev)
        &&& self.cfg.pools.exposure_limit_fits()
    }

    /// What a strategy sees.
    pub open spec fn outlook(self, trigger: Trigger) -> Outlook {
        Outlook {
            total_capital: self.cfg.pools.capital(),
            trigger,
            now: self.now,
            time_to_expiry: self.time_to_expiry,
            position: PositionSnapshot {
                up_qty: self.ledger.book(Side::Up).qty,
                down_qty: self.ledger.book(Side::Down).qty,
                up_cost: self.ledger.book(Side::Up).cost,
                down_cost: self.ledger.book(Side::Down).cost,
            },
            market: self.market,
            pools: self.budgets(),
            active_orders: resting_orders(self.book),
            constraints: self.cfg.constraints,
            round: self.round,
        }
    }

    /// The decision of the strategy of a state.
    pub open spec fn phase_choice(self, phase: Phase, ctx: Outlook) -> Choice {
        let cfg = self.cfg.strategy;
        match phase {
            Phase::Building => (BuildingStrategy { cfg }).choice(ctx),
            Phase::Pairing => (PairingStrategy { cfg }).choice(ctx),
            Phase::DynamicHedge => (DynamicHedgeStrategy { cfg }).choice(ctx),
            Phase::EvHedge => (EvHedgeStrategy { cfg }).choice(ctx),
            Phase::CircuitBreaker => (CircuitBreakerStrategy { cfg }).choice(ctx),
        }
    }

    /// Whether the strategy of a state can decide.
    pub open spec fn phase_ready(self, phase: Phase, ctx: Outlook) -> bool {
        let cfg = self.cfg.strategy;
        match phase {
            Phase::Building => (BuildingStrategy { cfg }).ready(ctx),
            Phase::Pairing => (PairingStrategy { cfg }).ready(ctx),
            Phase::DynamicHedge => (DynamicHedgeStrategy { cfg }).ready(ctx),
            Phase::EvHedge => (EvHedgeStrategy { cfg }).ready(ctx),
            Phase::CircuitBreaker => (CircuitBreakerStrategy { cfg }).ready(ctx),
        }
    }

    /// The decision.
    pub open spec fn decision(self, trigger: Trigger) -> Choice {
        match way(self.outlook(trigger), self.cfg.strategy) {
            Way::Direct(choice) => choice,
            Way::Phase(phase) => self.phase_choice(phase, self.outlook(trigger)),
        }
    }

    /// Whether a decision can be made.
    pub open spec fn decision_fits(self, trigger: Trigger) -> bool {
        &&& self.budgets_fits()
        &&& way_fits(self.outlook(trigger), self.cfg.strategy)
        &&& way(self.outlook(trigger), self.cfg.strategy) matches Way::Phase(phase)
            ==> self.phase_ready(phase, self.outlook(trigger))
    }

    /// The next order.
    pub open spec fn next_order(self, intent: OrderIntent) -> Order {
        Order {
            order_id: OrderId(self.issued as u64),
            side: intent.side,
            direction: intent.direction,
            price: intent.price,
            qty: intent.qty,
            role: intent.role,
            time_in_force: intent.time_in_force,
            generation: self.generation,
        }
    }

    /// After an order was to be placed: an identifier is used up in any case; if the
    /// cash guard approves, the order is recorded and assigned to its pool, and a hedge is
    /// noted.
    pub open spec fn submitted(self, intent: OrderIntent, pool: Pool) -> Robot {
        let order = self.next_order(intent);
        if self.verdict() == Approval::Approved {
            Robot {
                issued: self.issued + 1,
                book: recorded(self.book, order, None),
                assigned: assigned_to(self.assigned, order.order_id, pool),
                round: if pool == Pool::GridMaker {
                    self.round
                } else {
                    RoundState { last_hedge_at: Some(self.now), ..self.round }
                },
                ..self
            }
        } else {
            Robot { issued: self.issued + 1, ..self }
        }
    }

    /// After one wish was carried out.
    pub open spec fn carried(self, intent: CommandIntent, pool: Pool) -> Robot {
        match intent {
            CommandIntent::Submit(order) => self.submitted(order, pool),
            CommandIntent::Cancel(order_id) => Robot {
                book: one_pending(self.book, order_id),
                ..self
            },
            CommandIntent::CancelSide(side) => Robot {
                book: side_pending(self.book, Some(side)),
                ..self
            },
            CommandIntent::CancelAll => Robot { book: side_pending(self.book, None), ..self },
        }
    }

    /// What one wish sends.
    pub open spec fn sent(self, intent: CommandIntent) -> Seq<Command> {
        match intent {
            CommandIntent::Submit(order) => if self.verdict() == Approval::Approved {
                seq![Command::SubmitOrder(self.next_order(order))]
            } else {
                Seq::empty()
            },
            CommandIntent::Cancel(order_id) => seq![Command::CancelOrder(order_id)],
            CommandIntent::CancelSide(side) => seq![Command::CancelSide(side)],
            CommandIntent::CancelAll => seq![Command::CancelAll],
        }
    }

    /// Whether one wish can be carried out.
    pub open spec fn carried_fits(self, intent: CommandIntent) -> bool {
        intent is Submit ==> {
            &&& self.issued < u64::MAX
            &&& self.free_cash_fits()
            &&& self.auditor.guarded().capital().mul_fits(self.auditor.ratio())
        }
    }

    /// After several wishes were carried out in order.
    pub open spec fn all_carried(self, intents: Seq<CommandIntent>, pool: Pool) -> Robot
        decreases intents.len(),
    {
        if intents.len() == 0 {
            self
        } else {
            self.all_carried(intents.drop_last(), pool).carried(intents.last(), pool)
        }
    }

    /// What several wishes send, in order.
    pub open spec fn all_sent(self, intents: Seq<CommandIntent>, pool: Pool) -> Seq<Command>
        decreases intents.len(),
    {
        if intents.len() == 0 {
            Seq::empty()
        } else {
            self.all_sent(intents.drop_last(), pool) + self.all_carried(
                intents.drop_last(),
                pool,
            ).sent(intents.last())
        }
    }

    /// Whether several wishes can be carried out.
    pub open spec fn all_carried_fits(self, intents: Seq<CommandIntent>, pool: Pool) -> bool
        decreases intents.len(),
    {
        intents.len() > 0 ==> {
            &&& self.all_carried_fits(intents.drop_last(), pool)
            &&& self.all_carried(intents.drop_last(), pool).carried_fits(intents.last())
        }
    }

    /// The memory after what a decision asks to be noted.
    pub open spec fn noted(round: RoundState, choice: Choice) -> RoundState {
        RoundState {
            main_field_frozen: round.main_field_frozen || choice.freeze_main_field,
            funds_exhausted: round.funds_exhausted || choice.mark_funds_exhausted,
            double_negative_count: match choice.double_negative_update {
                Some((count, _)) => count,
                None => round.double_negative_count,
            },
            was_double_negative: match choice.double_negative_update {
                Some((_, was)) => was,
                None => round.was_double_negative,
            },
            ..round
        }
    }

    /// After a move to another state, which starts a new generation.
    pub open spec fn shifted(self, transition: Option<RobotState>) -> Robot {
        match transition {
            Some(state) => Robot {
                round: RoundState { state, ..self.round },
                generation: Generation((self.generation.0 + 1) as u64),
                deepest: if depth_of(state) > self.deepest {
                    depth_of(state)
                } else {
                    self.deepest
                },
                ..self
            },
            None => self,
        }
    }

    /// After a decision was carried out.
    pub open spec fn done(self, choice: Choice) -> Robot {
        let carried = self.all_carried(choice.commands, pool_in(self.round.state));
        (Robot { round: Robot::noted(carried.round, choice), ..carried }).shifted(
            choice.transition,
        )
    }

    /// Whether a decision can be carried out. Only legal moves are made.
    pub open spec fn done_fits(self, choice: Choice) -> bool {
        &&& self.all_carried_fits(choice.commands, pool_in(self.round.state))
        &&& choice.transition matches Some(state) ==> {
            &&& legal(self.round.state, state)
            &&& self.generation.0 < u64::MAX
        }
    }

    /// What an event asks the strategies to react to.
    pub open spec fn trigger(event: ExchangeEvent) -> Trigger {
        match event {
            ExchangeEvent::BookUpdate(_) => Trigger::BookUpdate,
            ExchangeEvent::Filled(fill) => Trigger::Fill { side: fill.side },
            _ => Trigger::OrderUpdate,
        }
    }

    /// At another moment.
    pub open spec fn at(self, now: Millis, time_to_expiry: Millis) -> Robot {
        Robot { now, time_to_expiry, ..self }
    }

    /// After an event was handled: booked, decided upon, and the decision carried out.
    pub open spec fn handled(
        self,
        event: ExchangeEvent,
        now: Millis,
        time_to_expiry: Millis,
    ) -> Robot {
        let booked = self.at(now, time_to_expiry).booked(event);
        booked.done(booked.decision(Robot::trigger(event)))
    }

    /// What the handling of an event sends.
    pub open spec fn answer(
        self,
        event: ExchangeEvent,
        now: Millis,
        time_to_expiry: Millis,
    ) -> Seq<Command> {
        let booked = self.at(now, time_to_expiry).booked(event);
        booked.all_sent(
            booked.decision(Robot::trigger(event)).commands,
            pool_in(booked.round.state),
        )
    }

    /// Whether an event can be handled.
    pub open spec fn handled_fits(
        self,
        event: ExchangeEvent,
        now: Millis,
        time_to_expiry: Millis,
    ) -> bool {
        let robot = self.at(now, time_to_expiry);
        let booked = robot.booked(event);
        &&& robot.booked_fits(event)
        &&& booked.decision_fits(Robot::trigger(event))
        &&& booked.done_fits(booked.decision(Robot::trigger(event)))
    }
}

} // verus!
