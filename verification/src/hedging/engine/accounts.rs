//! What the hedging engine books, counts, sees and sends, told field by field.

use crate::decimal::dec;
use crate::domain::command::Command;
use crate::domain::market::MarketSnapshot;
use crate::domain::order::{Fill, OrderId};
use crate::domain::round_state::RoundState;
use crate::domain::state::RobotState;
use crate::domain::types::{Money, Side};
use crate::engine::book::{part_filled, recorded, struck_off, BookEntry};
use crate::exchange::clock::Millis;
use crate::exchange::event::ExchangeEvent;
use crate::hedging::building::BuildingStrategy;
use crate::hedging::circuit_breaker::CircuitBreakerStrategy;
use crate::hedging::context::{Choice, CommandIntent, OrderIntent, PhaseStrategy, Trigger};
use crate::hedging::dynamic_hedge::DynamicHedgeStrategy;
use crate::hedging::engine::config::{EngineConfig, Pool};
use crate::hedging::engine::model::{
    assigned_place, depth_of, pool_in, pool_of, resting_worth, unassigned, Robot,
};
use crate::hedging::ev_hedge::EvHedgeStrategy;
use crate::hedging::pairing::PairingStrategy;
use crate::hedging::router::{way, Phase, Way};
use vstd::prelude::*;

verus! {

/// Whether an order is assigned to a pool, by its first entry.
pub open spec fn is_paid_from(
    assigned: Seq<(OrderId, Pool)>,
    order_id: OrderId,
    pool: Pool,
) -> bool {
    exists|k: int|
        0 <= k < assigned.len() && #[trigger] assigned[k] == (order_id, pool) && forall|j: int|
            0 <= j < k ==> (#[trigger] assigned[j]).0 != order_id
}

/// What was spent out of a pool.
pub open spec fn spent_from(robot: Robot, pool: Pool) -> Money {
    if pool == Pool::GridMaker {
        robot.spent.grid_maker
    } else if pool == Pool::Dynamic {
        robot.spent.dynamic
    } else {
        robot.spent.ev
    }
}

/// What strategies see of the robot: the position is what the ledger holds of each side;
/// each pool is its share of the capital, and what is left of it is that less what was
/// spent from it and what its resting orders are worth; the exposure is limited to half of
/// the dynamic pool; and the rest is as the robot knows it.
pub proof fn hedges_see_what_is_known(robot: Robot, trigger: Trigger)
    ensures
        ({
            let seen = robot.outlook(trigger);
            let capital = robot.cfg.pools.capital();
            let shares = robot.cfg.pools.shares();
            &&& seen.total_capital == capital
            &&& seen.trigger == trigger
            &&& seen.now == robot.now
            &&& seen.time_to_expiry == robot.time_to_expiry
            &&& seen.market == robot.market
            &&& seen.constraints == robot.cfg.constraints
            &&& seen.round == robot.round
            &&& seen.position.up_qty == robot.ledger.book(Side::Up).qty
            &&& seen.position.up_cost == robot.ledger.book(Side::Up).cost
            &&& seen.position.down_qty == robot.ledger.book(Side::Down).qty
            &&& seen.position.down_cost == robot.ledger.book(Side::Down).cost
            &&& seen.pools.grid_maker_total == capital * shares.grid_maker
            &&& seen.pools.grid_maker_remaining == capital * shares.grid_maker
                - robot.spent.grid_maker - resting_worth(
                robot.book,
                robot.assigned,
                Some(Pool::GridMaker),
            )
            &&& seen.pools.dynamic_remaining == capital * shares.dynamic - robot.spent.dynamic
                - resting_worth(robot.book, robot.assigned, Some(Pool::Dynamic))
            &&& seen.pools.ev_remaining == capital * shares.ev - robot.spent.ev - resting_worth(
                robot.book,
                robot.assigned,
                Some(Pool::Ev),
            )
            &&& seen.pools.max_exposure == capital * shares.dynamic * dec(5, 1)
            &&& seen.active_orders.len() == robot.book.len()
            &&& forall|k: int|
                0 <= k < robot.book.len() ==> ({
                    let order = #[trigger] seen.active_orders[k];
                    &&& order.order_id == robot.book[k].order.order_id
                    &&& order.side == robot.book[k].order.side
                    &&& order.direction == robot.book[k].order.direction
                    &&& order.price == robot.book[k].order.price
                    &&& order.qty == robot.book[k].order.qty
                    &&& order.role == robot.book[k].order.role
                })
        }),
{
}

/// Resting orders are worth price times shares, added up entry by entry: of all orders, or
/// of those that are paid from a pool.
pub proof fn resting_orders_are_worth_their_shares(
    book: Seq<BookEntry>,
    entry: BookEntry,
    assigned: Seq<(OrderId, Pool)>,
    pool: Pool,
)
    ensures
        resting_worth(Seq::empty(), assigned, None) == dec(0, 0),
        resting_worth(Seq::empty(), assigned, Some(pool)) == dec(0, 0),
        resting_worth(book.push(entry), assigned, None) == resting_worth(book, assigned, None)
            + entry.order.price * entry.order.qty,
        resting_worth(book.push(entry), assigned, Some(pool)) == (if is_paid_from(
            assigned,
            entry.order.order_id,
            pool,
        ) {
            resting_worth(book, assigned, Some(pool)) + entry.order.price * entry.order.qty
        } else {
            resting_worth(book, assigned, Some(pool))
        }),
{
    assert(book.push(entry).drop_last() =~= book);
    lemma_paid_from(assigned, entry.order.order_id, pool);
}

/// The free cash is the capital less what was spent from all pools and what all resting
/// orders are worth.
pub proof fn free_cash_is_what_is_left(robot: Robot)
    ensures
        robot.free_cash() == robot.cfg.pools.capital() - (robot.spent.grid_maker
            + robot.spent.dynamic + robot.spent.ev) - resting_worth(
            robot.book,
            robot.assigned,
            None,
        ),
{
}

/// A fill is booked in the ledger, makes its side the main one if there is none yet, takes
/// its shares off its own order, and counts its cash against the pool that its order is
/// paid from, and against no other. An order that is filled is taken off its pool.
pub proof fn fills_count_against_their_pool(robot: Robot, fill: Fill)
    ensures
        ({
            let after = robot.booked(ExchangeEvent::Filled(fill));
            &&& after.ledger == robot.ledger.filled(fill)
            &&& after.round == (RoundState {
                main_field: if robot.round.main_field is None {
                    Some(fill.side)
                } else {
                    robot.round.main_field
                },
                ..robot.round
            })
            &&& after.book == part_filled(robot.book, fill.order_id, fill.filled_qty)
            &&& forall|pool: Pool| #[trigger]
                spent_from(after, pool) == (if is_paid_from(robot.assigned, fill.order_id, pool) {
                    spent_from(robot, pool) + fill.cash
                } else {
                    spent_from(robot, pool)
                })
            &&& after.cfg == robot.cfg
            &&& after.issued == robot.issued
            &&& after.market == robot.market
        }),
{
    lemma_paid_from(robot.assigned, fill.order_id, Pool::GridMaker);
    lemma_paid_from(robot.assigned, fill.order_id, Pool::Dynamic);
    lemma_paid_from(robot.assigned, fill.order_id, Pool::Ev);
}

/// Whether a book's spread is known and below a share of its bid.
pub open spec fn is_tight(top: crate::domain::market::BookTop, limit: Money) -> bool {
    &&& top.best_bid is Some
    &&& top.best_ask is Some
    &&& top.best_bid->0@ > 0real
    &&& ((top.best_ask->0 - top.best_bid->0) / top.best_bid->0)@ < limit@
}

/// A move of the book replaces the market. While the circuit breaker is open, the first
/// moment at which both spreads are tight is kept until one is not; otherwise there is
/// none. An order that ended is struck off and taken off its pool.
pub proof fn moves_are_noted(robot: Robot, market: MarketSnapshot, order_id: OrderId)
    ensures
        ({
            let after = robot.booked(ExchangeEvent::BookUpdate(market));
            let limit = robot.cfg.strategy.circuit_recover_ratio;
            let calm = is_tight(market.up, limit) && is_tight(market.down, limit);
            &&& after.market == market
            &&& after.round == (RoundState {
                calm_since: if robot.round.state != RobotState::CircuitBreaker || !calm {
                    None
                } else if robot.round.calm_since is Some {
                    robot.round.calm_since
                } else {
                    Some(robot.now)
                },
                ..robot.round
            })
            &&& after.ledger == robot.ledger
            &&& after.book == robot.book
            &&& after.assigned == robot.assigned
            &&& after.spent == robot.spent
        }),
        ({
            let ended = Robot {
                book: struck_off(robot.book, order_id),
                assigned: unassigned(robot.assigned, order_id),
                ..robot
            };
            &&& robot.booked(ExchangeEvent::Canceled(order_id)) == ended
            &&& robot.booked(ExchangeEvent::CancelFailed(order_id)) == ended
            &&& forall|reason: crate::exchange::event::RejectReason| #[trigger]
                robot.booked(ExchangeEvent::Rejected { order_id, reason }) == ended
        }),
{
}

/// Whether the auditor's red line lets an order through.
pub open spec fn is_let_through(robot: Robot) -> bool {
    robot.free_cash()@ >= (robot.auditor.guarded().capital() * robot.auditor.ratio())@
}

/// An order that is wished for uses up an identifier. It is sent, put on record and assigned
/// to its pool if and only if the free cash is not below the red line; a hedge is then
/// noted with its moment. It carries what was wished for and the current generation.
pub proof fn orders_pass_the_cash_guard(robot: Robot, intent: OrderIntent, pool: Pool)
    requires
        robot.issued <= u64::MAX,
    ensures
        ({
            let order = robot.next_order(intent);
            let after = robot.carried(CommandIntent::Submit(intent), pool);
            &&& order.order_id.0 == robot.issued
            &&& order.side == intent.side
            &&& order.direction == intent.direction
            &&& order.price == intent.price
            &&& order.qty == intent.qty
            &&& order.role == intent.role
            &&& order.time_in_force == intent.time_in_force
            &&& order.generation == robot.generation
            &&& after.issued == robot.issued + 1
            &&& is_let_through(robot) ==> {
                &&& robot.sent(CommandIntent::Submit(intent)) == seq![Command::SubmitOrder(order)]
                &&& after.book == recorded(robot.book, order, None)
                &&& is_paid_from(after.assigned, order.order_id, pool)
                &&& after.round.last_hedge_at == (if pool == Pool::GridMaker {
                    robot.round.last_hedge_at
                } else {
                    Some(robot.now)
                })
            }
            &&& !is_let_through(robot) ==> {
                &&& robot.sent(CommandIntent::Submit(intent)).len() == 0
                &&& after.book == robot.book
                &&& after.assigned == robot.assigned
                &&& after.round == robot.round
            }
            &&& after.ledger == robot.ledger
            &&& after.spent == robot.spent
            &&& after.market == robot.market
        }),
{
    let order = robot.next_order(intent);
    let after = robot.carried(CommandIntent::Submit(intent), pool);
    lemma_assigned(robot.assigned, order.order_id, 0);
    if is_let_through(robot) {
        match assigned_place(robot.assigned, order.order_id, 0) {
            Some(k) => {
                assert(after.assigned[k] == (order.order_id, pool));
                assert forall|j: int| 0 <= j < k implies (#[trigger] after.assigned[j]).0
                    != order.order_id by {
                    assert(after.assigned[j] == robot.assigned[j]);
                }
            },
            None => {
                let n = robot.assigned.len() as int;
                assert(after.assigned[n] == (order.order_id, pool));
                assert forall|j: int| 0 <= j < n implies (#[trigger] after.assigned[j]).0
                    != order.order_id by {
                    assert(after.assigned[j] == robot.assigned[j]);
                }
            },
        }
    }
}

/// The state says which pool pays: the dynamic hedge and the expected-value hedge each have
/// their own, everything else is paid from the grid pool. And it says how far it is.
pub proof fn states_have_their_pool(state: RobotState)
    ensures
        pool_in(state) == Pool::Dynamic <==> state is DynamicHedge,
        pool_in(state) == Pool::Ev <==> state == RobotState::EvHedge,
        depth_of(RobotState::Building) == 0,
        depth_of(RobotState::Pairing) == 1,
        state is DynamicHedge ==> depth_of(state) == 2,
        depth_of(RobotState::EvHedge) == 3,
        depth_of(RobotState::CircuitBreaker) == 0,
        depth_of(RobotState::SettlementWait) == 0,
{
}

/// An event is booked first, at its moment; then the rules decide, or else the strategy of
/// their choice; and then the decision is carried out, its orders being paid from the pool
/// of the state in which it was made.
pub proof fn events_are_booked_then_decided_upon(
    robot: Robot,
    event: ExchangeEvent,
    now: Millis,
    time_to_expiry: Millis,
)
    ensures
        ({
            let booked = (Robot { now, time_to_expiry, ..robot }).booked(event);
            let trigger = if event is BookUpdate {
                Trigger::BookUpdate
            } else if event is Filled {
                Trigger::Fill { side: event->Filled_0.side }
            } else {
                Trigger::OrderUpdate
            };
            let seen = booked.outlook(trigger);
            let cfg = robot.cfg.strategy;
            let choice = match way(seen, cfg) {
                Way::Direct(choice) => choice,
                Way::Phase(Phase::Building) => (BuildingStrategy { cfg }).choice(seen),
                Way::Phase(Phase::Pairing) => (PairingStrategy { cfg }).choice(seen),
                Way::Phase(Phase::DynamicHedge) => (DynamicHedgeStrategy { cfg }).choice(seen),
                Way::Phase(Phase::EvHedge) => (EvHedgeStrategy { cfg }).choice(seen),
                Way::Phase(Phase::CircuitBreaker) => (CircuitBreakerStrategy { cfg }).choice(seen),
            };
            &&& robot.handled(event, now, time_to_expiry) == booked.done(choice)
            &&& robot.answer(event, now, time_to_expiry) == booked.all_sent(
                choice.commands,
                pool_in(booked.round.state),
            )
            &&& booked.round.state == robot.round.state
            &&& booked.cfg == robot.cfg
        }),
{
}

/// What a decision asks to be noted is noted: frozen and exhausted stay once they are set,
/// the count of losses either way is replaced where a new one is given, and a move takes
/// the new state and the next generation and remembers the furthest state.
pub proof fn decisions_are_noted(robot: Robot, choice: Choice)
    requires
        robot.generation.0 < u64::MAX,
    ensures
        ({
            let after = robot.done(choice);
            let carried = robot.all_carried(choice.commands, pool_in(robot.round.state));
            &&& after.book == carried.book
            &&& after.assigned == carried.assigned
            &&& after.ledger == carried.ledger
            &&& after.issued == carried.issued
            &&& after.round.main_field == carried.round.main_field
            &&& after.round.last_hedge_at == carried.round.last_hedge_at
            &&& after.round.calm_since == carried.round.calm_since
            &&& after.round.main_field_frozen == (carried.round.main_field_frozen
                || choice.freeze_main_field)
            &&& after.round.funds_exhausted == (carried.round.funds_exhausted
                || choice.mark_funds_exhausted)
            &&& choice.double_negative_update matches Some((count, was)) ==> {
                &&& after.round.double_negative_count == count
                &&& after.round.was_double_negative == was
            }
            &&& choice.double_negative_update is None ==> {
                &&& after.round.double_negative_count == carried.round.double_negative_count
                &&& after.round.was_double_negative == carried.round.was_double_negative
            }
            &&& choice.transition is None ==> {
                &&& after.round.state == carried.round.state
                &&& after.generation == carried.generation
                &&& after.deepest == carried.deepest
            }
            &&& choice.transition matches Some(state) ==> {
                &&& after.round.state == state
                &&& after.generation.0 == (carried.generation.0 + 1) as u64
                &&& after.deepest >= depth_of(state)
                &&& after.deepest == carried.deepest || after.deepest == depth_of(state)
                &&& after.deepest >= carried.deepest
            }
        }),
{
}

/// Wishes are carried out one by one: what is sent for one follows what was sent before,
/// and each cancellation is sent as it is and marks what it names.
pub proof fn hedging_wishes_go_one_by_one(
    robot: Robot,
    intents: Seq<CommandIntent>,
    intent: CommandIntent,
    pool: Pool,
)
    ensures
        robot.all_carried(Seq::empty(), pool) == robot,
        robot.all_sent(Seq::empty(), pool).len() == 0,
        robot.all_carried(intents.push(intent), pool) == robot.all_carried(intents, pool).carried(
            intent,
            pool,
        ),
        robot.all_sent(intents.push(intent), pool) == robot.all_sent(intents, pool)
            + robot.all_carried(intents, pool).sent(intent),
        intent matches CommandIntent::Cancel(order_id) ==> robot.sent(intent)
            == seq![Command::CancelOrder(order_id)] && robot.carried(intent, pool).book
            == crate::engine::book::one_pending(robot.book, order_id),
        intent matches CommandIntent::CancelSide(side) ==> robot.sent(intent)
            == seq![Command::CancelSide(side)] && robot.carried(intent, pool).book
            == crate::engine::book::side_pending(robot.book, Some(side)),
        intent == CommandIntent::CancelAll ==> robot.sent(intent) == seq![Command::CancelAll]
            && robot.carried(intent, pool).book == crate::engine::book::side_pending(
            robot.book,
            None,
        ),
{
    assert(intents.push(intent).drop_last() =~= intents);
}

/// A robot starts building with nothing held, recorded or spent, guarding its own pools.
pub proof fn robots_start_empty(cfg: EngineConfig)
    ensures
        ({
            let robot = Robot::opened(cfg);
            &&& robot.cfg == cfg
            &&& robot.auditor.guarded() == cfg.pools
            &&& robot.auditor.ratio() == cfg.cash_guard_ratio
            &&& robot.round.state == RobotState::Building
            &&& robot.round.main_field is None
            &&& !robot.round.funds_exhausted
            &&& !robot.round.main_field_frozen
            &&& robot.round.double_negative_count == 0
            &&& robot.book.len() == 0
            &&& robot.assigned.len() == 0
            &&& robot.spent.grid_maker == dec(0, 0)
            &&& robot.spent.dynamic == dec(0, 0)
            &&& robot.spent.ev == dec(0, 0)
            &&& robot.ledger.book(Side::Up).qty == dec(0, 0)
            &&& robot.ledger.book(Side::Down).qty == dec(0, 0)
            &&& robot.issued == 0
            &&& robot.deepest == 0
        }),
{
    crate::risk::auditor::auditor_guards_its_pools(cfg.pools, cfg.cash_guard_ratio);
    crate::ledger::ledger::ledger_is_its_books(
        crate::ledger::ledger::SideBook::empty(),
        crate::ledger::ledger::SideBook::empty(),
        Robot::opened(cfg).ledger,
    );
}

proof fn lemma_assigned(assigned: Seq<(OrderId, Pool)>, order_id: OrderId, from: int)
    requires
        0 <= from <= assigned.len(),
    ensures
        match assigned_place(assigned, order_id, from) {
            Some(i) => from <= i < assigned.len() && assigned[i].0 == order_id && forall|k: int|
                from <= k < i ==> (#[trigger] assigned[k]).0 != order_id,
            None => forall|k: int|
                from <= k < assigned.len() ==> (#[trigger] assigned[k]).0 != order_id,
        },
    decreases assigned.len() - from,
{
    if from < assigned.len() {
        lemma_assigned(assigned, order_id, from + 1);
    }
}

proof fn lemma_paid_from(assigned: Seq<(OrderId, Pool)>, order_id: OrderId, pool: Pool)
    ensures
        is_paid_from(assigned, order_id, pool) <==> pool_of(assigned, order_id) == Some(pool),
{
    lemma_assigned(assigned, order_id, 0);
    if is_paid_from(assigned, order_id, pool) {
        let k = choose|k: int|
            0 <= k < assigned.len() && #[trigger] assigned[k] == (order_id, pool) && forall|j: int|
                0 <= j < k ==> (#[trigger] assigned[j]).0 != order_id;
        let i = assigned_place(assigned, order_id, 0)->0;
        assert(assigned[k].0 == order_id);
        assert(assigned_place(assigned, order_id, 0) is Some);
        if i < k {
            assert(assigned[i].0 != order_id);
        }
        if k < i {
            assert(assigned[k].0 != order_id);
        }
    }
    if pool_of(assigned, order_id) == Some(pool) {
        let i = assigned_place(assigned, order_id, 0)->0;
        assert(assigned[i] == (order_id, pool));
    }
}

} // verus!
