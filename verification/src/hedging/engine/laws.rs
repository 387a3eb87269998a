//! What holds of the hedging engine whatever happens in a match.

use crate::domain::command::Command;
use crate::domain::order::OrderId;
use crate::domain::round_state::RoundState;
use crate::domain::state::RobotState;
use crate::engine::book::{
    entry_place, one_pending, part_filled, side_pending, struck_off, BookEntry, OrderLifecycle,
};
use crate::engine::laws::{lemma_edited, lemma_place, lemma_placed, lemma_side_pending, orderly};
use crate::exchange::clock::Millis;
use crate::exchange::event::ExchangeEvent;
use crate::hedging::context::{Choice, CommandIntent, OrderIntent};
use crate::hedging::engine::apply::lemma_carried_keeps;
use crate::hedging::engine::config::{EngineConfig, Pool};
use crate::hedging::engine::model::{assigned_place, pool_in, unassigned, Robot};
use crate::hedging::laws::red_line_beats_everything;
use crate::risk::auditor::Approval;
use vstd::prelude::*;

verus! {

/// What is remembered for good stays: the main side, the frozen main side, the exhausted
/// funds, and the furthest state that was reached.
pub proof fn memory_lasts(robot: Robot, event: ExchangeEvent, now: Millis, time_to_expiry: Millis)
    ensures
        ({
            let after = robot.handled(event, now, time_to_expiry);
            &&& robot.round.main_field is Some ==> after.round.main_field
                == robot.round.main_field
            &&& robot.round.main_field_frozen ==> after.round.main_field_frozen
            &&& robot.round.funds_exhausted ==> after.round.funds_exhausted
            &&& after.deepest >= robot.deepest
        }),
{
    let booked = robot.at(now, time_to_expiry).booked(event);
    let choice = booked.decision(Robot::trigger(event));
    lemma_carried_keeps(booked, choice.commands, pool_in(booked.round.state));
    lemma_carried_memory(booked, choice.commands, pool_in(booked.round.state));
}

/// Within the time red line, whatever is reported, everything is cancelled, nothing else
/// is sent, and the robot waits for settlement.
pub proof fn red_line_stops_everything(
    robot: Robot,
    event: ExchangeEvent,
    now: Millis,
    time_to_expiry: Millis,
)
    requires
        robot.round.state != RobotState::SettlementWait,
        time_to_expiry < robot.cfg.strategy.time_red_line,
    ensures
        robot.answer(event, now, time_to_expiry) == seq![Command::CancelAll],
        robot.handled(event, now, time_to_expiry).round.state == RobotState::SettlementWait,
        forall|i: int|
            0 <= i < robot.handled(event, now, time_to_expiry).book.len() ==> (
            #[trigger] robot.handled(event, now, time_to_expiry).book[i]).lifecycle
                == OrderLifecycle::CancelPending,
{
    let booked = robot.at(now, time_to_expiry).booked(event);
    let trigger = Robot::trigger(event);
    red_line_beats_everything(booked.outlook(trigger), robot.cfg.strategy);
    let intents = seq![CommandIntent::CancelAll];
    let pool = pool_in(booked.round.state);
    assert(booked.decision(trigger) == Choice::leaving(RobotState::SettlementWait));
    assert(intents.drop_last() =~= Seq::<CommandIntent>::empty());
    assert(booked.all_carried(intents.drop_last(), pool) == booked);
    assert(booked.all_sent(intents.drop_last(), pool) =~= Seq::<Command>::empty());
    assert(booked.all_sent(intents, pool) =~= seq![Command::CancelAll]);
}

/// A robot that waits for settlement goes on waiting and sends nothing.
pub proof fn waiting_lasts(robot: Robot, event: ExchangeEvent, now: Millis, time_to_expiry: Millis)
    requires
        robot.round.state == RobotState::SettlementWait,
    ensures
        robot.answer(event, now, time_to_expiry).len() == 0,
        robot.handled(event, now, time_to_expiry).round.state == RobotState::SettlementWait,
{
}

/// Below the red line of the cash guard nothing is placed: no order is sent, recorded or
/// assigned.
pub proof fn cash_guard_blocks(robot: Robot, intent: OrderIntent, pool: Pool)
    requires
        robot.free_cash()@ < robot.auditor.red_line()@,
    ensures
        robot.sent(CommandIntent::Submit(intent)).len() == 0,
        robot.submitted(intent, pool) == (Robot { issued: robot.issued + 1, ..robot }),
{
}

/// Whether no order is assigned twice.
pub open spec fn distinct_orders(assigned: Seq<(OrderId, Pool)>) -> bool {
    forall|i: int, j: int|
        #![trigger assigned[i], assigned[j]]
        0 <= i < j < assigned.len() ==> assigned[i].0 != assigned[j].0
}

/// Whether the record is in order, and an order is on record exactly when it is assigned
/// to a pool.
pub open spec fn accounted(robot: Robot) -> bool {
    &&& orderly(robot.book, robot.issued)
    &&& distinct_orders(robot.assigned)
    &&& forall|order_id: OrderId| #[trigger]
        on_record(robot.book, order_id) <==> is_assigned(robot.assigned, order_id)
}

/// Whether an order is on record.
pub open spec fn on_record(book: Seq<BookEntry>, order_id: OrderId) -> bool {
    exists|i: int| 0 <= i < book.len() && (#[trigger] book[i]).order.order_id == order_id
}

/// Whether an order is assigned to a pool.
pub open spec fn is_assigned(assigned: Seq<(OrderId, Pool)>, order_id: OrderId) -> bool {
    exists|i: int| 0 <= i < assigned.len() && (#[trigger] assigned[i]).0 == order_id
}

/// At the start of a match all orders are accounted for.
pub proof fn starts_accounted(cfg: EngineConfig)
    ensures
        accounted(Robot::opened(cfg)),
{
}

/// Whatever is handled, all orders stay accounted for: no identifier is used twice, and
/// an order is on record exactly when it counts against a pool.
pub proof fn orders_stay_accounted(
    robot: Robot,
    event: ExchangeEvent,
    now: Millis,
    time_to_expiry: Millis,
)
    requires
        accounted(robot),
        robot.handled_fits(event, now, time_to_expiry),
    ensures
        accounted(robot.handled(event, now, time_to_expiry)),
{
    let at = robot.at(now, time_to_expiry);
    lemma_booked(at, event);
    let booked = at.booked(event);
    let choice = booked.decision(Robot::trigger(event));
    lemma_carried(booked, choice.commands, pool_in(booked.round.state));
}

proof fn lemma_carried_memory(robot: Robot, intents: Seq<CommandIntent>, pool: Pool)
    ensures
        robot.all_carried(intents, pool).round == (RoundState {
            last_hedge_at: robot.all_carried(intents, pool).round.last_hedge_at,
            ..robot.round
        }),
    decreases intents.len(),
{
    if intents.len() > 0 {
        lemma_carried_memory(robot, intents.drop_last(), pool);
    }
}

proof fn lemma_assigned_place(assigned: Seq<(OrderId, Pool)>, order_id: OrderId, from: int)
    requires
        0 <= from <= assigned.len(),
    ensures
        match assigned_place(assigned, order_id, from) {
            Some(i) => from <= i < assigned.len() && assigned[i].0 == order_id,
            None => forall|k: int|
                from <= k < assigned.len() ==> (#[trigger] assigned[k]).0 != order_id,
        },
    decreases assigned.len() - from,
{
    if from < assigned.len() {
        lemma_assigned_place(assigned, order_id, from + 1);
    }
}

/// Taking an order off leaves exactly the others.
proof fn lemma_removed(
    book: Seq<BookEntry>,
    issued: nat,
    assigned: Seq<(OrderId, Pool)>,
    order_id: OrderId,
)
    requires
        orderly(book, issued),
        distinct_orders(assigned),
    ensures
        distinct_orders(unassigned(assigned, order_id)),
        forall|id: OrderId| #[trigger]
            is_assigned(unassigned(assigned, order_id), id) <==> is_assigned(assigned, id) && id
                != order_id,
        forall|id: OrderId| #[trigger]
            on_record(struck_off(book, order_id), id) <==> on_record(book, id) && id != order_id,
{
    lemma_assigned_place(assigned, order_id, 0);
    lemma_place(book, order_id, 0);
    let rest = unassigned(assigned, order_id);
    let kept = struck_off(book, order_id);
    assert forall|id: OrderId| #[trigger] is_assigned(rest, id) <==> is_assigned(assigned, id)
        && id != order_id by {
        if is_assigned(rest, id) {
            let k = choose|k: int| 0 <= k < rest.len() && (#[trigger] rest[k]).0 == id;
            if let Some(i) = assigned_place(assigned, order_id, 0) {
                let at = if k < i { k } else { k + 1 };
                assert(assigned[at].0 == id);
                assert(assigned[i].0 == order_id);
            } else {
                assert(assigned[k].0 == id);
            }
        }
        if is_assigned(assigned, id) && id != order_id {
            let k = choose|k: int| 0 <= k < assigned.len() && (#[trigger] assigned[k]).0 == id;
            if let Some(i) = assigned_place(assigned, order_id, 0) {
                let at = if k < i { k } else { k - 1 };
                assert(rest[at].0 == id);
            }
        }
    }
    assert forall|id: OrderId| #[trigger] on_record(kept, id) <==> on_record(book, id) && id
        != order_id by {
        if on_record(kept, id) {
            let k = choose|k: int|
                0 <= k < kept.len() && (#[trigger] kept[k]).order.order_id == id;
            if let Some(i) = entry_place(book, order_id, 0) {
                let at = if k < i { k } else { k + 1 };
                assert(book[at].order.order_id == id);
                assert(book[i].order.order_id == order_id);
            } else {
                assert(book[k].order.order_id == id);
            }
        }
        if on_record(book, id) && id != order_id {
            let k = choose|k: int|
                0 <= k < book.len() && (#[trigger] book[k]).order.order_id == id;
            if let Some(i) = entry_place(book, order_id, 0) {
                let at = if k < i { k } else { k - 1 };
                assert(kept[at].order.order_id == id);
            }
        }
    }
}

proof fn lemma_same_ids(book: Seq<BookEntry>, after: Seq<BookEntry>)
    requires
        book.len() == after.len(),
        forall|i: int|
            0 <= i < book.len() ==> (#[trigger] after[i]).order.order_id
                == book[i].order.order_id,
    ensures
        forall|id: OrderId| #[trigger] on_record(after, id) <==> on_record(book, id),
{
    assert forall|id: OrderId| #[trigger] on_record(after, id) <==> on_record(book, id) by {
        if on_record(after, id) {
            let k = choose|k: int|
                0 <= k < after.len() && (#[trigger] after[k]).order.order_id == id;
            assert(book[k].order.order_id == id);
        }
        if on_record(book, id) {
            let k = choose|k: int|
                0 <= k < book.len() && (#[trigger] book[k]).order.order_id == id;
            assert(after[k].order.order_id == id);
        }
    }
}

proof fn lemma_booked(robot: Robot, event: ExchangeEvent)
    requires
        accounted(robot),
    ensures
        accounted(robot.booked(event)),
{
    match event {
        ExchangeEvent::BookUpdate(_) => {},
        ExchangeEvent::Filled(fill) => {
            lemma_edited(robot.book, fill.order_id, fill.filled_qty, robot.issued);
            lemma_removed(robot.book, robot.issued, robot.assigned, fill.order_id);
            lemma_place(robot.book, fill.order_id, 0);
            if robot.still_rests(fill) {
                lemma_same_ids(
                    robot.book,
                    part_filled(robot.book, fill.order_id, fill.filled_qty),
                );
            } else {
                assert(part_filled(robot.book, fill.order_id, fill.filled_qty) == struck_off(
                    robot.book,
                    fill.order_id,
                ));
            }
            assert(accounted(robot.after_fill(fill)));
        },
        ExchangeEvent::Canceled(order_id) => {
            lemma_ended(robot, order_id);
        },
        ExchangeEvent::CancelFailed(order_id) => {
            lemma_ended(robot, order_id);
        },
        ExchangeEvent::Rejected { order_id, .. } => {
            lemma_ended(robot, order_id);
        },
    }
}

proof fn lemma_ended(robot: Robot, order_id: OrderId)
    requires
        accounted(robot),
    ensures
        accounted(robot.after_end(order_id)),
{
    lemma_edited(robot.book, order_id, crate::decimal::dec(0, 0), robot.issued);
    lemma_removed(robot.book, robot.issued, robot.assigned, order_id);
}

proof fn lemma_carried(robot: Robot, intents: Seq<CommandIntent>, pool: Pool)
    requires
        accounted(robot),
        robot.all_carried_fits(intents, pool),
    ensures
        accounted(robot.all_carried(intents, pool)),
    decreases intents.len(),
{
    if intents.len() > 0 {
        lemma_carried(robot, intents.drop_last(), pool);
        let mid = robot.all_carried(intents.drop_last(), pool);
        match intents.last() {
            CommandIntent::Submit(intent) => {
                lemma_submitted(mid, intent, pool);
            },
            CommandIntent::Cancel(order_id) => {
                lemma_edited(mid.book, order_id, crate::decimal::dec(0, 0), mid.issued);
                lemma_place(mid.book, order_id, 0);
                lemma_same_ids(mid.book, one_pending(mid.book, order_id));
            },
            CommandIntent::CancelSide(side) => {
                lemma_side_pending(mid.book, Some(side), mid.issued);
                lemma_same_ids(mid.book, side_pending(mid.book, Some(side)));
            },
            CommandIntent::CancelAll => {
                lemma_side_pending(mid.book, None, mid.issued);
                lemma_same_ids(mid.book, side_pending(mid.book, None));
            },
        }
    }
}

proof fn lemma_submitted(robot: Robot, intent: OrderIntent, pool: Pool)
    requires
        accounted(robot),
        robot.issued < u64::MAX,
    ensures
        accounted(robot.submitted(intent, pool)),
{
    let order = robot.next_order(intent);
    let id = order.order_id;
    let after = robot.submitted(intent, pool);
    if robot.verdict() == Approval::Approved {
        lemma_placed(robot.book, robot.issued, order, None);
        lemma_assigned_place(robot.assigned, id, 0);
        if is_assigned(robot.assigned, id) {
            assert(on_record(robot.book, id));
            let k = choose|k: int|
                0 <= k < robot.book.len() && (#[trigger] robot.book[k]).order.order_id == id;
            assert(robot.book[k].order.order_id.0 < robot.issued);
            assert(false);
        }
        if let Some(i) = assigned_place(robot.assigned, id, 0) {
            assert(robot.assigned[i].0 == id);
            assert(is_assigned(robot.assigned, id));
        }
        assert(after.assigned == robot.assigned.push((id, pool)));
        let n = robot.assigned.len() as int;
        let m = robot.book.len() as int;
        assert forall|other: OrderId| #[trigger]
            on_record(after.book, other) <==> is_assigned(after.assigned, other) by {
            assert(on_record(robot.book, other) <==> is_assigned(robot.assigned, other));
            if on_record(after.book, other) {
                let k = choose|k: int|
                    0 <= k < after.book.len() && (#[trigger] after.book[k]).order.order_id
                        == other;
                if k < m {
                    assert(robot.book[k].order.order_id == other);
                    let j = choose|j: int|
                        0 <= j < n && (#[trigger] robot.assigned[j]).0 == other;
                    assert(after.assigned[j].0 == other);
                } else {
                    assert(after.assigned[n].0 == other);
                }
            }
            if is_assigned(after.assigned, other) {
                let j = choose|j: int|
                    0 <= j < after.assigned.len() && (#[trigger] after.assigned[j]).0 == other;
                if j < n {
                    assert(robot.assigned[j].0 == other);
                    let k = choose|k: int|
                        0 <= k < m && (#[trigger] robot.book[k]).order.order_id == other;
                    assert(after.book[k].order.order_id == other);
                } else {
                    assert(after.book[m].order.order_id == other);
                }
            }
        }
        assert forall|i: int, j: int|
            #![trigger after.assigned[i], after.assigned[j]]
            0 <= i < j < after.assigned.len() implies after.assigned[i].0
            != after.assigned[j].0 by {
            if j == n {
                assert(robot.assigned[i].0 != id);
            }
        }
    }
}

} // verus!
