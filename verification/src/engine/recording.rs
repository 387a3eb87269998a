//! What the engine keeps on record, books, sees and sends, told field by field.

use crate::decimal::dec;
use crate::domain::command::Command;
use crate::domain::order::{Fill, Order, OrderDirection, OrderId, TimeInForce};
use crate::domain::phase::Phase;
use crate::domain::types::{OrderRole, Price, Qty, Side};
use crate::engine::book::{
    all_promised, entry_place, lot_of, one_pending, part_filled, promised, recorded, side_pending,
    stale_ids, struck_off, without_stale, BookEntry, OrderLifecycle,
};
use crate::engine::config::EngineConfig;
use crate::engine::model::Desk;
use crate::exchange::clock::Millis;
use crate::exchange::event::ExchangeEvent;
use crate::inventory::lot::LotId;
use crate::strategy::context::{CommandIntent, Trigger};
use crate::strategy::plan;
use vstd::prelude::*;

verus! {

/// Whether the entry at `k` is the first of an order.
pub open spec fn is_the_entry(book: Seq<BookEntry>, order_id: OrderId, k: int) -> bool {
    &&& 0 <= k < book.len()
    &&& book[k].order.order_id == order_id
    &&& forall|j: int| 0 <= j < k ==> (#[trigger] book[j]).order.order_id != order_id
}

/// Whether an order is not on record.
pub open spec fn is_unknown(book: Seq<BookEntry>, order_id: OrderId) -> bool {
    forall|j: int| 0 <= j < book.len() ==> (#[trigger] book[j]).order.order_id != order_id
}

/// A new order is recorded last, as active and with its lot. One that is known takes the
/// place of its old entry.
pub proof fn new_orders_are_recorded(book: Seq<BookEntry>, order: Order, lot_id: Option<LotId>)
    ensures
        ({
            let entry = BookEntry { order, lifecycle: OrderLifecycle::Active, lot_id };
            let after = recorded(book, order, lot_id);
            &&& is_unknown(book, order.order_id) ==> after == book.push(entry)
            &&& forall|k: int| #[trigger]
                is_the_entry(book, order.order_id, k) ==> after == book.update(k, entry)
        }),
{
    lemma_place(book, order.order_id, 0);
    assert forall|k: int| #[trigger] is_the_entry(book, order.order_id, k) implies recorded(
        book,
        order,
        lot_id,
    ) == book.update(k, BookEntry { order, lifecycle: OrderLifecycle::Active, lot_id }) by {
        lemma_first(book, order.order_id, 0, k);
    }
}

/// A fill takes its shares off the entry of its own order, which goes when none are left;
/// every other entry stays. Striking an order off removes its entry; asking for its
/// cancellation marks it. And the lot of an order is the one that its entry is bound to.
pub proof fn reports_change_their_own_entry(book: Seq<BookEntry>, order_id: OrderId, qty: Qty, k: int)
    requires
        is_the_entry(book, order_id, k),
    ensures
        ({
            let old = book[k];
            let left = old.order.qty - qty;
            &&& left@ <= 0real ==> part_filled(book, order_id, qty) == book.remove(k)
            &&& left@ > 0real ==> part_filled(book, order_id, qty) == book.update(
                k,
                BookEntry { order: Order { qty: left, ..old.order }, ..old },
            )
            &&& struck_off(book, order_id) == book.remove(k)
            &&& one_pending(book, order_id) == book.update(
                k,
                BookEntry {
                    order: old.order,
                    lifecycle: OrderLifecycle::CancelPending,
                    lot_id: old.lot_id,
                },
            )
            &&& lot_of(book, order_id) == old.lot_id
        }),
{
    lemma_first(book, order_id, 0, k);
}

/// Reports about an order that is not on record change nothing there.
pub proof fn unknown_orders_change_nothing(book: Seq<BookEntry>, order_id: OrderId, qty: Qty)
    requires
        is_unknown(book, order_id),
    ensures
        part_filled(book, order_id, qty) == book,
        struck_off(book, order_id) == book,
        one_pending(book, order_id) == book,
        lot_of(book, order_id) is None,
{
    lemma_place(book, order_id, 0);
}

/// Asking for the cancellation of a side marks the entries of that side and no others;
/// asking for all marks all.
pub proof fn cancelling_marks_its_side(book: Seq<BookEntry>, side: Option<Side>, k: int)
    requires
        0 <= k < book.len(),
    ensures
        side_pending(book, side).len() == book.len(),
        side_pending(book, side)[k].order == book[k].order,
        side_pending(book, side)[k].lot_id == book[k].lot_id,
        side_pending(book, side)[k].lifecycle == (if side is None || book[k].order.side == side->0 {
            OrderLifecycle::CancelPending
        } else {
            book[k].lifecycle
        }),
{
}

/// What is promised to bids is added up entry by entry: price times shares of every active
/// bid of a side, and of nothing else; and in all what is promised on both sides.
pub proof fn promises_are_active_bids(book: Seq<BookEntry>, entry: BookEntry, side: Side)
    ensures
        promised(Seq::empty(), side) == dec(0, 0),
        promised(book.push(entry), side) == (if entry.order.side == side && entry.order.direction
            == OrderDirection::Buy && entry.lifecycle == OrderLifecycle::Active {
            promised(book, side) + entry.order.price * entry.order.qty
        } else {
            promised(book, side)
        }),
        all_promised(book) == promised(book, Side::Up) + promised(book, Side::Down),
{
    assert(book.push(entry).drop_last() =~= book);
}

/// The other offers of a lot that was sold are listed and struck off, and no other entry
/// is.
pub proof fn stale_offers_go(
    book: Seq<BookEntry>,
    entry: BookEntry,
    lot_id: LotId,
    except: OrderId,
)
    ensures
        ({
            let goes = entry.order.direction == OrderDirection::Sell && entry.lot_id == Some(
                lot_id,
            ) && entry.order.order_id != except;
            &&& without_stale(book.push(entry), lot_id, except) == (if goes {
                without_stale(book, lot_id, except)
            } else {
                without_stale(book, lot_id, except).push(entry)
            })
            &&& stale_ids(book.push(entry), lot_id, except) == (if goes {
                stale_ids(book, lot_id, except).push(entry.order.order_id)
            } else {
                stale_ids(book, lot_id, except)
            })
            &&& without_stale(Seq::empty(), lot_id, except).len() == 0
            &&& stale_ids(Seq::empty(), lot_id, except).len() == 0
        }),
{
    assert(book.push(entry).drop_last() =~= book);
}

/// What the strategy sees is what the engine knows: every entry on record with its own
/// fields, the market, the holdings, the free cash and the part of the fifteen minutes that
/// has passed.
pub proof fn strategies_see_what_is_known(desk: Desk, trigger: Trigger, k: int)
    requires
        0 <= k < desk.book.len(),
    ensures
        ({
            let seen = desk.situation(trigger);
            let order = seen.active_orders[k];
            &&& seen.active_orders.len() == desk.book.len()
            &&& order.order_id == desk.book[k].order.order_id
            &&& order.side == desk.book[k].order.side
            &&& order.direction == desk.book[k].order.direction
            &&& order.price == desk.book[k].order.price
            &&& order.qty == desk.book[k].order.qty
            &&& order.role == desk.book[k].order.role
            &&& order.lot_id == desk.book[k].lot_id
        }),
{
}

/// See `strategies_see_what_is_known`: the rest of what is seen.
pub proof fn strategies_see_the_moment(desk: Desk, trigger: Trigger)
    ensures
        ({
            let seen = desk.situation(trigger);
            &&& seen.trigger == trigger
            &&& seen.market == desk.market
            &&& seen.inventory == desk.holdings
            &&& seen.constraints == desk.cfg.constraints
            &&& seen.config == desk.cfg.strategy
            &&& seen.progress == dec(desk.now as int, 0) / dec(900000, 0)
            &&& seen.free_cash == desk.cfg.total_capital - (desk.holdings.cash_out
                - desk.holdings.cash_in) - (promised(desk.book, Side::Up) + promised(
                desk.book,
                Side::Down,
            ))
            &&& seen.active_orders.len() == desk.book.len()
        }),
{
}

/// Before the last phase every event is booked first, then decided upon by the strategy of
/// the phase with what is known after it, and then the decision is carried out; what is
/// sent is what the decision sends, and after it the cancellations of stale offers.
pub proof fn events_are_booked_before_deciding(desk: Desk, event: ExchangeEvent, now: Millis)
    requires
        desk.phase != Phase::Settled,
    ensures
        ({
            let at = Desk { now, ..desk };
            let booked = at.booked(event);
            let decision = plan(desk.phase, booked.situation(at.trigger(event)));
            &&& desk.handled(event, now) == booked.done(decision)
            &&& desk.answer(event, now) == booked.all_sent(decision.commands) + at.cleanup(event)
            &&& booked.phase == desk.phase
            &&& booked.now == now
            &&& booked.cfg == desk.cfg
            &&& booked.issued == desk.issued
            &&& booked.generation == desk.generation
        }),
{
}

/// What an event changes in the books: a move of the book only the market; a purchase the
/// holdings and its own order; a sale the lot that its order offers, its own order, and the
/// other offers of a lot that is gone; the end of an order its entry.
pub proof fn events_change_what_they_report(desk: Desk, fill: Fill, order_id: OrderId)
    ensures
        forall|market: crate::domain::market::MarketSnapshot| #[trigger]
            desk.booked(ExchangeEvent::BookUpdate(market)) == (Desk { market, ..desk }),
        desk.booked(ExchangeEvent::Canceled(order_id)) == (Desk {
            book: struck_off(desk.book, order_id),
            ..desk
        }),
        desk.booked(ExchangeEvent::CancelFailed(order_id)) == (Desk {
            book: struck_off(desk.book, order_id),
            ..desk
        }),
        forall|reason: crate::exchange::event::RejectReason| #[trigger]
            desk.booked(ExchangeEvent::Rejected { order_id, reason }) == (Desk {
                book: struck_off(desk.book, order_id),
                ..desk
            }),
        fill.direction == OrderDirection::Buy ==> desk.booked(ExchangeEvent::Filled(fill)) == (
        Desk {
            holdings: desk.holdings.bought(
                fill.side,
                fill.cash / fill.filled_qty,
                fill.filled_qty,
                fill.cash,
                desk.now,
            ),
            book: part_filled(desk.book, fill.order_id, fill.filled_qty),
            ..desk
        }),
        fill.direction == OrderDirection::Sell ==> ({
            let after = desk.booked(ExchangeEvent::Filled(fill));
            let lot = lot_of(desk.book, fill.order_id);
            let sold = desk.holdings.part_sold(fill.side, lot->0, fill.filled_qty, fill.cash);
            let gone = lot is Some && desk.holdings.place(fill.side, lot->0) is Some && sold.place(
                fill.side,
                lot->0,
            ) is None;
            &&& after.holdings == (if lot is Some { sold } else { desk.holdings })
            &&& after.book == part_filled(
                if gone {
                    without_stale(desk.book, lot->0, fill.order_id)
                } else {
                    desk.book
                },
                fill.order_id,
                fill.filled_qty,
            )
            &&& desk.cleanup(ExchangeEvent::Filled(fill)) == (if gone {
                Seq::new(
                    stale_ids(desk.book, lot->0, fill.order_id).len(),
                    |i: int|
                        Command::CancelOrder(stale_ids(desk.book, lot->0, fill.order_id)[i]),
                )
            } else {
                Seq::empty()
            })
            &&& after.market == desk.market
            &&& after.phase == desk.phase
            &&& after.issued == desk.issued
        }),
        fill.direction == OrderDirection::Buy ==> desk.cleanup(ExchangeEvent::Filled(fill)).len()
            == 0,
        desk.cleanup(ExchangeEvent::Canceled(order_id)).len() == 0,
{
}

/// What reaches the strategy of an event: a move of the book; a fill with its side and
/// direction, and with the new lot of a purchase; or that something became of an order.
pub proof fn events_trigger_as_what_they_are(desk: Desk, event: ExchangeEvent)
    requires
        desk.holdings.opened <= u64::MAX,
    ensures
        event is BookUpdate <==> desk.trigger(event) == Trigger::BookUpdate,
        event matches ExchangeEvent::Filled(fill) ==> (desk.trigger(event) matches Trigger::Filled {
            side,
            direction,
            lot_id,
        } && side == fill.side && direction == fill.direction && (direction == OrderDirection::Buy
            ==> lot_id == Some(LotId(desk.holdings.opened as u64))) && (direction
            == OrderDirection::Sell ==> lot_id is None)),
        !(event is BookUpdate) && !(event is Filled) ==> desk.trigger(event)
            == Trigger::OrderUpdate,
{
}

/// The next order carries the next identifier, the current generation, and what was wished
/// for; placing it uses the identifier up and puts it on record.
pub proof fn orders_are_what_was_wished_for(
    desk: Desk,
    side: Side,
    direction: OrderDirection,
    price: Price,
    qty: Qty,
    role: OrderRole,
    tif: TimeInForce,
    lot_id: Option<LotId>,
)
    requires
        desk.issued <= u64::MAX,
    ensures
        ({
            let order = desk.next_order(side, direction, price, qty, role, tif);
            let after = desk.placing(order, lot_id);
            &&& order.order_id.0 == desk.issued
            &&& order.side == side
            &&& order.direction == direction
            &&& order.price == price
            &&& order.qty == qty
            &&& order.role == role
            &&& order.time_in_force == tif
            &&& order.generation == desk.generation
            &&& after == (Desk {
                issued: desk.issued + 1,
                book: recorded(desk.book, order, lot_id),
                ..desk
            })
        }),
{
}

/// Carrying out a wish: a bid is put on record if and only if it costs no more than the
/// free cash, an offer always, bound to its lot; a cancellation marks what it names; and
/// nothing but the record and the identifiers changes.
pub proof fn wishes_change_the_record(desk: Desk, intent: CommandIntent)
    ensures
        ({
            let after = desk.carried(intent);
            &&& after.holdings == desk.holdings
            &&& after.market == desk.market
            &&& after.phase == desk.phase
            &&& after.now == desk.now
            &&& match intent {
                CommandIntent::SubmitBuy { side, price, qty, role, tif } => after == (if (price
                    * qty)@ <= desk.free_cash()@ {
                    desk.placing(
                        desk.next_order(side, OrderDirection::Buy, price, qty, role, tif),
                        None,
                    )
                } else {
                    desk
                }),
                CommandIntent::SubmitSell { lot_id, side, price, qty, role, tif } => after
                    == desk.placing(
                    desk.next_order(side, OrderDirection::Sell, price, qty, role, tif),
                    Some(lot_id),
                ),
                CommandIntent::Cancel(order_id) => after.book == one_pending(desk.book, order_id)
                    && after.issued == desk.issued,
                CommandIntent::CancelSide(side) => after.book == side_pending(
                    desk.book,
                    Some(side),
                ) && after.issued == desk.issued,
                CommandIntent::CancelAll => after.book == side_pending(desk.book, None)
                    && after.issued == desk.issued,
            }
        }),
{
}

/// A match starts in the building phase, with nothing held, recorded or handed out.
pub proof fn matches_start_empty(cfg: EngineConfig)
    ensures
        ({
            let desk = Desk::opened(cfg);
            &&& desk.cfg == cfg
            &&& desk.phase == Phase::Building
            &&& desk.book.len() == 0
            &&& desk.issued == 0
            &&& desk.generation.0 == 0
            &&& desk.holdings.up.len() == 0
            &&& desk.holdings.down.len() == 0
            &&& desk.market.up.best_bid is None
            &&& desk.market.down.best_ask is None
            &&& desk.now == 0
        }),
{
}

proof fn lemma_first(book: Seq<BookEntry>, order_id: OrderId, from: int, k: int)
    requires
        0 <= from <= k,
        is_the_entry(book, order_id, k),
    ensures
        entry_place(book, order_id, from) == Some(k),
    decreases k - from,
{
    if from < k {
        assert(book[from].order.order_id != order_id);
        lemma_first(book, order_id, from + 1, k);
    }
}

proof fn lemma_place(book: Seq<BookEntry>, order_id: OrderId, from: int)
    requires
        0 <= from <= book.len(),
    ensures
        match entry_place(book, order_id, from) {
            Some(i) => from <= i < book.len() && book[i].order.order_id == order_id,
            None => true,
        },
    decreases book.len() - from,
{
    if from < book.len() {
        lemma_place(book, order_id, from + 1);
    }
}

} // verus!
