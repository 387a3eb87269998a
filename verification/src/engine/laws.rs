//! What holds of the engine whatever happens in a match.

use crate::decimal::laws::rounding_is_valid;
use crate::domain::command::Command;
use crate::domain::order::{Fill, Order, OrderDirection, OrderId};
use crate::domain::phase::Phase;
use crate::domain::types::{Qty, Side};
use crate::engine::book::{
    active_views, entry_place, lot_of, one_pending, part_filled, pending, recorded, side_pending,
    struck_off, without_stale, BookEntry, OrderLifecycle,
};
use crate::engine::config::EngineConfig;
use crate::engine::model::Desk;
use crate::exchange::clock::Millis;
use crate::exchange::event::ExchangeEvent;
use crate::inventory::laws::{
    empty_is_well_numbered, purchase_keeps_numbering, sale_keeps_numbering, well_numbered,
};
use crate::inventory::lot::LotId;
use crate::strategy::context::{CommandIntent, Plan};
use crate::strategy::laws::{no_lot_is_offered_twice, offered_lots_are_left_alone};
use vstd::prelude::*;

verus! {

/// Whether an entry offers a lot.
pub open spec fn offers(entry: BookEntry, lot_id: LotId) -> bool {
    entry.order.direction == OrderDirection::Sell && entry.lot_id == Some(lot_id)
}

/// Whether no two entries of a book share an identifier or offer the same lot, and
/// every identifier was handed out.
pub open spec fn orderly(book: Seq<BookEntry>, issued: nat) -> bool {
    &&& issued <= u64::MAX
    &&& forall|i: int|
        0 <= i < book.len() ==> (#[trigger] book[i]).order.order_id.0 < issued
    &&& forall|i: int, j: int|
        #![trigger book[i], book[j]]
        0 <= i < j < book.len() ==> book[i].order.order_id != book[j].order.order_id
    &&& forall|i: int, j: int, lot_id: LotId|
        0 <= i < j < book.len() && #[trigger] offers(book[i], lot_id) ==> !(#[trigger] offers(
            book[j],
            lot_id,
        ))
}

/// Whether an engine is in order: its orders and its lots.
pub open spec fn in_order(desk: Desk) -> bool {
    orderly(desk.book, desk.issued) && well_numbered(desk.holdings)
}

/// An engine is in order at the start of a match.
pub proof fn starts_in_order(cfg: EngineConfig)
    ensures
        in_order(Desk::opened(cfg)),
{
    empty_is_well_numbered();
}

/// The phase never goes back, whatever is handled.
pub proof fn phase_never_goes_back(desk: Desk, event: ExchangeEvent, now: Millis)
    ensures
        desk.handled(event, now).phase.rank() >= desk.phase.rank(),
{
    let at = desk.at(now);
    lemma_carried_keeps(at.booked(event), at.decision(event).commands);
}

/// The last phase is never left: a fill is booked, any other event changes nothing but the
/// moment, and nothing is sent.
pub proof fn settled_is_final(desk: Desk, event: ExchangeEvent, now: Millis)
    requires
        desk.phase == Phase::Settled,
    ensures
        event is Filled ==> desk.handled(event, now) == desk.at(now).booked(event),
        !(event is Filled) ==> desk.handled(event, now) == desk.at(now),
        desk.handled(event, now).phase == Phase::Settled,
        desk.answer(event, now).len() == 0,
{
}

/// What was filled is booked in every phase: a purchase opens its lot and its cash is
/// paid, and a sale reduces the lot that was offered.
pub proof fn fills_are_always_booked(desk: Desk, fill: Fill, now: Millis)
    ensures
        desk.handled(ExchangeEvent::Filled(fill), now).holdings == match fill.direction {
            OrderDirection::Buy => desk.holdings.bought(
                fill.side,
                fill.cash / fill.filled_qty,
                fill.filled_qty,
                fill.cash,
                now,
            ),
            OrderDirection::Sell => match lot_of(desk.book, fill.order_id) {
                Some(lot_id) => desk.holdings.part_sold(
                    fill.side,
                    lot_id,
                    fill.filled_qty,
                    fill.cash,
                ),
                None => desk.holdings,
            },
        },
{
    let at = desk.at(now);
    let event = ExchangeEvent::Filled(fill);
    lemma_carried_keeps(at.booked(event), at.decision(event).commands);
}

/// Whatever is handled, the engine stays in order: no two orders on record share an
/// identifier, no two offer the same lot, and no two lots share an identifier.
pub proof fn handling_keeps_order(desk: Desk, event: ExchangeEvent, now: Millis)
    requires
        in_order(desk),
        desk.handled_fits(event, now),
    ensures
        in_order(desk.handled(event, now)),
{
    let at = desk.at(now);
    lemma_booked(at, event);
    if desk.phase != Phase::Settled {
        let booked = at.booked(event);
        let intents = at.decision(event).commands;
        let situation = booked.situation(at.trigger(event));
        assert forall|i: int|
            0 <= i < intents.len() && (#[trigger] intents[i]) is SubmitSell implies !book_offers(
            booked.book,
            intents[i]->SubmitSell_lot_id,
        ) by {
            offered_lots_are_left_alone(desk.phase, situation, i);
            let lot_id = intents[i]->SubmitSell_lot_id;
            if book_offers(booked.book, lot_id) {
                let k = choose|k: int|
                    0 <= k < booked.book.len() && offers(#[trigger] booked.book[k], lot_id);
                let views = active_views(booked.book);
                assert(crate::strategy::offers::is_offer_of(views[k], lot_id));
            }
        }
        assert forall|i: int, j: int|
            0 <= i < j < intents.len() && (#[trigger] intents[i]) is SubmitSell && (
            #[trigger] intents[j]) is SubmitSell implies intents[i]->SubmitSell_lot_id
            != intents[j]->SubmitSell_lot_id by {
            no_lot_is_offered_twice(desk.phase, situation, i, j);
        }
        lemma_carried_orderly(booked, intents);
        lemma_carried_keeps(booked, intents);
    }
}

/// Whether a book offers a lot.
pub open spec fn book_offers(book: Seq<BookEntry>, lot_id: LotId) -> bool {
    exists|k: int| 0 <= k < book.len() && offers(#[trigger] book[k], lot_id)
}

/// Whether an entry is an active bid.
pub open spec fn bids(entry: BookEntry) -> bool {
    entry.order.direction == OrderDirection::Buy && entry.lifecycle == OrderLifecycle::Active
}

/// What the active bids of a book promise to pay, exactly.
pub open spec fn promised_value(book: Seq<BookEntry>) -> real
    decreases book.len(),
{
    if book.len() == 0 {
        0real
    } else {
        let before = promised_value(book.drop_last());
        let entry = book.last();
        if bids(entry) {
            before + (entry.order.price * entry.order.qty)@
        } else {
            before
        }
    }
}

/// The free cash, exactly.
pub open spec fn free_value(desk: Desk) -> real {
    desk.cfg.total_capital@ - (desk.holdings.cash_out@ - desk.holdings.cash_in@) - promised_value(
        desk.book,
    )
}

/// Whether every identifier on record was handed out.
pub open spec fn numbered(book: Seq<BookEntry>, issued: nat) -> bool {
    &&& issued <= u64::MAX
    &&& forall|i: int| 0 <= i < book.len() ==> (#[trigger] book[i]).order.order_id.0 < issued
}

/// Whether no active bid promises less than nothing.
pub open spec fn promises_something(book: Seq<BookEntry>) -> bool {
    forall|i: int|
        0 <= i < book.len() && bids(#[trigger] book[i]) ==> (book[i].order.price
            * book[i].order.qty)@ >= 0real
}

/// Whether a wish is no bid, or one at a price and for shares that are not negative.
pub open spec fn bids_something(intent: CommandIntent) -> bool {
    intent matches CommandIntent::SubmitBuy { price, qty, .. } ==> price@ >= 0real && qty@ >= 0real
}

/// The cash sentinel: carrying out a wish never drives the free cash below zero, as
/// long as the free cash that a bid is held against is not rounded.
pub proof fn cash_is_never_overspent(desk: Desk, intent: CommandIntent)
    requires
        numbered(desk.book, desk.issued),
        promises_something(desk.book),
        desk.carried_fits(intent),
        intent is SubmitBuy ==> desk.free_cash()@ == free_value(desk),
        free_value(desk) >= 0real,
    ensures
        free_value(desk.carried(intent)) >= 0real,
{
    match intent {
        CommandIntent::SubmitBuy { side, price, qty, role, tif } => {
            let order = desk.next_order(side, OrderDirection::Buy, price, qty, role, tif);
            if (price * qty)@ <= desk.free_cash()@ {
                lemma_place(desk.book, order.order_id, 0);
                assert(desk.carried(intent).book.drop_last() =~= desk.book);
            }
        },
        CommandIntent::SubmitSell { lot_id, side, price, qty, role, tif } => {
            let order = desk.next_order(side, OrderDirection::Sell, price, qty, role, tif);
            lemma_place(desk.book, order.order_id, 0);
            assert(desk.carried(intent).book.drop_last() =~= desk.book);
        },
        CommandIntent::Cancel(order_id) => {
            lemma_place(desk.book, order_id, 0);
            lemma_promised_less(desk.book, one_pending(desk.book, order_id));
        },
        CommandIntent::CancelSide(side) => {
            lemma_promised_less(desk.book, side_pending(desk.book, Some(side)));
        },
        CommandIntent::CancelAll => {
            lemma_promised_less(desk.book, side_pending(desk.book, None));
        },
    }
}

/// A whole decision never drives the free cash below zero: each bid is held against what
/// the bids accepted before it have left. The free cash that a bid is held against must
/// not be rounded.
pub proof fn decisions_never_overspend(desk: Desk, decision: Plan)
    requires
        numbered(desk.book, desk.issued),
        promises_something(desk.book),
        desk.done_fits(decision),
        free_value(desk) >= 0real,
        forall|k: int|
            0 <= k < decision.commands.len() ==> bids_something(#[trigger] decision.commands[k]),
        forall|k: int|
            0 <= k < decision.commands.len() && (#[trigger] decision.commands[k]) is SubmitBuy ==> {
                let turn = desk.all_carried(decision.commands.take(k));
                turn.free_cash()@ == free_value(turn)
            },
    ensures
        free_value(desk.done(decision)) >= 0real,
{
    lemma_never_overspent(desk, decision.commands);
}

proof fn lemma_never_overspent(desk: Desk, intents: Seq<CommandIntent>)
    requires
        numbered(desk.book, desk.issued),
        promises_something(desk.book),
        desk.all_carried_fits(intents),
        free_value(desk) >= 0real,
        forall|k: int| 0 <= k < intents.len() ==> bids_something(#[trigger] intents[k]),
        forall|k: int|
            0 <= k < intents.len() && (#[trigger] intents[k]) is SubmitBuy ==> {
                let turn = desk.all_carried(intents.take(k));
                turn.free_cash()@ == free_value(turn)
            },
    ensures
        numbered(desk.all_carried(intents).book, desk.all_carried(intents).issued),
        promises_something(desk.all_carried(intents).book),
        free_value(desk.all_carried(intents)) >= 0real,
    decreases intents.len(),
{
    if intents.len() > 0 {
        let init = intents.drop_last();
        let n = intents.len() - 1;
        assert forall|k: int| 0 <= k < init.len() implies bids_something(#[trigger] init[k]) by {
            assert(intents[k] == init[k]);
        }
        assert forall|k: int| 0 <= k < init.len() && (#[trigger] init[k]) is SubmitBuy implies {
            let turn = desk.all_carried(init.take(k));
            turn.free_cash()@ == free_value(turn)
        } by {
            assert(intents[k] == init[k]);
            assert(intents.take(k) =~= init.take(k));
        }
        lemma_never_overspent(desk, init);
        assert(intents.take(n) =~= init);
        assert(intents[n] == intents.last());
        let mid = desk.all_carried(init);
        cash_is_never_overspent(mid, intents.last());
        lemma_carried_numbered(mid, intents.last());
    }
}

proof fn lemma_carried_numbered(desk: Desk, intent: CommandIntent)
    requires
        numbered(desk.book, desk.issued),
        promises_something(desk.book),
        desk.carried_fits(intent),
        bids_something(intent),
    ensures
        numbered(desk.carried(intent).book, desk.carried(intent).issued),
        promises_something(desk.carried(intent).book),
{
    match intent {
        CommandIntent::SubmitBuy { side, price, qty, role, tif } => {
            let order = desk.next_order(side, OrderDirection::Buy, price, qty, role, tif);
            lemma_place(desk.book, order.order_id, 0);
            let x = price@;
            let y = qty@;
            assert(x * y >= 0real) by (nonlinear_arith)
                requires
                    x >= 0real,
                    y >= 0real,
            ;
            rounding_is_valid(x * y);
        },
        CommandIntent::SubmitSell { lot_id, side, price, qty, role, tif } => {
            let order = desk.next_order(side, OrderDirection::Sell, price, qty, role, tif);
            lemma_place(desk.book, order.order_id, 0);
        },
        CommandIntent::Cancel(order_id) => {
            lemma_place(desk.book, order_id, 0);
        },
        _ => {},
    }
}

proof fn lemma_promised_less(book: Seq<BookEntry>, after: Seq<BookEntry>)
    requires
        book.len() == after.len(),
        forall|i: int|
            0 <= i < book.len() ==> (#[trigger] after[i]) == book[i] || after[i] == pending(
                book[i],
            ),
        promises_something(book),
    ensures
        promised_value(after) <= promised_value(book),
    decreases book.len(),
{
    if book.len() > 0 {
        assert(promises_something(book.drop_last()));
        lemma_promised_less(book.drop_last(), after.drop_last());
        assert(after.last() == book.last() || after.last() == pending(book.last()));
        let last = book[book.len() - 1];
        assert(bids(last) ==> (last.order.price * last.order.qty)@ >= 0real);
    }
}

/// A decision is sent wish by wish, in order. An offer or a cancellation sends one command;
/// a bid sends its order if and only if it costs no more than the free cash at its turn,
/// which the bids accepted before it have lowered.
pub proof fn wishes_are_sent_in_order(desk: Desk, intents: Seq<CommandIntent>, k: int)
    requires
        0 <= k < intents.len(),
    ensures
        ({
            let turn = desk.all_carried(intents.take(k));
            let before = desk.all_sent(intents.take(k));
            let sent = turn.sent(intents[k]);
            &&& (before + sent).is_prefix_of(desk.all_sent(intents))
            &&& match intents[k] {
                CommandIntent::SubmitBuy { side, price, qty, role, tif } => sent == if (price
                    * qty)@ <= turn.free_cash()@ {
                    seq![
                        Command::SubmitOrder(
                            turn.next_order(side, OrderDirection::Buy, price, qty, role, tif),
                        ),
                    ]
                } else {
                    Seq::empty()
                },
                CommandIntent::SubmitSell { lot_id, side, price, qty, role, tif } => sent == seq![
                    Command::SubmitOrder(
                        turn.next_order(side, OrderDirection::Sell, price, qty, role, tif),
                    ),
                ],
                CommandIntent::Cancel(order_id) => sent == seq![Command::CancelOrder(order_id)],
                CommandIntent::CancelSide(side) => sent == seq![Command::CancelSide(side)],
                CommandIntent::CancelAll => sent == seq![Command::CancelAll],
            }
        }),
    decreases intents.len(),
{
    let init = intents.drop_last();
    if k < init.len() {
        wishes_are_sent_in_order(desk, init, k);
        assert(init.take(k) =~= intents.take(k));
        assert(init[k] == intents[k]);
    } else {
        assert(intents.take(k) =~= init);
    }
}

/// A decision moves to the phase that it asks for and to the next generation, unless that
/// would go back; otherwise both stay.
pub proof fn phase_and_generation_move_together(desk: Desk, decision: Plan)
    requires
        desk.done_fits(decision),
    ensures
        ({
            let end = desk.done(decision);
            match decision.transition {
                Some(phase) => if phase.rank() >= desk.phase.rank() {
                    end.phase == phase && end.generation.0 == desk.generation.0 + 1
                } else {
                    end.phase == desk.phase && end.generation == desk.generation
                },
                None => end.phase == desk.phase && end.generation == desk.generation,
            }
        }),
{
    lemma_carried_keeps(desk, decision.commands);
}

/// The orders that a decision sends carry the generation from before it, and identifiers
/// that were never handed out and grow from order to order.
pub proof fn orders_are_numbered_afresh(desk: Desk, decision: Plan)
    requires
        desk.issued <= u64::MAX,
        desk.done_fits(decision),
    ensures
        ({
            let sent = desk.all_sent(decision.commands);
            &&& forall|i: int|
                0 <= i < sent.len() ==> ((#[trigger] sent[i]) matches Command::SubmitOrder(order)
                    ==> {
                    &&& order.generation == desk.generation
                    &&& desk.issued <= order.order_id.0 < desk.done(decision).issued
                })
            &&& forall|i: int, j: int|
                0 <= i < j < sent.len() ==> ((#[trigger] sent[i]) matches Command::SubmitOrder(
                    first,
                ) ==> ((#[trigger] sent[j]) matches Command::SubmitOrder(second)
                    ==> first.order_id.0 < second.order_id.0))
        }),
{
    lemma_numbered_afresh(desk, decision.commands);
}

proof fn lemma_numbered_afresh(desk: Desk, intents: Seq<CommandIntent>)
    requires
        desk.issued <= u64::MAX,
        desk.all_carried_fits(intents),
    ensures
        desk.issued <= desk.all_carried(intents).issued <= u64::MAX,
        ({
            let sent = desk.all_sent(intents);
            &&& forall|i: int|
                0 <= i < sent.len() ==> ((#[trigger] sent[i]) matches Command::SubmitOrder(order)
                    ==> {
                    &&& order.generation == desk.generation
                    &&& desk.issued <= order.order_id.0 < desk.all_carried(intents).issued
                })
            &&& forall|i: int, j: int|
                0 <= i < j < sent.len() ==> ((#[trigger] sent[i]) matches Command::SubmitOrder(
                    first,
                ) ==> ((#[trigger] sent[j]) matches Command::SubmitOrder(second)
                    ==> first.order_id.0 < second.order_id.0))
        }),
    decreases intents.len(),
{
    if intents.len() > 0 {
        let init = intents.drop_last();
        lemma_numbered_afresh(desk, init);
        lemma_carried_keeps(desk, init);
    }
}

/// Where an order is found on record.
pub proof fn lemma_place(book: Seq<BookEntry>, order_id: OrderId, from: int)
    requires
        0 <= from <= book.len(),
    ensures
        match entry_place(book, order_id, from) {
            Some(i) => from <= i < book.len() && book[i].order.order_id == order_id,
            None => forall|k: int|
                from <= k < book.len() ==> (#[trigger] book[k]).order.order_id != order_id,
        },
    decreases book.len() - from,
{
    if from < book.len() {
        lemma_place(book, order_id, from + 1);
    }
}

proof fn lemma_without_stale(book: Seq<BookEntry>, lot_id: LotId, except: OrderId, issued: nat)
    requires
        orderly(book, issued),
    ensures
        orderly(without_stale(book, lot_id, except), issued),
        forall|i: int|
            0 <= i < without_stale(book, lot_id, except).len() ==> book.contains(
                #[trigger] without_stale(book, lot_id, except)[i],
            ),
    decreases book.len(),
{
    if book.len() > 0 {
        let init = book.drop_last();
        assert(orderly(init, issued));
        lemma_without_stale(init, lot_id, except, issued);
        let before = without_stale(init, lot_id, except);
        let all = without_stale(book, lot_id, except);
        assert forall|i: int| 0 <= i < all.len() implies book.contains(#[trigger] all[i]) by {
            if i < before.len() {
                assert(init.contains(before[i]));
                let k = choose|k: int| 0 <= k < init.len() && init[k] == before[i];
                assert(book[k] == all[i]);
            } else {
                assert(book[book.len() - 1] == all[i]);
            }
        }
        if all.len() > before.len() {
            let last = book[book.len() - 1];
            assert(all[before.len() as int] == last);
            assert forall|i: int, j: int|
                #![trigger all[i], all[j]]
                0 <= i < j < all.len() implies all[i].order.order_id != all[j].order.order_id by {
                if j == before.len() {
                    assert(init.contains(before[i]));
                    let k = choose|k: int| 0 <= k < init.len() && init[k] == before[i];
                    assert(book[k].order.order_id != book[book.len() - 1].order.order_id);
                }
            }
            assert forall|i: int, j: int, lid: LotId|
                0 <= i < j < all.len() && #[trigger] offers(all[i], lid) implies !(
            #[trigger] offers(all[j], lid)) by {
                if j == before.len() {
                    assert(init.contains(before[i]));
                    let k = choose|k: int| 0 <= k < init.len() && init[k] == before[i];
                    assert(offers(book[k], lid));
                    assert(!offers(book[book.len() - 1], lid));
                } else {
                    assert(offers(before[i], lid));
                }
            }
        }
    }
}

/// Striking an entry off or changing no more than its life and its shares keeps a
/// book orderly.
pub proof fn lemma_edited(book: Seq<BookEntry>, order_id: OrderId, qty: Qty, issued: nat)
    requires
        orderly(book, issued),
    ensures
        orderly(struck_off(book, order_id), issued),
        orderly(part_filled(book, order_id, qty), issued),
        orderly(one_pending(book, order_id), issued),
{
    lemma_place(book, order_id, 0);
    if let Some(i) = entry_place(book, order_id, 0) {
        lemma_removed(book, i, issued);
        let left = book[i].order.qty - qty;
        let less = BookEntry { order: Order { qty: left, ..book[i].order }, ..book[i] };
        lemma_updated(book, i, less, issued);
        lemma_updated(book, i, pending(book[i]), issued);
    }
}

proof fn lemma_removed(book: Seq<BookEntry>, i: int, issued: nat)
    requires
        orderly(book, issued),
        0 <= i < book.len(),
    ensures
        orderly(book.remove(i), issued),
{
    let after = book.remove(i);
    assert forall|a: int, b: int, lid: LotId|
        0 <= a < b < after.len() && #[trigger] offers(after[a], lid) implies !(#[trigger] offers(
        after[b],
        lid,
    )) by {
        let x = if a < i { a } else { a + 1 };
        let y = if b < i { b } else { b + 1 };
        assert(offers(book[x], lid));
        assert(!offers(book[y], lid));
    }
}

proof fn lemma_updated(book: Seq<BookEntry>, i: int, entry: BookEntry, issued: nat)
    requires
        orderly(book, issued),
        0 <= i < book.len(),
        entry.order.order_id == book[i].order.order_id,
        entry.order.direction == book[i].order.direction,
        entry.lot_id == book[i].lot_id,
    ensures
        orderly(book.update(i, entry), issued),
{
    let after = book.update(i, entry);
    assert forall|a: int, b: int, lid: LotId|
        0 <= a < b < after.len() && #[trigger] offers(after[a], lid) implies !(#[trigger] offers(
        after[b],
        lid,
    )) by {
        assert(offers(book[a], lid));
        assert(!offers(book[b], lid));
    }
}

/// Asking for cancellations keeps a book orderly.
pub proof fn lemma_side_pending(book: Seq<BookEntry>, side: Option<Side>, issued: nat)
    requires
        orderly(book, issued),
    ensures
        orderly(side_pending(book, side), issued),
{
    let after = side_pending(book, side);
    assert forall|a: int, b: int, lid: LotId|
        0 <= a < b < after.len() && #[trigger] offers(after[a], lid) implies !(#[trigger] offers(
        after[b],
        lid,
    )) by {
        assert(offers(book[a], lid));
        assert(!offers(book[b], lid));
    }
}

proof fn lemma_booked(desk: Desk, event: ExchangeEvent)
    requires
        in_order(desk),
        desk.booked_fits(event),
    ensures
        in_order(desk.booked(event)),
{
    match event {
        ExchangeEvent::BookUpdate(_) => {},
        ExchangeEvent::Filled(fill) => {
            lemma_edited(desk.book, fill.order_id, fill.filled_qty, desk.issued);
            match fill.direction {
                OrderDirection::Buy => {
                    purchase_keeps_numbering(
                        desk.holdings,
                        fill.side,
                        fill.cash / fill.filled_qty,
                        fill.filled_qty,
                        fill.cash,
                        desk.now,
                    );
                },
                OrderDirection::Sell => {
                    if let Some(lot_id) = lot_of(desk.book, fill.order_id) {
                        sale_keeps_numbering(
                            desk.holdings,
                            fill.side,
                            lot_id,
                            fill.filled_qty,
                            fill.cash,
                        );
                        lemma_without_stale(desk.book, lot_id, fill.order_id, desk.issued);
                    }
                    lemma_edited(
                        desk.book_after_sell(fill),
                        fill.order_id,
                        fill.filled_qty,
                        desk.issued,
                    );
                },
            }
        },
        ExchangeEvent::Canceled(order_id) => {
            lemma_edited(desk.book, order_id, crate::decimal::dec(0, 0), desk.issued);
        },
        ExchangeEvent::CancelFailed(order_id) => {
            lemma_edited(desk.book, order_id, crate::decimal::dec(0, 0), desk.issued);
        },
        ExchangeEvent::Rejected { order_id, .. } => {
            lemma_edited(desk.book, order_id, crate::decimal::dec(0, 0), desk.issued);
        },
    }
}

/// Carrying out wishes keeps the phase, the generation and the holdings.
pub proof fn lemma_carried_keeps(desk: Desk, intents: Seq<CommandIntent>)
    ensures
        desk.all_carried(intents).phase == desk.phase,
        desk.all_carried(intents).generation == desk.generation,
        desk.all_carried(intents).holdings == desk.holdings,
    decreases intents.len(),
{
    if intents.len() > 0 {
        lemma_carried_keeps(desk, intents.drop_last());
    }
}

/// Recording an order under a new identifier keeps a book orderly.
pub proof fn lemma_placed(book: Seq<BookEntry>, issued: nat, order: Order, lot_id: Option<LotId>)
    requires
        orderly(book, issued),
        issued < u64::MAX,
        order.order_id == OrderId(issued as u64),
        (order.direction == OrderDirection::Sell && lot_id is Some) ==> !book_offers(
            book,
            lot_id->0,
        ),
    ensures
        recorded(book, order, lot_id) == book.push(
            BookEntry { order, lifecycle: OrderLifecycle::Active, lot_id },
        ),
        orderly(recorded(book, order, lot_id), issued + 1),
{
    lemma_place(book, order.order_id, 0);
    let after = recorded(book, order, lot_id);
    let n = book.len() as int;
    assert forall|a: int, b: int, lid: LotId|
        0 <= a < b < after.len() && #[trigger] offers(after[a], lid) implies !(#[trigger] offers(
        after[b],
        lid,
    )) by {
        assert(offers(book[a], lid));
        if b < n {
            assert(!offers(book[b], lid));
        }
    }
}

proof fn lemma_carried_orderly(desk: Desk, intents: Seq<CommandIntent>)
    requires
        orderly(desk.book, desk.issued),
        desk.all_carried_fits(intents),
        forall|i: int|
            0 <= i < intents.len() && (#[trigger] intents[i]) is SubmitSell ==> !book_offers(
                desk.book,
                intents[i]->SubmitSell_lot_id,
            ),
        forall|i: int, j: int|
            0 <= i < j < intents.len() && (#[trigger] intents[i]) is SubmitSell && (
            #[trigger] intents[j]) is SubmitSell ==> intents[i]->SubmitSell_lot_id
                != intents[j]->SubmitSell_lot_id,
    ensures
        orderly(desk.all_carried(intents).book, desk.all_carried(intents).issued),
        forall|lot_id: LotId| #[trigger]
            book_offers(desk.all_carried(intents).book, lot_id) ==> book_offers(desk.book, lot_id)
                || exists|i: int|
                0 <= i < intents.len() && (#[trigger] intents[i]) is SubmitSell
                    && intents[i]->SubmitSell_lot_id == lot_id,
    decreases intents.len(),
{
    if intents.len() > 0 {
        let init = intents.drop_last();
        let last = intents.last();
        assert(intents[intents.len() - 1] == last);
        assert forall|i: int| 0 <= i < init.len() && (#[trigger] init[i]) is SubmitSell implies
            !book_offers(desk.book, init[i]->SubmitSell_lot_id) by {
            assert(intents[i] == init[i]);
        }
        assert forall|i: int, j: int|
            0 <= i < j < init.len() && (#[trigger] init[i]) is SubmitSell && (
            #[trigger] init[j]) is SubmitSell implies init[i]->SubmitSell_lot_id
            != init[j]->SubmitSell_lot_id by {
            assert(intents[i] == init[i]);
            assert(intents[j] == init[j]);
        }
        lemma_carried_orderly(desk, init);
        let mid = desk.all_carried(init);
        let end = desk.all_carried(intents);
        match last {
            CommandIntent::SubmitBuy { side, price, qty, role, tif } => {
                let order = mid.next_order(side, OrderDirection::Buy, price, qty, role, tif);
                if (price * qty)@ <= mid.free_cash()@ {
                    lemma_placed(mid.book, mid.issued, order, None);
                }
            },
            CommandIntent::SubmitSell { lot_id, side, price, qty, role, tif } => {
                let order = mid.next_order(side, OrderDirection::Sell, price, qty, role, tif);
                assert(intents[intents.len() - 1]->SubmitSell_lot_id == lot_id);
                if book_offers(mid.book, lot_id) {
                    let i = choose|i: int|
                        0 <= i < init.len() && (#[trigger] init[i]) is SubmitSell
                            && init[i]->SubmitSell_lot_id == lot_id;
                    assert(intents[i] == init[i]);
                    assert(false);
                }
                lemma_placed(mid.book, mid.issued, order, Some(lot_id));
            },
            CommandIntent::Cancel(order_id) => {
                lemma_edited(mid.book, order_id, crate::decimal::dec(0, 0), mid.issued);
                lemma_place(mid.book, order_id, 0);
            },
            CommandIntent::CancelSide(side) => {
                lemma_side_pending(mid.book, Some(side), mid.issued);
            },
            CommandIntent::CancelAll => {
                lemma_side_pending(mid.book, None, mid.issued);
            },
        }
        assert forall|lot_id: LotId| #[trigger] book_offers(end.book, lot_id) implies book_offers(
            desk.book,
            lot_id,
        ) || exists|i: int|
            0 <= i < intents.len() && (#[trigger] intents[i]) is SubmitSell
                && intents[i]->SubmitSell_lot_id == lot_id by {
            let k = choose|k: int|
                0 <= k < end.book.len() && offers(#[trigger] end.book[k], lot_id);
            if k < mid.book.len() && offers(mid.book[k], lot_id) {
                assert(book_offers(mid.book, lot_id));
                if !book_offers(desk.book, lot_id) {
                    let i = choose|i: int|
                        0 <= i < init.len() && (#[trigger] init[i]) is SubmitSell
                            && init[i]->SubmitSell_lot_id == lot_id;
                    assert(intents[i] == init[i]);
                }
            } else {
                assert(last is SubmitSell);
                assert(intents[intents.len() - 1]->SubmitSell_lot_id == lot_id);
            }
        }
    }
}

} // verus!
