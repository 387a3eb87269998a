//! What holds of every inventory: its numbering and its books.

use crate::decimal::laws::{equal_by_value, nothing_is_left, zero_value};
use crate::domain::types::{Money, Price, Qty, Side};
use crate::exchange::clock::Millis;
use crate::inventory::lot::{Lot, LotId};
use crate::inventory::model::{lot_place, lots_cost, lots_qty, Holdings};
use vstd::prelude::*;

verus! {

/// Whether identifiers grow along the lots and stay below `limit`.
pub open spec fn numbered(lots: Seq<Lot>, limit: nat) -> bool {
    &&& forall|i: int, j: int| 0 <= i < j < lots.len() ==> lots[i].lot_id.0 < lots[j].lot_id.0
    &&& forall|i: int| 0 <= i < lots.len() ==> lots[i].lot_id.0 < limit
}

/// Whether no identifier occurs twice, on either side or across them, and none is
/// still to be handed out.
pub open spec fn well_numbered(h: Holdings) -> bool {
    &&& numbered(h.up, h.opened)
    &&& numbered(h.down, h.opened)
    &&& forall|i: int, j: int|
        0 <= i < h.up.len() && 0 <= j < h.down.len() ==> h.up[i].lot_id != h.down[j].lot_id
}

/// A new inventory is well numbered.
pub proof fn empty_is_well_numbered()
    ensures
        well_numbered(Holdings::empty()),
{
}

/// A purchase keeps the numbering, and its lot is found again under its identifier.
pub proof fn purchase_keeps_numbering(
    h: Holdings,
    side: Side,
    buy_price: Price,
    qty: Qty,
    cash: Money,
    at: Millis,
)
    requires
        well_numbered(h),
        h.opened < u64::MAX,
    ensures
        well_numbered(h.bought(side, buy_price, qty, cash, at)),
        h.bought(side, buy_price, qty, cash, at).place(side, LotId(h.opened as u64)) == Some(
            h.lots(side).len() as int,
        ),
{
    let after = h.bought(side, buy_price, qty, cash, at);
    lemma_place(after.lots(side), LotId(h.opened as u64), 0, h.lots(side).len() as int);
}

/// A sale, of all of a lot or of a part of it, keeps the numbering.
pub proof fn sale_keeps_numbering(h: Holdings, side: Side, lot_id: LotId, qty: Qty, cash: Money)
    requires
        well_numbered(h),
    ensures
        well_numbered(h.sold(side, lot_id, cash)),
        well_numbered(h.part_sold(side, lot_id, qty, cash)),
{
    lemma_place_range(h.lots(side), lot_id, 0);
}

/// A lot that was sold is gone: its identifier is found no more.
pub proof fn sold_lot_is_gone(h: Holdings, side: Side, lot_id: LotId, cash: Money)
    requires
        well_numbered(h),
    ensures
        h.sold(side, lot_id, cash).place(side, lot_id) is None,
{
    lemma_place_range(h.lots(side), lot_id, 0);
    lemma_place_range(h.sold(side, lot_id, cash).lots(side), lot_id, 0);
}

/// Selling no less than a lot holds is selling all of it.
pub proof fn selling_enough_is_selling_all(
    h: Holdings,
    side: Side,
    lot_id: LotId,
    qty: Qty,
    cash: Money,
)
    requires
        qty.wf(),
        h.place(side, lot_id) matches Some(i) ==> h.lots(side)[i].qty.wf() && h.lots(side)[i].qty@
            <= qty@,
    ensures
        h.part_sold(side, lot_id, qty, cash) == h.sold(side, lot_id, cash),
        h.part_profit(side, lot_id, qty, cash) == h.sale_profit(side, lot_id, cash),
{
    if let Some(i) = h.place(side, lot_id) {
        let lot = h.lots(side)[i];
        if qty@ == lot.qty@ {
            equal_by_value(qty, lot.qty);
        }
        assert(h.taken(side, i, qty) == lot.qty);
        nothing_is_left(lot.qty);
    }
}

proof fn lemma_place(lots: Seq<Lot>, lot_id: LotId, from: int, at: int)
    requires
        0 <= from <= at < lots.len(),
        lots[at].lot_id == lot_id,
        forall|k: int| from <= k < at ==> lots[k].lot_id != lot_id,
    ensures
        lot_place(lots, lot_id, from) == Some(at),
    decreases at - from,
{
    if from < at {
        lemma_place(lots, lot_id, from + 1, at);
    }
}

proof fn lemma_place_range(lots: Seq<Lot>, lot_id: LotId, from: int)
    requires
        0 <= from <= lots.len(),
    ensures
        match lot_place(lots, lot_id, from) {
            Some(i) => from <= i < lots.len() && lots[i].lot_id == lot_id,
            None => forall|k: int| from <= k < lots.len() ==> lots[k].lot_id != lot_id,
        },
    decreases lots.len() - from,
{
    if from < lots.len() {
        lemma_place_range(lots, lot_id, from + 1);
    }
}

/// The exact cost of all lots.
pub open spec fn cost_value(lots: Seq<Lot>) -> real
    decreases lots.len(),
{
    if lots.len() == 0 {
        0real
    } else {
        cost_value(lots.drop_last()) + lots.last().basis()@
    }
}

/// Whether the books balance: the profit made is what came in, less what was paid,
/// plus what the shares still held cost.
pub open spec fn balanced(h: Holdings) -> bool {
    h.realized@ == h.cash_in@ - h.cash_out@ + cost_value(h.up) + cost_value(h.down)
}

/// The books of a new inventory balance.
pub proof fn empty_books_balance()
    ensures
        balanced(Holdings::empty()),
{
    zero_value();
}

/// Whether a purchase books exactly what was paid: the lot costs the cash, and the total
/// paid is not rounded.
pub open spec fn purchase_is_exact(h: Holdings, buy_price: Price, qty: Qty, cash: Money) -> bool {
    &&& (buy_price * qty)@ == cash@
    &&& (h.cash_out + cash)@ == h.cash_out@ + cash@
}

/// An exact purchase keeps the books balanced.
pub proof fn purchase_keeps_balance(
    h: Holdings,
    side: Side,
    buy_price: Price,
    qty: Qty,
    cash: Money,
    at: Millis,
)
    requires
        balanced(h),
        purchase_is_exact(h, buy_price, qty, cash),
    ensures
        balanced(h.bought(side, buy_price, qty, cash, at)),
{
    let after = h.bought(side, buy_price, qty, cash, at);
    assert(after.lots(side).drop_last() =~= h.lots(side));
}

/// A sale of all of a lot keeps the books balanced, as long as nothing is rounded.
pub proof fn sale_keeps_balance(h: Holdings, side: Side, lot_id: LotId, cash: Money)
    requires
        balanced(h),
        (h.cash_in + cash)@ == h.cash_in@ + cash@,
        h.sale_profit(side, lot_id, cash) matches Some(profit) ==> {
            &&& profit@ == cash@ - h.lots(side)[h.place(side, lot_id)->0].basis()@
            &&& (h.realized + profit)@ == h.realized@ + profit@
        },
    ensures
        balanced(h.sold(side, lot_id, cash)),
{
    lemma_place_range(h.lots(side), lot_id, 0);
    if let Some(i) = h.place(side, lot_id) {
        lemma_cost_remove(h.lots(side), i);
    }
}

/// Whether a sale of a part of a lot is booked without rounding.
pub open spec fn part_sale_is_exact(
    h: Holdings,
    side: Side,
    lot_id: LotId,
    qty: Qty,
    cash: Money,
) -> bool {
    h.place(side, lot_id) matches Some(i) ==> {
        let lot = h.lots(side)[i];
        let taken = h.taken(side, i, qty);
        let left = lot.qty - taken;
        let profit = cash - lot.buy_price * taken;
        &&& (h.cash_in + cash)@ == h.cash_in@ + cash@
        &&& profit@ == cash@ - (lot.buy_price * taken)@
        &&& (h.realized + profit)@ == h.realized@ + profit@
        &&& left@ > 0real ==> (lot.buy_price * taken)@ + (lot.buy_price * left)@ == lot.basis()@
        &&& left@ <= 0real ==> taken == lot.qty
    }
}

/// An exact sale of a part of a lot keeps the books balanced.
pub proof fn part_sale_keeps_balance(
    h: Holdings,
    side: Side,
    lot_id: LotId,
    qty: Qty,
    cash: Money,
)
    requires
        balanced(h),
        part_sale_is_exact(h, side, lot_id, qty, cash),
    ensures
        balanced(h.part_sold(side, lot_id, qty, cash)),
{
    lemma_place_range(h.lots(side), lot_id, 0);
    if let Some(i) = h.place(side, lot_id) {
        let lot = h.lots(side)[i];
        let left = lot.qty - h.taken(side, i, qty);
        lemma_cost_remove(h.lots(side), i);
        lemma_cost_update(h.lots(side), i, Lot { qty: left, ..lot });
    }
}

/// Whether a position is settled without rounding.
pub open spec fn settlement_is_exact(h: Holdings, winner: Side) -> bool {
    let position = h.position();
    &&& lots_cost(h.up)@ == cost_value(h.up)
    &&& lots_cost(h.down)@ == cost_value(h.down)
    &&& position.total()@ == position.up_cost@ + position.down_cost@
    &&& position.settled(winner)@ == position.shares(winner)@ - position.total()@
    &&& h.invested()@ == h.cash_out@ - h.cash_in@
}

/// The profit of a match, wherever the books balance: what was realized plus what the
/// position settles at is the winning shares less what is still invested.
pub proof fn match_profit(h: Holdings, winner: Side)
    requires
        balanced(h),
        settlement_is_exact(h, winner),
    ensures
        h.realized@ + h.position().settled(winner)@ == lots_qty(h.lots(winner))@ - h.invested()@,
{
}

proof fn lemma_cost_remove(lots: Seq<Lot>, i: int)
    requires
        0 <= i < lots.len(),
    ensures
        cost_value(lots.remove(i)) == cost_value(lots) - lots[i].basis()@,
    decreases lots.len(),
{
    if i == lots.len() - 1 {
        assert(lots.remove(i) =~= lots.drop_last());
    } else {
        lemma_cost_remove(lots.drop_last(), i);
        assert(lots.remove(i).drop_last() =~= lots.drop_last().remove(i));
    }
}

proof fn lemma_cost_update(lots: Seq<Lot>, i: int, lot: Lot)
    requires
        0 <= i < lots.len(),
    ensures
        cost_value(lots.update(i, lot)) == cost_value(lots) - lots[i].basis()@ + lot.basis()@,
    decreases lots.len(),
{
    if i == lots.len() - 1 {
        assert(lots.update(i, lot).drop_last() =~= lots.drop_last());
    } else {
        lemma_cost_update(lots.drop_last(), i, lot);
        assert(lots.update(i, lot).drop_last() =~= lots.drop_last().update(i, lot));
    }
}

} // verus!
