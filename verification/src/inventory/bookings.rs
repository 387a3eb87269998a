//! What a purchase and a sale do to the books, told field by field.

use crate::decimal::dec;
use crate::domain::types::{Money, Price, Qty, Side};
use crate::exchange::clock::Millis;
use crate::inventory::lot::{Lot, LotId};
use crate::inventory::model::{lot_place, lots_average, lots_cost, lots_qty, Holdings};
use vstd::prelude::*;

verus! {

/// The lots of a side.
pub open spec fn kept_of(h: Holdings, side: Side) -> Seq<Lot> {
    if side == Side::Up {
        h.up
    } else {
        h.down
    }
}

/// The lots of the side across.
pub open spec fn kept_across(h: Holdings, side: Side) -> Seq<Lot> {
    if side == Side::Up {
        h.down
    } else {
        h.up
    }
}

/// A purchase adds one lot, with the next identifier, at the end of its own side; the cash
/// is added to what was paid, and nothing else changes.
pub proof fn purchases_open_one_lot(
    h: Holdings,
    side: Side,
    buy_price: Price,
    qty: Qty,
    cash: Money,
    at: Millis,
)
    requires
        h.opened <= u64::MAX,
    ensures
        ({
            let after = h.bought(side, buy_price, qty, cash, at);
            let n = kept_of(h, side).len();
            let lot = kept_of(after, side)[n as int];
            &&& kept_of(after, side).len() == n + 1
            &&& kept_of(after, side).take(n as int) == kept_of(h, side)
            &&& lot.lot_id.0 == h.opened
            &&& lot.buy_price == buy_price
            &&& lot.qty == qty
            &&& lot.opened_at == at
            &&& kept_across(after, side) == kept_across(h, side)
            &&& after.opened == h.opened + 1
            &&& after.cash_out == h.cash_out + cash
            &&& after.cash_in == h.cash_in
            &&& after.realized == h.realized
        }),
{
    let after = h.bought(side, buy_price, qty, cash, at);
    assert(kept_of(after, side).take(kept_of(h, side).len() as int) =~= kept_of(h, side));
}

/// Whether the lot at `k` is the first of a side with an identifier.
pub open spec fn is_the_lot(h: Holdings, side: Side, lot_id: LotId, k: int) -> bool {
    &&& 0 <= k < kept_of(h, side).len()
    &&& kept_of(h, side)[k].lot_id == lot_id
    &&& forall|j: int| 0 <= j < k ==> (#[trigger] kept_of(h, side)[j]).lot_id != lot_id
}

/// A sale takes its shares, but no more than there are, from its own lot and from no other;
/// the lot goes when nothing is left of it. The profit is the cash less what the taken
/// shares cost, and it is added to what was realized, as the cash is to what was received.
pub proof fn sales_reduce_one_lot(
    h: Holdings,
    side: Side,
    lot_id: LotId,
    qty: Qty,
    cash: Money,
    k: int,
)
    requires
        is_the_lot(h, side, lot_id, k),
    ensures
        ({
            let after = h.part_sold(side, lot_id, qty, cash);
            let lot = kept_of(h, side)[k];
            let taken = if lot.qty@ < qty@ { lot.qty } else { qty };
            let left = lot.qty - taken;
            let profit = cash - lot.buy_price * taken;
            &&& left@ > 0real ==> kept_of(after, side) == kept_of(h, side).update(
                k,
                Lot {
                    lot_id: lot.lot_id,
                    buy_price: lot.buy_price,
                    qty: left,
                    opened_at: lot.opened_at,
                },
            )
            &&& left@ <= 0real ==> kept_of(after, side) == kept_of(h, side).remove(k)
            &&& kept_across(after, side) == kept_across(h, side)
            &&& after.opened == h.opened
            &&& after.cash_out == h.cash_out
            &&& after.cash_in == h.cash_in + cash
            &&& after.realized == h.realized + profit
            &&& h.part_profit(side, lot_id, qty, cash) == Some(profit)
        }),
        ({
            let after = h.sold(side, lot_id, cash);
            let lot = kept_of(h, side)[k];
            let profit = cash - lot.buy_price * lot.qty;
            &&& kept_of(after, side) == kept_of(h, side).remove(k)
            &&& kept_across(after, side) == kept_across(h, side)
            &&& after.opened == h.opened
            &&& after.cash_out == h.cash_out
            &&& after.cash_in == h.cash_in + cash
            &&& after.realized == h.realized + profit
            &&& h.sale_profit(side, lot_id, cash) == Some(profit)
        }),
{
    lemma_first(kept_of(h, side), lot_id, 0, k);
}

/// The sale of a lot that is not held of that side changes nothing and has no profit.
pub proof fn unknown_lots_are_not_sold(
    h: Holdings,
    side: Side,
    lot_id: LotId,
    qty: Qty,
    cash: Money,
)
    requires
        forall|j: int|
            0 <= j < kept_of(h, side).len() ==> (#[trigger] kept_of(h, side)[j]).lot_id != lot_id,
    ensures
        h.part_sold(side, lot_id, qty, cash) == h,
        h.sold(side, lot_id, cash) == h,
        h.part_profit(side, lot_id, qty, cash) is None,
        h.sale_profit(side, lot_id, cash) is None,
        h.place(side, lot_id) is None,
{
    lemma_none(kept_of(h, side), lot_id, 0);
}

/// Shares and costs are added up lot by lot; the average is the cost of a share where any
/// are held; a position is these sums, each of its own side; and what is invested is the
/// cash paid less the cash received.
pub proof fn holdings_add_up_lot_by_lot(h: Holdings, lots: Seq<Lot>, lot: Lot)
    ensures
        lots_qty(Seq::empty()) == dec(0, 0),
        lots_cost(Seq::empty()) == dec(0, 0),
        lots_qty(lots.push(lot)) == lots_qty(lots) + lot.qty,
        lots_cost(lots.push(lot)) == lots_cost(lots) + lot.buy_price * lot.qty,
        lots_average(lots) == (if lots_qty(lots)@ > 0real {
            Some(lots_cost(lots) / lots_qty(lots))
        } else {
            None
        }),
        h.position().up_qty == lots_qty(h.up),
        h.position().up_cost == lots_cost(h.up),
        h.position().down_qty == lots_qty(h.down),
        h.position().down_cost == lots_cost(h.down),
        h.invested() == h.cash_out - h.cash_in,
        h.averages_sum() == (match lots_average(h.up) {
            Some(price) => price,
            None => dec(0, 0),
        }) + (match lots_average(h.down) {
            Some(price) => price,
            None => dec(0, 0),
        }),
        Holdings::empty().up.len() == 0,
        Holdings::empty().down.len() == 0,
        Holdings::empty().realized == dec(0, 0),
        Holdings::empty().cash_in == dec(0, 0),
        Holdings::empty().cash_out == dec(0, 0),
{
    assert(lots.push(lot).drop_last() =~= lots);
}

proof fn lemma_first(lots: Seq<Lot>, lot_id: LotId, from: int, k: int)
    requires
        0 <= from <= k < lots.len(),
        lots[k].lot_id == lot_id,
        forall|j: int| 0 <= j < k ==> (#[trigger] lots[j]).lot_id != lot_id,
    ensures
        lot_place(lots, lot_id, from) == Some(k),
    decreases k - from,
{
    if from < k {
        assert(lots[from].lot_id != lot_id);
        lemma_first(lots, lot_id, from + 1, k);
    }
}

proof fn lemma_none(lots: Seq<Lot>, lot_id: LotId, from: int)
    requires
        0 <= from <= lots.len(),
        forall|j: int| 0 <= j < lots.len() ==> (#[trigger] lots[j]).lot_id != lot_id,
    ensures
        lot_place(lots, lot_id, from) is None,
    decreases lots.len() - from,
{
    if from < lots.len() {
        assert(lots[from].lot_id != lot_id);
        lemma_none(lots, lot_id, from + 1);
    }
}

} // verus!
