//! The mathematical model of the inventory: two sequences of lots and three running
//! totals.

use crate::decimal::dec;
use crate::domain::pnl::PositionSnapshot;
use crate::domain::types::{Money, Price, Qty, Side};
use crate::exchange::clock::Millis;
use crate::inventory::lot::{Lot, LotId};
use vstd::prelude::*;

verus! {

/// The shares of all lots, added up in order.
pub open spec fn lots_qty(lots: Seq<Lot>) -> Qty
    decreases lots.len(),
{
    if lots.len() == 0 {
        dec(0, 0)
    } else {
        lots_qty(lots.drop_last()) + lots.last().qty
    }
}

/// Whether the shares of all lots can be added up.
pub open spec fn lots_qty_fits(lots: Seq<Lot>) -> bool
    decreases lots.len(),
{
    lots.len() > 0 ==> {
        &&& lots_qty_fits(lots.drop_last())
        &&& lots_qty(lots.drop_last()).add_fits(lots.last().qty)
    }
}

/// The cost of all lots, added up in order.
pub open spec fn lots_cost(lots: Seq<Lot>) -> Money
    decreases lots.len(),
{
    if lots.len() == 0 {
        dec(0, 0)
    } else {
        lots_cost(lots.drop_last()) + lots.last().basis()
    }
}

/// Whether the cost of all lots can be added up.
pub open spec fn lots_cost_fits(lots: Seq<Lot>) -> bool
    decreases lots.len(),
{
    lots.len() > 0 ==> {
        &&& lots_cost_fits(lots.drop_last())
        &&& lots.last().basis_fits()
        &&& lots_cost(lots.drop_last()).add_fits(lots.last().basis())
    }
}

/// The average cost of a share, where any are held.
pub open spec fn lots_average(lots: Seq<Lot>) -> Option<Price> {
    if lots_qty(lots)@ > 0real {
        Some(lots_cost(lots) / lots_qty(lots))
    } else {
        None
    }
}

/// Whether the average can be computed.
pub open spec fn lots_average_fits(lots: Seq<Lot>) -> bool {
    &&& lots_qty_fits(lots)
    &&& lots_qty(lots)@ > 0real ==> lots_cost_fits(lots) && lots_cost(lots).div_fits(
        lots_qty(lots),
    )
}

/// The place of a lot, where it is held: the first one with this identifier, looking
/// from `from` on.
pub open spec fn lot_place(lots: Seq<Lot>, lot_id: LotId, from: int) -> Option<int>
    decreases lots.len() - from,
{
    if from < 0 || from >= lots.len() {
        None
    } else if lots[from].lot_id == lot_id {
        Some(from)
    } else {
        lot_place(lots, lot_id, from + 1)
    }
}

/// The model of an inventory.
pub struct Holdings {
    /// The lots of `Up`, in the order in which they were bought.
    pub up: Seq<Lot>,
    /// The lots of `Down`, in the order in which they were bought.
    pub down: Seq<Lot>,
    /// How many lots were ever opened.
    pub opened: nat,
    /// The profit of all that was sold.
    pub realized: Money,
    /// All cash paid.
    pub cash_out: Money,
    /// All cash received.
    pub cash_in: Money,
}

impl Holdings {
    /// Nothing was bought yet.
    pub open spec fn empty() -> Holdings {
        Holdings {
            up: Seq::empty(),
            down: Seq::empty(),
            opened: 0,
            realized: dec(0, 0),
            cash_out: dec(0, 0),
            cash_in: dec(0, 0),
        }
    }

    /// The lots of a side.
    pub open spec fn lots(self, side: Side) -> Seq<Lot> {
        match side {
            Side::Up => self.up,
            Side::Down => self.down,
        }
    }

    /// The same with other lots of a side.
    pub open spec fn with_lots(self, side: Side, lots: Seq<Lot>) -> Holdings {
        match side {
            Side::Up => Holdings { up: lots, ..self },
            Side::Down => Holdings { down: lots, ..self },
        }
    }

    /// After a purchase.
    pub open spec fn bought(
        self,
        side: Side,
        buy_price: Price,
        qty: Qty,
        cash: Money,
        at: Millis,
    ) -> Holdings {
        let lot = Lot { lot_id: LotId(self.opened as u64), buy_price, qty, opened_at: at };
        Holdings {
            opened: self.opened + 1,
            cash_out: self.cash_out + cash,
            ..self.with_lots(side, self.lots(side).push(lot))
        }
    }

    /// The place of a lot of a side.
    pub open spec fn place(self, side: Side, lot_id: LotId) -> Option<int> {
        lot_place(self.lots(side), lot_id, 0)
    }

    /// The profit of selling all of a lot for `cash`.
    pub open spec fn sale_profit(self, side: Side, lot_id: LotId, cash: Money) -> Option<Money> {
        match self.place(side, lot_id) {
            Some(i) => Some(cash - self.lots(side)[i].basis()),
            None => None,
        }
    }

    /// After all of a lot was sold for `cash`. An unknown lot changes nothing.
    pub open spec fn sold(self, side: Side, lot_id: LotId, cash: Money) -> Holdings {
        match self.place(side, lot_id) {
            Some(i) => Holdings {
                realized: self.realized + (cash - self.lots(side)[i].basis()),
                cash_in: self.cash_in + cash,
                ..self.with_lots(side, self.lots(side).remove(i))
            },
            None => self,
        }
    }

    /// Whether a sale of all of a lot can be booked.
    pub open spec fn sold_fits(self, side: Side, lot_id: LotId, cash: Money) -> bool {
        self.place(side, lot_id) matches Some(i) ==> {
            let lot = self.lots(side)[i];
            &&& lot.basis_fits()
            &&& cash.sub_fits(lot.basis())
            &&& self.realized.add_fits(cash - lot.basis())
            &&& self.cash_in.add_fits(cash)
        }
    }

    /// The shares of a lot that a sale of `qty` takes: never more than it holds.
    pub open spec fn taken(self, side: Side, i: int, qty: Qty) -> Qty {
        qty.smaller(self.lots(side)[i].qty)
    }

    /// The profit of selling `qty` shares of a lot for `cash`.
    pub open spec fn part_profit(
        self,
        side: Side,
        lot_id: LotId,
        qty: Qty,
        cash: Money,
    ) -> Option<Money> {
        match self.place(side, lot_id) {
            Some(i) => Some(cash - self.lots(side)[i].buy_price * self.taken(side, i, qty)),
            None => None,
        }
    }

    /// After `qty` shares of a lot were sold for `cash`. The lot goes when nothing is
    /// left of it. An unknown lot changes nothing.
    pub open spec fn part_sold(
        self,
        side: Side,
        lot_id: LotId,
        qty: Qty,
        cash: Money,
    ) -> Holdings {
        match self.place(side, lot_id) {
            Some(i) => {
                let lot = self.lots(side)[i];
                let taken = self.taken(side, i, qty);
                let left = lot.qty - taken;
                let lots = if left@ > 0real {
                    self.lots(side).update(i, Lot { qty: left, ..lot })
                } else {
                    self.lots(side).remove(i)
                };
                Holdings {
                    realized: self.realized + (cash - lot.buy_price * taken),
                    cash_in: self.cash_in + cash,
                    ..self.with_lots(side, lots)
                }
            },
            None => self,
        }
    }

    /// Whether a sale of a part of a lot can be booked.
    pub open spec fn part_sold_fits(
        self,
        side: Side,
        lot_id: LotId,
        qty: Qty,
        cash: Money,
    ) -> bool {
        self.place(side, lot_id) matches Some(i) ==> {
            let lot = self.lots(side)[i];
            let taken = self.taken(side, i, qty);
            &&& lot.qty.sub_fits(taken)
            &&& lot.buy_price.mul_fits(taken)
            &&& cash.sub_fits(lot.buy_price * taken)
            &&& self.realized.add_fits(cash - lot.buy_price * taken)
            &&& self.cash_in.add_fits(cash)
        }
    }

    /// The average of a side, 0 where nothing is held.
    pub open spec fn average_or_zero(self, side: Side) -> Price {
        match lots_average(self.lots(side)) {
            Some(price) => price,
            None => dec(0, 0),
        }
    }

    /// The sum of the two averages.
    pub open spec fn averages_sum(self) -> Price {
        self.average_or_zero(Side::Up) + self.average_or_zero(Side::Down)
    }

    /// Whether the sum of the averages can be computed.
    pub open spec fn averages_sum_fits(self) -> bool {
        &&& lots_average_fits(self.up)
        &&& lots_average_fits(self.down)
        &&& self.average_or_zero(Side::Up).add_fits(self.average_or_zero(Side::Down))
    }

    /// What is still invested: cash paid less cash received.
    pub open spec fn invested(self) -> Money {
        self.cash_out - self.cash_in
    }

    /// The position that is held.
    pub open spec fn position(self) -> PositionSnapshot {
        PositionSnapshot {
            up_qty: lots_qty(self.up),
            down_qty: lots_qty(self.down),
            up_cost: lots_cost(self.up),
            down_cost: lots_cost(self.down),
        }
    }

    /// Whether the position can be computed.
    pub open spec fn position_fits(self) -> bool {
        &&& lots_qty_fits(self.up)
        &&& lots_qty_fits(self.down)
        &&& lots_cost_fits(self.up)
        &&& lots_cost_fits(self.down)
    }
}

} // verus!
