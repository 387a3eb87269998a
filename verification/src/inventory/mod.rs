//! The inventory: every purchase is kept as a lot of its own, so that each can be
//! sold at a profit of its own.

use crate::decimal::laws::zero_value;
use crate::decimal::Decimal;
use crate::domain::pnl::PositionSnapshot;
use crate::domain::types::{Money, Price, Qty, Side};
use crate::exchange::clock::Millis;
use crate::inventory::lot::{Lot, LotId};
use crate::inventory::model::{
    lot_place, lots_average, lots_average_fits, lots_cost, lots_cost_fits, lots_qty,
    lots_qty_fits, Holdings,
};
use vstd::prelude::*;

pub mod bookings;
pub mod laws;
pub mod lot;
pub mod model;

verus! {

/// Hands out lot identifiers, each larger than every one before it.
#[derive(Debug, Clone)]
struct LotIdGen {
    next: u64,
}

/// The lots of one side, in the order in which they were bought.
#[derive(Debug, Clone)]
struct SideInventory {
    lots: Vec<Lot>,
}

impl SideInventory {
    fn new() -> (r: Self)
        ensures
            r.lots@ == Seq::<Lot>::empty(),
    {
        Self { lots: Vec::new() }
    }

    /// Finds a lot.
    fn find(&self, lot_id: LotId) -> (r: Option<usize>)
        ensures
            match r {
                Some(i) => lot_place(self.lots@, lot_id, 0) == Some(i as int) && i
                    < self.lots@.len(),
                None => lot_place(self.lots@, lot_id, 0) is None,
            },
    {
        let mut i: usize = 0;
        while i < self.lots.len()
            invariant
                i <= self.lots@.len(),
                lot_place(self.lots@, lot_id, 0) == lot_place(self.lots@, lot_id, i as int),
            decreases self.lots@.len() - i,
        {
            if self.lots[i].lot_id == lot_id {
                return Some(i);
            }
            i += 1;
        }
        None
    }

    /// Removes a lot and returns it, if it is there.
    fn close(&mut self, lot_id: LotId) -> (r: Option<Lot>)
        ensures
            match lot_place(old(self).lots@, lot_id, 0) {
                Some(i) => 0 <= i < old(self).lots@.len() && r == Some(old(self).lots@[i])
                    && final(self).lots@ == old(self).lots@.remove(i),
                None => r is None && final(self).lots@ == old(self).lots@,
            },
    {
        match self.find(lot_id) {
            Some(i) => Some(self.lots.remove(i)),
            None => None,
        }
    }

    fn net_qty(&self) -> (r: Qty)
        requires
            lots_qty_fits(self.lots@),
        ensures
            r == lots_qty(self.lots@),
    {
        let mut sum = Decimal::zero();
        let mut i: usize = 0;
        proof {
            assert(self.lots@.take(0) =~= Seq::<Lot>::empty());
            assert(self.lots@.take(self.lots@.len() as int) =~= self.lots@);
        }
        while i < self.lots.len()
            invariant
                i <= self.lots@.len(),
                lots_qty_fits(self.lots@),
                sum == lots_qty(self.lots@.take(i as int)),
            decreases self.lots@.len() - i,
        {
            proof {
                lemma_qty_fits_prefix(self.lots@, i as int + 1);
                assert(self.lots@.take(i as int + 1).drop_last() =~= self.lots@.take(i as int));
            }
            sum = sum.plus(self.lots[i].qty);
            i += 1;
        }
        proof {
            assert(self.lots@.take(self.lots@.len() as int) =~= self.lots@);
        }
        sum
    }

    fn net_cost(&self) -> (r: Money)
        requires
            lots_cost_fits(self.lots@),
        ensures
            r == lots_cost(self.lots@),
    {
        let mut sum = Decimal::zero();
        let mut i: usize = 0;
        proof {
            assert(self.lots@.take(0) =~= Seq::<Lot>::empty());
        }
        while i < self.lots.len()
            invariant
                i <= self.lots@.len(),
                lots_cost_fits(self.lots@),
                sum == lots_cost(self.lots@.take(i as int)),
            decreases self.lots@.len() - i,
        {
            proof {
                lemma_cost_fits_prefix(self.lots@, i as int + 1);
                assert(self.lots@.take(i as int + 1).drop_last() =~= self.lots@.take(i as int));
            }
            sum = sum.plus(self.lots[i].cost());
            i += 1;
        }
        proof {
            assert(self.lots@.take(self.lots@.len() as int) =~= self.lots@);
        }
        sum
    }

    fn net_avg(&self) -> (r: Option<Price>)
        requires
            lots_average_fits(self.lots@),
        ensures
            r == lots_average(self.lots@),
    {
        proof {
            zero_value();
        }
        let qty = self.net_qty();
        if qty.gt(Decimal::zero()) {
            Some(self.net_cost().over(qty))
        } else {
            None
        }
    }

    /// The lots, the latest first.
    fn latest_first(&self) -> (r: Vec<Lot>)
        ensures
            r@ == self.lots@.reverse(),
    {
        let mut r: Vec<Lot> = Vec::new();
        let mut i: usize = self.lots.len();
        while i > 0
            invariant
                i <= self.lots@.len(),
                r@.len() == self.lots@.len() - i,
                forall|k: int|
                    0 <= k < r@.len() ==> r@[k] == self.lots@[self.lots@.len() - 1 - k],
            decreases i,
        {
            i -= 1;
            r.push(self.lots[i]);
        }
        r
    }
}

proof fn lemma_qty_fits_prefix(lots: Seq<Lot>, n: int)
    requires
        0 <= n <= lots.len(),
        lots_qty_fits(lots),
    ensures
        lots_qty_fits(lots.take(n)),
    decreases lots.len(),
{
    if n < lots.len() {
        lemma_qty_fits_prefix(lots.drop_last(), n);
        assert(lots.drop_last().take(n) =~= lots.take(n));
    } else {
        assert(lots.take(n) =~= lots);
    }
}

proof fn lemma_cost_fits_prefix(lots: Seq<Lot>, n: int)
    requires
        0 <= n <= lots.len(),
        lots_cost_fits(lots),
    ensures
        lots_cost_fits(lots.take(n)),
    decreases lots.len(),
{
    if n < lots.len() {
        lemma_cost_fits_prefix(lots.drop_last(), n);
        assert(lots.drop_last().take(n) =~= lots.take(n));
    } else {
        assert(lots.take(n) =~= lots);
    }
}

/// The lots of both sides and what they brought.
#[derive(Debug, Clone)]
pub struct Inventory {
    up: SideInventory,
    down: SideInventory,
    id_gen: LotIdGen,
    realized_pnl: Money,
    cash_out: Money,
    cash_in: Money,
}

impl View for Inventory {
    type V = Holdings;

    closed spec fn view(&self) -> Holdings {
        Holdings {
            up: self.up.lots@,
            down: self.down.lots@,
            opened: self.id_gen.next as nat,
            realized: self.realized_pnl,
            cash_out: self.cash_out,
            cash_in: self.cash_in,
        }
    }
}

impl Inventory {
    /// An empty inventory.
    pub fn new() -> (r: Self)
        ensures
            r@ == Holdings::empty(),
    {
        let r = Self {
            up: SideInventory::new(),
            down: SideInventory::new(),
            id_gen: LotIdGen { next: 0 },
            realized_pnl: Decimal::zero(),
            cash_out: Decimal::zero(),
            cash_in: Decimal::zero(),
        };
        r
    }

    /// Books a purchase as a new lot and returns its identifier.
    ///
    /// `buy_price` is the cash paid over the shares received, `qty` the shares
    /// received, and `cash` the cash paid.
    pub fn open_lot(
        &mut self,
        side: Side,
        buy_price: Price,
        qty: Qty,
        cash: Money,
        at: Millis,
    ) -> (r: LotId)
        requires
            old(self)@.opened < u64::MAX,
            old(self)@.cash_out.add_fits(cash),
        ensures
            r.0 == old(self)@.opened,
            final(self)@ == old(self)@.bought(side, buy_price, qty, cash, at),
    {
        let lot_id = LotId(self.id_gen.next);
        self.id_gen.next += 1;
        let lot = Lot { lot_id, buy_price, qty, opened_at: at };
        match side {
            Side::Up => self.up.lots.push(lot),
            Side::Down => self.down.lots.push(lot),
        }
        self.cash_out = self.cash_out.plus(cash);
        lot_id
    }

    /// Books the sale of all of a lot and returns its profit, or `None` for an
    /// unknown lot.
    pub fn close_lot(&mut self, side: Side, lot_id: LotId, cash_in_amount: Money) -> (r: Option<
        Money,
    >)
        requires
            old(self)@.sold_fits(side, lot_id, cash_in_amount),
        ensures
            r == old(self)@.sale_profit(side, lot_id, cash_in_amount),
            final(self)@ == old(self)@.sold(side, lot_id, cash_in_amount),
    {
        let closed = match side {
            Side::Up => self.up.close(lot_id),
            Side::Down => self.down.close(lot_id),
        };
        match closed {
            Some(lot) => {
                let pnl = cash_in_amount.minus(lot.cost());
                self.realized_pnl = self.realized_pnl.plus(pnl);
                self.cash_in = self.cash_in.plus(cash_in_amount);
                Some(pnl)
            },
            None => None,
        }
    }

    /// Books the sale of `filled_qty` shares of a lot and returns its profit, or
    /// `None` for an unknown lot. The lot goes when nothing is left of it.
    pub fn reduce_lot(
        &mut self,
        side: Side,
        lot_id: LotId,
        filled_qty: Qty,
        cash_in_amount: Money,
    ) -> (r: Option<Money>)
        requires
            old(self)@.part_sold_fits(side, lot_id, filled_qty, cash_in_amount),
        ensures
            r == old(self)@.part_profit(side, lot_id, filled_qty, cash_in_amount),
            final(self)@ == old(self)@.part_sold(side, lot_id, filled_qty, cash_in_amount),
    {
        let found = match side {
            Side::Up => self.up.find(lot_id),
            Side::Down => self.down.find(lot_id),
        };
        match found {
            Some(i) => {
                let lot = match side {
                    Side::Up => self.up.lots[i],
                    Side::Down => self.down.lots[i],
                };
                let taken = filled_qty.min(lot.qty);
                let left = lot.qty.minus(taken);
                let pnl = cash_in_amount.minus(lot.buy_price.times(taken));
                proof {
                    zero_value();
                }
                if left.gt(Decimal::zero()) {
                    let rest = Lot { qty: left, ..lot };
                    match side {
                        Side::Up => self.up.lots.set(i, rest),
                        Side::Down => self.down.lots.set(i, rest),
                    }
                } else {
                    match side {
                        Side::Up => {
                            self.up.lots.remove(i);
                        },
                        Side::Down => {
                            self.down.lots.remove(i);
                        },
                    }
                }
                self.realized_pnl = self.realized_pnl.plus(pnl);
                self.cash_in = self.cash_in.plus(cash_in_amount);
                Some(pnl)
            },
            None => None,
        }
    }

    /// Tells whether a lot is still held.
    pub fn lot_exists(&self, side: Side, lot_id: LotId) -> (r: bool)
        ensures
            r == (self@.place(side, lot_id) is Some),
    {
        self.side(side).find(lot_id).is_some()
    }

    /// The shares held of a side.
    pub fn net_qty(&self, side: Side) -> (r: Qty)
        requires
            lots_qty_fits(self@.lots(side)),
        ensures
            r == lots_qty(self@.lots(side)),
    {
        self.side(side).net_qty()
    }

    /// What the shares of a side cost.
    pub fn net_cost(&self, side: Side) -> (r: Money)
        requires
            lots_cost_fits(self@.lots(side)),
        ensures
            r == lots_cost(self@.lots(side)),
    {
        self.side(side).net_cost()
    }

    /// The average cost of a side's shares, where any are held.
    pub fn net_avg(&self, side: Side) -> (r: Option<Price>)
        requires
            lots_average_fits(self@.lots(side)),
        ensures
            r == lots_average(self@.lots(side)),
    {
        self.side(side).net_avg()
    }

    /// The sum of the two averages, a side without shares counting as 0.
    pub fn sum_avg(&self) -> (r: Price)
        requires
            self@.averages_sum_fits(),
        ensures
            r == self@.averages_sum(),
    {
        let up = match self.net_avg(Side::Up) {
            Some(price) => price,
            None => Decimal::zero(),
        };
        let down = match self.net_avg(Side::Down) {
            Some(price) => price,
            None => Decimal::zero(),
        };
        up.plus(down)
    }

    /// The lots of a side, the latest purchase first.
    pub fn open_lots(&self, side: Side) -> (r: Vec<Lot>)
        ensures
            r@ == self@.lots(side).reverse(),
    {
        self.side(side).latest_first()
    }

    /// The number of lots of a side.
    pub fn lot_count(&self, side: Side) -> (r: usize)
        ensures
            r == self@.lots(side).len(),
    {
        self.side(side).lots.len()
    }

    /// The profit of all that was sold.
    pub fn realized_pnl(&self) -> (r: Money)
        ensures
            r == self@.realized,
    {
        self.realized_pnl
    }

    /// What is still invested: cash paid less cash received.
    pub fn net_invested(&self) -> (r: Money)
        requires
            self@.cash_out.sub_fits(self@.cash_in),
        ensures
            r == self@.invested(),
    {
        self.cash_out.minus(self.cash_in)
    }

    /// The position that is held.
    pub fn snapshot(&self) -> (r: PositionSnapshot)
        requires
            self@.position_fits(),
        ensures
            r == self@.position(),
    {
        PositionSnapshot {
            up_qty: self.net_qty(Side::Up),
            down_qty: self.net_qty(Side::Down),
            up_cost: self.net_cost(Side::Up),
            down_cost: self.net_cost(Side::Down),
        }
    }

    fn side(&self, side: Side) -> (r: &SideInventory)
        ensures
            r.lots@ == self@.lots(side),
    {
        match side {
            Side::Up => &self.up,
            Side::Down => &self.down,
        }
    }
}

impl Default for Inventory {
    fn default() -> (r: Self)
        ensures
            r@ == Holdings::empty(),
    {
        Self::new()
    }
}

} // verus!
