//! The ledger in memory. A sale takes its share of the cost at the average price, so
//! that the average of what is left does not change.

use crate::decimal::{dec, Decimal};
use crate::domain::order::{Fill, OrderDirection};
use crate::domain::pnl::PositionSnapshot;
use crate::domain::types::{Money, Price, Qty, Side};
use vstd::prelude::*;

verus! {

/// What is held of one side.
#[derive(Debug, Clone, Copy, PartialEq, Eq, Structural)]
pub struct SideBook {
    pub qty: Qty,
    /// What these shares cost, fees included.
    pub cost: Money,
}

impl SideBook {
    /// Nothing is held.
    pub open spec fn empty() -> SideBook {
        SideBook { qty: dec(0, 0), cost: dec(0, 0) }
    }

    /// The average price, 0 where nothing is held.
    pub open spec fn average(self) -> Price {
        if self.qty@ == 0real {
            dec(0, 0)
        } else {
            self.cost / self.qty
        }
    }

    /// Whether the average price can be computed.
    pub open spec fn average_fits(self) -> bool {
        self.qty@ != 0real ==> self.cost.div_fits(self.qty)
    }

    /// After a purchase.
    pub open spec fn bought(self, qty: Qty, cash: Money) -> SideBook {
        SideBook { qty: self.qty + qty, cost: self.cost + cash }
    }

    /// Whether a purchase can be booked.
    pub open spec fn bought_fits(self, qty: Qty, cash: Money) -> bool {
        self.qty.add_fits(qty) && self.cost.add_fits(cash)
    }

    /// After a sale of `qty` shares, of which no more are taken than are held. When
    /// nothing is left, nothing of the cost is.
    pub open spec fn sold(self, qty: Qty) -> SideBook {
        let taken = qty.smaller(self.qty);
        let left = self.qty - taken;
        if taken@ == 0real {
            self
        } else if left@ == 0real {
            SideBook { qty: left, cost: dec(0, 0) }
        } else {
            SideBook { qty: left, cost: self.cost - self.average() * taken }
        }
    }

    /// Whether a sale can be booked.
    pub open spec fn sold_fits(self, qty: Qty) -> bool {
        let taken = qty.smaller(self.qty);
        taken@ != 0real ==> {
            &&& self.average_fits()
            &&& self.qty.sub_fits(taken)
            &&& self.average().mul_fits(taken)
            &&& self.cost.sub_fits(self.average() * taken)
        }
    }

    /// After a fill.
    pub open spec fn filled(self, fill: Fill) -> SideBook {
        match fill.direction {
            OrderDirection::Buy => self.bought(fill.filled_qty, fill.cash),
            OrderDirection::Sell => self.sold(fill.filled_qty),
        }
    }

    /// Whether a fill can be booked.
    pub open spec fn filled_fits(self, fill: Fill) -> bool {
        match fill.direction {
            OrderDirection::Buy => self.bought_fits(fill.filled_qty, fill.cash),
            OrderDirection::Sell => self.sold_fits(fill.filled_qty),
        }
    }

    fn average_price(&self) -> (r: Price)
        requires
            self.average_fits(),
        ensures
            r == self.average(),
    {
        if self.qty.is_zero() {
            Decimal::zero()
        } else {
            self.cost.over(self.qty)
        }
    }

    fn apply_buy(&mut self, filled_qty: Qty, cash: Money)
        requires
            old(self).bought_fits(filled_qty, cash),
        ensures
            *final(self) == old(self).bought(filled_qty, cash),
    {
        self.qty = self.qty.plus(filled_qty);
        self.cost = self.cost.plus(cash);
    }

    fn apply_sell(&mut self, qty: Qty)
        requires
            old(self).sold_fits(qty),
        ensures
            *final(self) == old(self).sold(qty),
    {
        let sell_qty = qty.min(self.qty);
        if sell_qty.is_zero() {
            return ;
        }
        let avg_before = self.average_price();
        self.qty = self.qty.minus(sell_qty);
        self.cost = self.cost.minus(avg_before.times(sell_qty));
        if self.qty.is_zero() {
            self.cost = Decimal::zero();
        }
    }
}

/// What is held of both sides.
#[derive(Debug, Clone, Copy, PartialEq, Eq, Structural)]
pub struct Ledger {
    up: SideBook,
    down: SideBook,
}

impl Ledger {
    /// What is held of a side.
    pub closed spec fn book(self, side: Side) -> SideBook {
        match side {
            Side::Up => self.up,
            Side::Down => self.down,
        }
    }

    /// The ledger that holds these books.
    pub closed spec fn holding(up: SideBook, down: SideBook) -> Ledger {
        Ledger { up, down }
    }

    /// After a fill.
    pub open spec fn filled(self, fill: Fill) -> Ledger {
        match fill.side {
            Side::Up => Ledger::holding(self.book(Side::Up).filled(fill), self.book(Side::Down)),
            Side::Down => Ledger::holding(self.book(Side::Up), self.book(Side::Down).filled(fill)),
        }
    }

    /// An empty ledger.
    pub fn new() -> (r: Self)
        ensures
            r == Ledger::holding(SideBook::empty(), SideBook::empty()),
    {
        let empty = SideBook { qty: Decimal::zero(), cost: Decimal::zero() };
        Self { up: empty, down: empty }
    }

    /// Books a fill.
    pub fn apply_fill(&mut self, fill: &Fill)
        requires
            old(self).book(fill.side).filled_fits(*fill),
        ensures
            *final(self) == old(self).filled(*fill),
    {
        let mut book = match fill.side {
            Side::Up => self.up,
            Side::Down => self.down,
        };
        match fill.direction {
            OrderDirection::Buy => book.apply_buy(fill.filled_qty, fill.cash),
            OrderDirection::Sell => book.apply_sell(fill.filled_qty),
        }
        match fill.side {
            Side::Up => {
                self.up = book;
            },
            Side::Down => {
                self.down = book;
            },
        }
    }

    /// The shares held of a side.
    pub fn qty(&self, side: Side) -> (r: Qty)
        ensures
            r == self.book(side).qty,
    {
        match side {
            Side::Up => self.up.qty,
            Side::Down => self.down.qty,
        }
    }

    /// The average price of a side, 0 where nothing is held.
    pub fn average_price(&self, side: Side) -> (r: Price)
        requires
            self.book(side).average_fits(),
        ensures
            r == self.book(side).average(),
    {
        match side {
            Side::Up => self.up.average_price(),
            Side::Down => self.down.average_price(),
        }
    }

    /// What the shares of a side cost.
    pub fn cost(&self, side: Side) -> (r: Money)
        ensures
            r == self.book(side).cost,
    {
        match side {
            Side::Up => self.up.cost,
            Side::Down => self.down.cost,
        }
    }

    /// What both sides cost.
    pub fn total_cost(&self) -> (r: Money)
        requires
            self.book(Side::Up).cost.add_fits(self.book(Side::Down).cost),
        ensures
            r == self.book(Side::Up).cost + self.book(Side::Down).cost,
    {
        self.up.cost.plus(self.down.cost)
    }

    /// The position.
    pub fn snapshot(&self) -> (r: PositionSnapshot)
        ensures
            r == (PositionSnapshot {
                up_qty: self.book(Side::Up).qty,
                down_qty: self.book(Side::Down).qty,
                up_cost: self.book(Side::Up).cost,
                down_cost: self.book(Side::Down).cost,
            }),
    {
        PositionSnapshot {
            up_qty: self.up.qty,
            down_qty: self.down.qty,
            up_cost: self.up.cost,
            down_cost: self.down.cost,
        }
    }
}

impl Default for Ledger {
    fn default() -> (r: Self)
        ensures
            r == Ledger::holding(SideBook::empty(), SideBook::empty()),
    {
        Self::new()
    }
}

/// A ledger is the two books that it holds.
pub proof fn ledger_is_its_books(up: SideBook, down: SideBook, ledger: Ledger)
    ensures
        Ledger::holding(up, down).book(Side::Up) == up,
        Ledger::holding(up, down).book(Side::Down) == down,
        Ledger::holding(ledger.book(Side::Up), ledger.book(Side::Down)) == ledger,
{
}

} // verus!
