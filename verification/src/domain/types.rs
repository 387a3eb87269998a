//! Basic number types and the two sides of the market.

use crate::decimal::Decimal;
use vstd::prelude::*;

verus! {

/// A price in dollars, roughly between 0 and 1.
pub type Price = Decimal;

/// A number of shares.
pub type Qty = Decimal;

/// An amount in dollars: cost, profit, funds.
pub type Money = Decimal;

/// The two outcomes of the market. Exactly one wins at settlement, and then pays
/// one dollar per share.
#[derive(Debug, Clone, Copy, PartialEq, Eq, Hash, Structural)]
pub enum Side {
    Up,
    Down,
}

impl Side {
    /// The other side.
    pub open spec fn other(self) -> Side {
        match self {
            Side::Up => Side::Down,
            Side::Down => Side::Up,
        }
    }

    /// Returns the other side.
    pub fn opposite(self) -> (r: Self)
        ensures
            r == self.other(),
            r != self,
    {
        match self {
            Side::Up => Side::Down,
            Side::Down => Side::Up,
        }
    }
}

/// Going to the other side twice comes back.
pub proof fn opposite_is_an_involution(side: Side)
    ensures
        side.other().other() == side,
        side.other() != side,
{
}

/// How an order is matched, which decides the fee: a maker rests in the book, a
/// taker trades against it.
#[derive(Debug, Clone, Copy, PartialEq, Eq, Structural)]
pub enum OrderRole {
    Maker,
    Taker,
}

} // verus!
