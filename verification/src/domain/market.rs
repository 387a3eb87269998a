//! The top of the book on each side, and the mark price.

use crate::decimal::laws::{half_fits, rounding_is_valid, whole_value};
use crate::decimal::{dec, Decimal};
use crate::domain::types::{Price, Side};
use vstd::prelude::*;

verus! {

/// The top of one side's book. Any of it can be missing.
#[derive(Debug, Clone, Copy, PartialEq, Eq, Structural)]
pub struct BookTop {
    /// The highest bid.
    pub best_bid: Option<Price>,
    /// The lowest ask.
    pub best_ask: Option<Price>,
    /// The price of the latest trade.
    pub last_trade: Option<Price>,
}

impl BookTop {
    /// The middle of bid and ask, unrounded; the latest trade where one is missing.
    pub open spec fn mark(self) -> Option<Price> {
        match (self.best_bid, self.best_ask) {
            (Some(bid), Some(ask)) => Some((bid + ask) / dec(2, 0)),
            _ => self.last_trade,
        }
    }

    /// Whether the mark price can be computed.
    pub open spec fn mark_fits(self) -> bool {
        match (self.best_bid, self.best_ask) {
            (Some(bid), Some(ask)) => bid.add_fits(ask),
            _ => true,
        }
    }

    /// The mark price.
    pub fn mark_price(&self) -> (r: Option<Price>)
        requires
            self.mark_fits(),
        ensures
            r == self.mark(),
    {
        match (self.best_bid, self.best_ask) {
            (Some(bid), Some(ask)) => {
                let sum = bid.plus(ask);
                proof {
                    whole_value(2);
                    rounding_is_valid(bid@ + ask@);
                    half_fits(sum);
                }
                Some(sum.over(Decimal::new(2, 0)))
            },
            _ => self.last_trade,
        }
    }
}

impl Default for BookTop {
    /// An empty book.
    fn default() -> (r: Self)
        ensures
            r == (BookTop { best_bid: None, best_ask: None, last_trade: None }),
    {
        Self { best_bid: None, best_ask: None, last_trade: None }
    }
}

/// The tops of both books at one moment.
#[derive(Debug, Clone, Copy, PartialEq, Eq, Structural)]
pub struct MarketSnapshot {
    pub up: BookTop,
    pub down: BookTop,
}

impl MarketSnapshot {
    /// The book of a side.
    pub open spec fn at(self, side: Side) -> BookTop {
        match side {
            Side::Up => self.up,
            Side::Down => self.down,
        }
    }

    /// The book of a side.
    pub fn book(&self, side: Side) -> (r: &BookTop)
        ensures
            *r == self.at(side),
    {
        match side {
            Side::Up => &self.up,
            Side::Down => &self.down,
        }
    }

    /// The mark price of a side.
    pub fn mark_price(&self, side: Side) -> (r: Option<Price>)
        requires
            self.at(side).mark_fits(),
        ensures
            r == self.at(side).mark(),
    {
        self.book(side).mark_price()
    }
}

impl Default for MarketSnapshot {
    /// Two empty books.
    fn default() -> (r: Self)
        ensures
            r.up == (BookTop { best_bid: None, best_ask: None, last_trade: None }),
            r.down == r.up,
    {
        Self { up: BookTop::default(), down: BookTop::default() }
    }
}

/// Each side has its own book.
pub proof fn sides_have_their_own_book(market: MarketSnapshot)
    ensures
        market.at(Side::Up) == market.up,
        market.at(Side::Down) == market.down,
{
}

} // verus!
