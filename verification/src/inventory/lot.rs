//! One purchase that is still held.

use crate::domain::types::{Money, Price, Qty};
use crate::exchange::clock::Millis;
use vstd::prelude::*;

verus! {

/// A lot's identifier. A sell order carries the identifier of the lot it closes.
#[derive(Debug, Clone, Copy, PartialEq, Eq, PartialOrd, Ord, Hash, Structural)]
pub struct LotId(pub u64);

/// A purchase that has not been sold yet.
#[derive(Debug, Clone, Copy, PartialEq, Eq, Structural)]
pub struct Lot {
    pub lot_id: LotId,
    /// What a share really cost: cash paid over shares received.
    pub buy_price: Price,
    /// The shares that are still held.
    pub qty: Qty,
    /// When it was bought.
    pub opened_at: Millis,
}

impl Lot {
    /// What the shares that are still held cost.
    pub open spec fn basis(self) -> Money {
        self.buy_price * self.qty
    }

    /// Whether the cost can be computed.
    pub open spec fn basis_fits(self) -> bool {
        self.buy_price.mul_fits(self.qty)
    }

    /// What the shares that are still held cost.
    pub fn cost(&self) -> (r: Price)
        requires
            self.basis_fits(),
        ensures
            r == self.basis(),
    {
        self.buy_price.times(self.qty)
    }
}

} // verus!
