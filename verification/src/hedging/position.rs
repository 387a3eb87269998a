//! What the hedging strategies ask of a position.

use crate::decimal::laws::zero_value;
use crate::decimal::{dec, Decimal};
use crate::domain::pnl::PositionSnapshot;
use crate::domain::types::{Money, Price, Side};
use vstd::prelude::*;

verus! {

impl PositionSnapshot {
    /// Whether both settlements can be computed.
    pub open spec fn both_settled_fits(self) -> bool {
        self.settled_fits(Side::Up) && self.settled_fits(Side::Down)
    }

    /// The side at whose victory less is made.
    pub open spec fn weaker(self) -> Option<Side> {
        if self.settled(Side::Up)@ < self.settled(Side::Down)@ {
            Some(Side::Up)
        } else if self.settled(Side::Down)@ < self.settled(Side::Up)@ {
            Some(Side::Down)
        } else {
            None
        }
    }

    /// What selling a side at `bid` would make, where any of it is held.
    pub open spec fn floating(self, side: Side, bid: Price) -> Option<Money> {
        if self.shares(side)@ > 0real {
            Some(self.shares(side) * bid - self.spent(side))
        } else {
            None
        }
    }

    /// Whether that can be computed.
    pub open spec fn floating_fits(self, side: Side, bid: Price) -> bool {
        self.shares(side)@ > 0real ==> {
            &&& self.shares(side).mul_fits(bid)
            &&& (self.shares(side) * bid).sub_fits(self.spent(side))
        }
    }

    /// By how many shares a side leads.
    pub open spec fn lead(self, side: Side) -> Decimal {
        (self.shares(side) - self.shares(side.other())).larger(dec(0, 0))
    }

    /// What the shares cost by which a side leads, at its average.
    pub open spec fn unpaired(self, side: Side) -> Money {
        match self.average(side) {
            Some(price) => self.lead(side) * price,
            None => dec(0, 0),
        }
    }

    /// Whether that can be computed.
    pub open spec fn unpaired_fits(self, side: Side) -> bool {
        &&& self.average_fits(side)
        &&& self.average(side) matches Some(price) ==> {
            &&& self.shares(side).sub_fits(self.shares(side.other()))
            &&& self.lead(side).mul_fits(price)
        }
    }

    /// Whether a loss is made whoever wins.
    pub open spec fn loses_either_way(self) -> bool {
        self.settled(Side::Up)@ < 0real && self.settled(Side::Down)@ < 0real
    }

    /// What is made on average if `Up` wins with probability `up_prob`.
    pub open spec fn expected(self, up_prob: Price) -> Money {
        up_prob * self.settled(Side::Up) + (dec(1, 0) - up_prob) * self.settled(Side::Down)
    }

    /// Whether that can be computed.
    pub open spec fn expected_fits(self, up_prob: Price) -> bool {
        &&& self.both_settled_fits()
        &&& up_prob.mul_fits(self.settled(Side::Up))
        &&& dec(1, 0).sub_fits(up_prob)
        &&& (dec(1, 0) - up_prob).mul_fits(self.settled(Side::Down))
        &&& (up_prob * self.settled(Side::Up)).add_fits(
            (dec(1, 0) - up_prob) * self.settled(Side::Down),
        )
    }

    /// Tells the side at whose victory less is made, if there is one.
    pub fn weaker_side(&self) -> (r: Option<Side>)
        requires
            self.both_settled_fits(),
        ensures
            r == self.weaker(),
    {
        let up = self.settle_pnl(Side::Up);
        let down = self.settle_pnl(Side::Down);
        if up.lt(down) {
            Some(Side::Up)
        } else if down.lt(up) {
            Some(Side::Down)
        } else {
            None
        }
    }

    /// Tells what selling a side at `bid` would make, where any of it is held.
    pub fn float_pnl(&self, side: Side, bid: Price) -> (r: Option<Money>)
        requires
            self.floating_fits(side, bid),
        ensures
            r == self.floating(side, bid),
    {
        proof {
            zero_value();
        }
        let qty = self.qty(side);
        if qty.gt(Decimal::zero()) {
            Some(qty.times(bid).minus(self.cost(side)))
        } else {
            None
        }
    }

    /// Tells what the shares cost by which a side leads.
    pub fn unpaired_cost(&self, side: Side) -> (r: Money)
        requires
            self.unpaired_fits(side),
        ensures
            r == self.unpaired(side),
    {
        match self.average_price(side) {
            Some(price) => {
                let lead = self.qty(side).minus(self.qty(side.opposite())).max(Decimal::zero());
                lead.times(price)
            },
            None => Decimal::zero(),
        }
    }

    /// Tells whether a loss is made whoever wins.
    pub fn both_sides_settle_negative(&self) -> (r: bool)
        requires
            self.both_settled_fits(),
        ensures
            r == self.loses_either_way(),
    {
        proof {
            zero_value();
        }
        self.settle_pnl(Side::Up).lt(Decimal::zero()) && self.settle_pnl(Side::Down).lt(
            Decimal::zero(),
        )
    }

    /// Tells what is made on average if `Up` wins with probability `up_prob`.
    pub fn expected_value(&self, up_prob: Price) -> (r: Money)
        requires
            self.expected_fits(up_prob),
        ensures
            r == self.expected(up_prob),
    {
        let up = up_prob.times(self.settle_pnl(Side::Up));
        let down = Decimal::one().minus(up_prob).times(self.settle_pnl(Side::Down));
        up.plus(down)
    }
}

} // verus!
