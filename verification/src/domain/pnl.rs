//! What a position is worth: its averages and its profit at settlement.

use crate::decimal::laws::{
    numbers_are_apart, rounding_is_valid, rounding_keeps_ones, rounding_keeps_units,
    roundings_reach_one,
};
use crate::decimal::{dec, Decimal};
use crate::domain::types::{Money, Price, Qty, Side};
use vstd::prelude::*;

verus! {

/// The net position of both sides at one moment.
#[derive(Debug, Clone, Copy, PartialEq, Eq, Structural)]
pub struct PositionSnapshot {
    pub up_qty: Qty,
    pub down_qty: Qty,
    pub up_cost: Money,
    pub down_cost: Money,
}

impl PositionSnapshot {
    /// The shares held of a side.
    pub open spec fn shares(self, side: Side) -> Qty {
        match side {
            Side::Up => self.up_qty,
            Side::Down => self.down_qty,
        }
    }

    /// What the shares of a side cost.
    pub open spec fn spent(self, side: Side) -> Money {
        match side {
            Side::Up => self.up_cost,
            Side::Down => self.down_cost,
        }
    }

    /// What both sides cost.
    pub open spec fn total(self) -> Money {
        self.up_cost + self.down_cost
    }

    /// The average price of a side's shares, where any are held.
    pub open spec fn average(self, side: Side) -> Option<Price> {
        if self.shares(side)@ > 0real {
            Some(self.spent(side) / self.shares(side))
        } else {
            None
        }
    }

    /// Whether the average of a side can be computed.
    pub open spec fn average_fits(self, side: Side) -> bool {
        self.shares(side)@ > 0real ==> self.spent(side).div_fits(self.shares(side))
    }

    /// The average of a side, 0 where nothing is held.
    pub open spec fn average_or_zero(self, side: Side) -> Price {
        match self.average(side) {
            Some(price) => price,
            None => dec(0, 0),
        }
    }

    /// The sum of the two averages.
    pub open spec fn averages_sum(self) -> Price {
        self.average_or_zero(Side::Up) + self.average_or_zero(Side::Down)
    }

    /// Whether the sum of the averages can be computed.
    pub open spec fn averages_sum_fits(self) -> bool {
        &&& self.average_fits(Side::Up)
        &&& self.average_fits(Side::Down)
        &&& self.average_or_zero(Side::Up).add_fits(self.average_or_zero(Side::Down))
    }

    /// The profit of the position if `winner` wins: a dollar per winning share, less
    /// all that was spent.
    pub open spec fn settled(self, winner: Side) -> Money {
        self.shares(winner) - self.total()
    }

    /// Whether the profit at settlement can be computed.
    pub open spec fn settled_fits(self, winner: Side) -> bool {
        &&& self.up_cost.add_fits(self.down_cost)
        &&& self.shares(winner).sub_fits(self.total())
    }

    /// The shares held of a side.
    pub fn qty(&self, side: Side) -> (r: Qty)
        ensures
            r == self.shares(side),
    {
        match side {
            Side::Up => self.up_qty,
            Side::Down => self.down_qty,
        }
    }

    /// What the shares of a side cost.
    pub fn cost(&self, side: Side) -> (r: Money)
        ensures
            r == self.spent(side),
    {
        match side {
            Side::Up => self.up_cost,
            Side::Down => self.down_cost,
        }
    }

    /// What both sides cost.
    pub fn total_cost(&self) -> (r: Money)
        requires
            self.up_cost.add_fits(self.down_cost),
        ensures
            r == self.total(),
    {
        self.up_cost.plus(self.down_cost)
    }

    /// The average price of a side's shares, where any are held.
    pub fn average_price(&self, side: Side) -> (r: Option<Price>)
        requires
            self.average_fits(side),
        ensures
            r == self.average(side),
    {
        proof {
            crate::decimal::laws::zero_value();
        }
        let qty = self.qty(side);
        if qty.gt(Decimal::zero()) {
            Some(self.cost(side).over(qty))
        } else {
            None
        }
    }

    /// The sum of the two averages, a side without shares counting as 0.
    pub fn sum_avg(&self) -> (r: Price)
        requires
            self.averages_sum_fits(),
        ensures
            r == self.averages_sum(),
    {
        let up = match self.average_price(Side::Up) {
            Some(price) => price,
            None => Decimal::zero(),
        };
        let down = match self.average_price(Side::Down) {
            Some(price) => price,
            None => Decimal::zero(),
        };
        up.plus(down)
    }

    /// The profit of the position if `winner` wins.
    pub fn settle_pnl(&self, winner: Side) -> (r: Money)
        requires
            self.settled_fits(winner),
        ensures
            r == self.settled(winner),
    {
        self.qty(winner).minus(self.total_cost())
    }
}

/// With as many shares of either side, averages that add up to less than a dollar make a
/// profit whoever wins, as long as the total cost is not rounded.
pub proof fn cheap_pairs_always_win(position: PositionSnapshot, winner: Side)
    requires
        position.up_qty == position.down_qty,
        position.up_qty.wf(),
        position.up_qty@ > 0real,
        position.up_cost@ >= 0real,
        position.down_cost@ >= 0real,
        position.averages_sum_fits(),
        position.settled_fits(winner),
        position.averages_sum()@ < 1real,
        position.total()@ == position.up_cost@ + position.down_cost@,
    ensures
        position.up_cost@ + position.down_cost@ < position.up_qty@,
        position.settled(winner)@ > 0real,
{
    let q = position.up_qty@;
    let uc = position.up_cost@;
    let dc = position.down_cost@;
    let x = uc / q;
    let y = dc / q;
    assert(x * q == uc) by (nonlinear_arith)
        requires
            x == uc / q,
            q > 0real,
    ;
    assert(y * q == dc) by (nonlinear_arith)
        requires
            y == dc / q,
            q > 0real,
    ;
    assert(x >= 0real) by (nonlinear_arith)
        requires
            x * q >= 0real,
            q > 0real,
    ;
    assert(y >= 0real) by (nonlinear_arith)
        requires
            y * q >= 0real,
            q > 0real,
    ;
    let a = position.average_or_zero(Side::Up);
    let b = position.average_or_zero(Side::Down);
    if x + y >= 1real {
        roundings_reach_one(x, y);
        rounding_keeps_ones(a@ + b@);
        assert(false);
    }
    assert(x * q + y * q < q) by (nonlinear_arith)
        requires
            x + y < 1real,
            q > 0real,
    ;
    rounding_is_valid(uc + dc);
    numbers_are_apart(position.up_qty, position.total());
    rounding_keeps_units(position.shares(winner)@ - position.total()@);
}

/// A position is told by the fields of each side: its shares, what they cost, and its
/// average, cost over shares, where any are held. The winner pays a dollar per share, less
/// what both sides cost.
pub proof fn positions_are_told_by_side(position: PositionSnapshot)
    ensures
        position.shares(Side::Up) == position.up_qty,
        position.shares(Side::Down) == position.down_qty,
        position.spent(Side::Up) == position.up_cost,
        position.spent(Side::Down) == position.down_cost,
        position.average(Side::Up) == (if position.up_qty@ > 0real {
            Some(position.up_cost / position.up_qty)
        } else {
            None
        }),
        position.average(Side::Down) == (if position.down_qty@ > 0real {
            Some(position.down_cost / position.down_qty)
        } else {
            None
        }),
        position.settled(Side::Up) == position.up_qty - (position.up_cost + position.down_cost),
        position.settled(Side::Down) == position.down_qty - (position.up_cost
            + position.down_cost),
        position.up_qty@ > 0real && position.down_qty@ > 0real ==> position.averages_sum()
            == position.up_cost / position.up_qty + position.down_cost / position.down_qty,
{
}

} // verus!
