//! Sums and searches over resting orders.

use crate::decimal::{dec, Decimal};
use crate::domain::types::{Money, Price, Qty, Side};
use crate::hedging::context::ActiveOrder;
use vstd::prelude::*;

verus! {

/// Whether an order belongs to a side and, where one is given, rests at a price.
pub open spec fn counts(order: ActiveOrder, side: Side, price: Option<Price>) -> bool {
    order.side == side && (price matches Some(p) ==> order.price == p)
}

/// The shares of the orders of a side (at a price), added up in order.
pub open spec fn qty_of(orders: Seq<ActiveOrder>, side: Side, price: Option<Price>) -> Qty
    decreases orders.len(),
{
    if orders.len() == 0 {
        dec(0, 0)
    } else {
        let before = qty_of(orders.drop_last(), side, price);
        if counts(orders.last(), side, price) {
            before + orders.last().qty
        } else {
            before
        }
    }
}

/// Whether the shares can be added up.
pub open spec fn qty_of_fits(orders: Seq<ActiveOrder>, side: Side, price: Option<Price>) -> bool
    decreases orders.len(),
{
    orders.len() > 0 ==> {
        &&& qty_of_fits(orders.drop_last(), side, price)
        &&& counts(orders.last(), side, price) ==> qty_of(
            orders.drop_last(),
            side,
            price,
        ).add_fits(orders.last().qty)
    }
}

/// What the orders of a side are worth, added up in order.
pub open spec fn notional_of(orders: Seq<ActiveOrder>, side: Side) -> Money
    decreases orders.len(),
{
    if orders.len() == 0 {
        dec(0, 0)
    } else {
        let before = notional_of(orders.drop_last(), side);
        if orders.last().side == side {
            before + orders.last().price * orders.last().qty
        } else {
            before
        }
    }
}

/// Whether the worth can be added up.
pub open spec fn notional_of_fits(orders: Seq<ActiveOrder>, side: Side) -> bool
    decreases orders.len(),
{
    orders.len() > 0 ==> {
        let order = orders.last();
        &&& notional_of_fits(orders.drop_last(), side)
        &&& order.side == side ==> {
            &&& order.price.mul_fits(order.qty)
            &&& notional_of(orders.drop_last(), side).add_fits(order.price * order.qty)
        }
    }
}

/// Whether an order of a side rests at a price.
pub open spec fn has_bid_at(orders: Seq<ActiveOrder>, side: Side, price: Price) -> bool {
    exists|i: int| 0 <= i < orders.len() && counts(#[trigger] orders[i], side, Some(price))
}

/// The lowest price among the orders of a side.
pub open spec fn lowest_price(orders: Seq<ActiveOrder>, side: Side) -> Option<Price>
    decreases orders.len(),
{
    if orders.len() == 0 {
        None
    } else {
        let before = lowest_price(orders.drop_last(), side);
        let order = orders.last();
        if order.side == side {
            match before {
                Some(price) => Some(price.smaller(order.price)),
                None => Some(order.price),
            }
        } else {
            before
        }
    }
}

/// The price of the first order of a side.
pub open spec fn first_price(orders: Seq<ActiveOrder>, side: Side) -> Option<Price>
    decreases orders.len(),
{
    if orders.len() == 0 {
        None
    } else {
        match first_price(orders.drop_last(), side) {
            Some(price) => Some(price),
            None => if orders.last().side == side {
                Some(orders.last().price)
            } else {
                None
            },
        }
    }
}

/// Adds up the shares of the orders of a side (at a price).
pub fn tally_qty(orders: &[ActiveOrder], side: Side, price: Option<Price>) -> (r: Qty)
    requires
        qty_of_fits(orders@, side, price),
    ensures
        r == qty_of(orders@, side, price),
{
    let mut sum = Decimal::zero();
    let mut i: usize = 0;
    proof {
        assert(orders@.take(0) =~= Seq::<ActiveOrder>::empty());
    }
    while i < orders.len()
        invariant
            i <= orders@.len(),
            qty_of_fits(orders@, side, price),
            sum == qty_of(orders@.take(i as int), side, price),
        decreases orders@.len() - i,
    {
        proof {
            lemma_qty_fits_prefix(orders@, side, price, i as int + 1);
            assert(orders@.take(i as int + 1).drop_last() =~= orders@.take(i as int));
        }
        let order = orders[i];
        let at_price = match price {
            Some(p) => order.price == p,
            None => true,
        };
        if order.side == side && at_price {
            sum = sum.plus(order.qty);
        }
        i += 1;
    }
    proof {
        assert(orders@.take(orders@.len() as int) =~= orders@);
    }
    sum
}

/// Adds up what the orders of a side are worth.
pub fn tally_notional(orders: &[ActiveOrder], side: Side) -> (r: Money)
    requires
        notional_of_fits(orders@, side),
    ensures
        r == notional_of(orders@, side),
{
    let mut sum = Decimal::zero();
    let mut i: usize = 0;
    proof {
        assert(orders@.take(0) =~= Seq::<ActiveOrder>::empty());
    }
    while i < orders.len()
        invariant
            i <= orders@.len(),
            notional_of_fits(orders@, side),
            sum == notional_of(orders@.take(i as int), side),
        decreases orders@.len() - i,
    {
        proof {
            lemma_notional_fits_prefix(orders@, side, i as int + 1);
            assert(orders@.take(i as int + 1).drop_last() =~= orders@.take(i as int));
        }
        let order = orders[i];
        if order.side == side {
            sum = sum.plus(order.price.times(order.qty));
        }
        i += 1;
    }
    proof {
        assert(orders@.take(orders@.len() as int) =~= orders@);
    }
    sum
}

/// Tells whether an order of a side rests at a price.
pub fn order_at(orders: &[ActiveOrder], side: Side, price: Price) -> (r: bool)
    ensures
        r == has_bid_at(orders@, side, price),
{
    let mut i: usize = 0;
    while i < orders.len()
        invariant
            i <= orders@.len(),
            forall|k: int| 0 <= k < i ==> !counts(#[trigger] orders@[k], side, Some(price)),
        decreases orders@.len() - i,
    {
        if orders[i].side == side && orders[i].price == price {
            assert(counts(orders@[i as int], side, Some(price)));
            return true;
        }
        i += 1;
    }
    false
}

/// Finds the lowest price among the orders of a side.
pub fn find_lowest_price(orders: &[ActiveOrder], side: Side) -> (r: Option<Price>)
    ensures
        r == lowest_price(orders@, side),
{
    let mut lowest: Option<Price> = None;
    let mut i: usize = 0;
    proof {
        assert(orders@.take(0) =~= Seq::<ActiveOrder>::empty());
    }
    while i < orders.len()
        invariant
            i <= orders@.len(),
            lowest == lowest_price(orders@.take(i as int), side),
        decreases orders@.len() - i,
    {
        proof {
            assert(orders@.take(i as int + 1).drop_last() =~= orders@.take(i as int));
        }
        let order = orders[i];
        if order.side == side {
            lowest = match lowest {
                Some(price) => Some(price.min(order.price)),
                None => Some(order.price),
            };
        }
        i += 1;
    }
    proof {
        assert(orders@.take(orders@.len() as int) =~= orders@);
    }
    lowest
}

/// Finds the price of the first order of a side.
pub fn find_first_price(orders: &[ActiveOrder], side: Side) -> (r: Option<Price>)
    ensures
        r == first_price(orders@, side),
{
    let mut first: Option<Price> = None;
    let mut i: usize = 0;
    proof {
        assert(orders@.take(0) =~= Seq::<ActiveOrder>::empty());
    }
    while i < orders.len()
        invariant
            i <= orders@.len(),
            first == first_price(orders@.take(i as int), side),
        decreases orders@.len() - i,
    {
        proof {
            assert(orders@.take(i as int + 1).drop_last() =~= orders@.take(i as int));
        }
        if first.is_none() && orders[i].side == side {
            first = Some(orders[i].price);
        }
        i += 1;
    }
    proof {
        assert(orders@.take(orders@.len() as int) =~= orders@);
    }
    first
}

proof fn lemma_qty_fits_prefix(orders: Seq<ActiveOrder>, side: Side, price: Option<Price>, n: int)
    requires
        0 <= n <= orders.len(),
        qty_of_fits(orders, side, price),
    ensures
        qty_of_fits(orders.take(n), side, price),
    decreases orders.len(),
{
    if n < orders.len() {
        lemma_qty_fits_prefix(orders.drop_last(), side, price, n);
        assert(orders.drop_last().take(n) =~= orders.take(n));
    } else {
        assert(orders.take(n) =~= orders);
    }
}

proof fn lemma_notional_fits_prefix(orders: Seq<ActiveOrder>, side: Side, n: int)
    requires
        0 <= n <= orders.len(),
        notional_of_fits(orders, side),
    ensures
        notional_of_fits(orders.take(n), side),
    decreases orders.len(),
{
    if n < orders.len() {
        lemma_notional_fits_prefix(orders.drop_last(), side, n);
        assert(orders.drop_last().take(n) =~= orders.take(n));
    } else {
        assert(orders.take(n) =~= orders);
    }
}

} // verus!
