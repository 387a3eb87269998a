//! Orders, fills, and the identifiers that tell them apart.

use crate::decimal::laws::{cutting_is_idempotent, cutting_rounds_down, raising_rounds_up};
use crate::decimal::{dec, Decimal};
use crate::domain::types::{Money, OrderRole, Price, Qty, Side};
use vstd::prelude::*;

pub use crate::domain::command::Command;

verus! {

/// The batch an order belongs to. It grows by one with each round of cancelling,
/// recomputing and placing, so that reports of older batches can be told apart.
#[derive(Debug, Clone, Copy, PartialEq, Eq, PartialOrd, Ord, Hash, Structural)]
pub struct Generation(pub u64);

impl Generation {
    /// The first generation.
    pub fn new() -> (r: Self)
        ensures
            r == Generation(0),
    {
        Self(0)
    }

    /// The generation after this one.
    pub fn next(self) -> (r: Self)
        requires
            self.0 < u64::MAX,
        ensures
            r.0 == self.0 + 1,
    {
        Self(self.0 + 1)
    }
}

impl Default for Generation {
    fn default() -> (r: Self)
        ensures
            r == Generation(0),
    {
        Self::new()
    }
}

/// An order's identifier, assigned by the client before the order is sent.
#[derive(Debug, Clone, Copy, PartialEq, Eq, PartialOrd, Ord, Hash, Structural)]
pub struct OrderId(pub u64);

/// Hands out order identifiers, each larger than every one before it.
#[derive(Debug, Clone)]
pub struct OrderIdGenerator {
    next_value: u64,
}

impl OrderIdGenerator {
    /// How many identifiers have been handed out.
    pub closed spec fn issued(&self) -> nat {
        self.next_value as nat
    }

    /// Whether `n` more identifiers can be handed out.
    pub open spec fn has_room(&self, n: nat) -> bool {
        self.issued() + n <= u64::MAX
    }

    /// A generator that starts at 0.
    pub fn new() -> (r: Self)
        ensures
            r.issued() == 0,
    {
        Self { next_value: 0 }
    }

    /// Hands out the next identifier.
    pub fn next(&mut self) -> (r: OrderId)
        requires
            old(self).has_room(1),
        ensures
            r.0 == old(self).issued(),
            final(self).issued() == old(self).issued() + 1,
    {
        let id = OrderId(self.next_value);
        self.next_value += 1;
        id
    }
}

impl Default for OrderIdGenerator {
    fn default() -> (r: Self)
        ensures
            r.issued() == 0,
    {
        Self::new()
    }
}

/// Whether an order buys or sells its side.
#[derive(Debug, Clone, Copy, PartialEq, Eq, Structural)]
pub enum OrderDirection {
    Buy,
    Sell,
}

/// How long an order stays: until it is cancelled, or only for the moment in which
/// it arrives.
#[derive(Debug, Clone, Copy, PartialEq, Eq, Structural)]
pub enum TimeInForce {
    Gtc,
    Ioc,
}

/// An order.
#[derive(Debug, Clone, Copy, PartialEq, Eq, Structural)]
pub struct Order {
    pub order_id: OrderId,
    pub side: Side,
    pub direction: OrderDirection,
    /// The limit price.
    pub price: Price,
    pub qty: Qty,
    pub role: OrderRole,
    pub time_in_force: TimeInForce,
    pub generation: Generation,
}

/// A report that an order was filled.
#[derive(Debug, Clone, Copy, PartialEq, Eq, Structural)]
pub struct Fill {
    /// The order that was filled.
    pub order_id: OrderId,
    pub side: Side,
    pub direction: OrderDirection,
    pub role: OrderRole,
    /// The price at which it was filled.
    pub price: Price,
    /// The shares that actually arrive, after the fee.
    pub filled_qty: Qty,
    /// The cash that changes hands: ordered shares times price.
    pub cash: Money,
    pub generation: Generation,
}

/// The exchange's limits on a single order.
#[derive(Debug, Clone, Copy, PartialEq, Eq, Structural)]
pub struct OrderConstraints {
    /// The fewest shares in one order.
    pub min_order_size: Qty,
    /// The least notional (shares times price) of one order.
    pub min_notional: Money,
    /// The number of fractional digits in a price.
    pub price_scale: u32,
    /// The number of fractional digits in a share count.
    pub size_scale: u32,
}

/// At least 5 shares and 1 dollar, with two fractional digits each.
pub open spec fn default_constraints() -> OrderConstraints {
    OrderConstraints {
        min_order_size: dec(5, 0),
        min_notional: dec(1, 0),
        price_scale: 2,
        size_scale: 2,
    }
}

impl OrderConstraints {
    /// Whether an order of `qty` at `price` meets both minimums.
    pub open spec fn allows(self, qty: Qty, price: Price) -> bool {
        qty@ >= self.min_order_size@ && (qty * price)@ >= self.min_notional@
    }

    /// Whether `allows` can be computed: only an order of enough shares has its
    /// notional computed.
    pub open spec fn allows_fits(self, qty: Qty, price: Price) -> bool {
        qty@ >= self.min_order_size@ ==> qty.mul_fits(price)
    }

    /// Tells whether an order of `qty` at `price` meets both minimums.
    pub fn is_satisfied(&self, qty: Qty, price: Price) -> (r: bool)
        requires
            self.allows_fits(qty, price),
        ensures
            r == self.allows(qty, price),
    {
        qty.ge(self.min_order_size) && qty.times(price).ge(self.min_notional)
    }

    /// Cuts a price to the allowed digits, so that a bid is never raised.
    pub fn quantize_price(&self, price: Price) -> (r: Price)
        ensures
            r == price.cut(self.price_scale as nat),
    {
        price.round_to_zero(self.price_scale)
    }

    /// Raises a price to the allowed digits, so that an offer is never lowered.
    pub fn quantize_price_up(&self, price: Price) -> (r: Price)
        ensures
            r == price.raised(self.price_scale as nat),
    {
        price.round_away_from_zero(self.price_scale)
    }

    /// Cuts a share count to the allowed digits, so that it never exceeds its budget.
    pub fn quantize_qty(&self, qty: Qty) -> (r: Qty)
        ensures
            r == qty.cut(self.size_scale as nat),
    {
        qty.round_to_zero(self.size_scale)
    }
}

impl Default for OrderConstraints {
    fn default() -> (r: Self)
        ensures
            r == default_constraints(),
    {
        Self {
            min_order_size: Decimal::new(5, 0),
            min_notional: Decimal::new(1, 0),
            price_scale: 2,
            size_scale: 2,
        }
    }
}

/// The price of a bid is never raised and the price of an offer never lowered.
pub proof fn quantizing_is_never_to_our_cost(constraints: OrderConstraints, price: Price)
    requires
        price.wf(),
        price@ >= 0real,
    ensures
        price.cut(constraints.price_scale as nat)@ <= price@,
        price.raised(constraints.price_scale as nat)@ >= price@,
{
    cutting_rounds_down(price, constraints.price_scale as nat);
    raising_rounds_up(price, constraints.price_scale as nat);
}

/// A share count never exceeds the one wished for, and one that has the exchange's digits
/// stays as it is.
pub proof fn quantizing_never_exceeds_the_budget(constraints: OrderConstraints, qty: Qty)
    requires
        qty.wf(),
        qty@ >= 0real,
    ensures
        0real <= qty.cut(constraints.size_scale as nat)@ <= qty@,
        qty.cut(constraints.size_scale as nat).cut(constraints.size_scale as nat) == qty.cut(
            constraints.size_scale as nat,
        ),
{
    cutting_rounds_down(qty, constraints.size_scale as nat);
    cutting_is_idempotent(qty, constraints.size_scale as nat);
}

/// An order is allowed if and only if it has the fewest shares and the least worth that the
/// exchange takes.
pub proof fn small_orders_are_not_allowed(constraints: OrderConstraints, qty: Qty, price: Price)
    ensures
        constraints.allows(qty, price) <==> constraints.min_order_size@ <= qty@
            && constraints.min_notional@ <= (qty * price)@,
{
}

} // verus!
