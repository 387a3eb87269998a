//! Fees: taken from the shares that arrive, not from the cash.

use crate::decimal::laws::{
    rounding_is_exact, rounding_is_valid, rounding_stays_below, whole_value,
};
use crate::decimal::{dec, Decimal};
use crate::domain::types::{OrderRole, Qty};
use vstd::prelude::*;

verus! {

/// The fee rates of makers and takers.
#[derive(Debug, Clone, Copy, PartialEq, Eq, Structural)]
pub struct FeeModel {
    pub maker_fee_rate: Decimal,
    /// For instance 0.04 for four percent.
    pub taker_fee_rate: Decimal,
}

impl FeeModel {
    /// The rate for a role.
    pub open spec fn rate(self, role: OrderRole) -> Decimal {
        match role {
            OrderRole::Maker => self.maker_fee_rate,
            OrderRole::Taker => self.taker_fee_rate,
        }
    }

    /// The shares that are left of `gross` after the fee: `gross * (1 - rate)`.
    pub open spec fn net(self, role: OrderRole, gross: Qty) -> Qty {
        gross * (dec(1, 0) - self.rate(role))
    }

    /// Whether `net` can be computed.
    pub open spec fn net_fits(self, role: OrderRole, gross: Qty) -> bool {
        &&& dec(1, 0).sub_fits(self.rate(role))
        &&& gross.mul_fits(dec(1, 0) - self.rate(role))
    }

    /// No fee for anyone.
    pub fn zero() -> (r: Self)
        ensures
            r == (FeeModel { maker_fee_rate: dec(0, 0), taker_fee_rate: dec(0, 0) }),
    {
        Self { maker_fee_rate: Decimal::zero(), taker_fee_rate: Decimal::zero() }
    }

    /// The rate for a role.
    pub fn rate_for(&self, role: OrderRole) -> (r: Decimal)
        ensures
            r == self.rate(role),
    {
        match role {
            OrderRole::Maker => self.maker_fee_rate,
            OrderRole::Taker => self.taker_fee_rate,
        }
    }

    /// The shares that arrive when `gross_qty` were traded.
    pub fn net_qty(&self, role: OrderRole, gross_qty: Qty) -> (r: Qty)
        requires
            self.net_fits(role, gross_qty),
        ensures
            r == self.net(role, gross_qty),
    {
        gross_qty.times(Decimal::one().minus(self.rate_for(role)))
    }
}

impl Default for FeeModel {
    /// Takers pay four percent, makers nothing.
    fn default() -> (r: Self)
        ensures
            r == (FeeModel { maker_fee_rate: dec(0, 0), taker_fee_rate: dec(4, 2) }),
    {
        Self { maker_fee_rate: Decimal::zero(), taker_fee_rate: Decimal::new(4, 2) }
    }
}

/// A fee between nothing and everything never adds shares and never takes more than
/// there are; without a fee all shares arrive.
pub proof fn fees_never_add_shares(model: FeeModel, role: OrderRole, gross: Qty)
    requires
        gross.wf(),
        gross@ >= 0real,
        model.rate(role).wf(),
        0real <= model.rate(role)@ <= 1real,
        model.net_fits(role, gross),
    ensures
        0real <= model.net(role, gross)@ <= gross@,
        model.rate(role)@ == 0real ==> model.net(role, gross) == gross,
{
    whole_value(1);
    let one = dec(1, 0);
    let rate = model.rate(role);
    let left = one - rate;
    rounding_is_valid(one@ - rate@);
    rounding_stays_below(one@ - rate@, one);
    let g = gross@;
    let l = left@;
    assert(0real <= g * l <= g) by (nonlinear_arith)
        requires
            g >= 0real,
            0real <= l <= 1real,
    ;
    rounding_is_valid(g * l);
    rounding_stays_below(g * l, gross);
    if rate@ == 0real {
        rounding_is_exact(one);
        assert(l == 1real);
        assert(g * 1real == g) by (nonlinear_arith);
        rounding_is_exact(gross);
    }
}

/// Each role pays its own rate, and what is left of some shares is the rest of them.
pub proof fn roles_pay_their_own_rate(model: FeeModel, gross: Qty)
    ensures
        model.rate(OrderRole::Maker) == model.maker_fee_rate,
        model.rate(OrderRole::Taker) == model.taker_fee_rate,
        model.net(OrderRole::Maker, gross) == gross * (dec(1, 0) - model.maker_fee_rate),
        model.net(OrderRole::Taker, gross) == gross * (dec(1, 0) - model.taker_fee_rate),
{
}

} // verus!
