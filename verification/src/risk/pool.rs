//! The capital, split into four pools. A pool is a limit, not a balance.

use crate::decimal::laws::{written_longer, written_sum};
use crate::decimal::model::pow10;
use crate::decimal::{dec, Decimal};
use crate::domain::types::Money;
use vstd::prelude::*;

verus! {

/// The shares of the four pools. They add up to 1.
#[derive(Debug, Clone, Copy, PartialEq, Eq, Structural)]
pub struct PoolRatios {
    /// Never touched.
    pub reserve: Decimal,
    /// For building and pairing.
    pub grid_maker: Decimal,
    /// For the dynamic hedge.
    pub dynamic: Decimal,
    /// For the expected-value hedge.
    pub ev: Decimal,
}

/// The default shares: 25, 15, 22.5 and 37.5 percent.
pub open spec fn default_ratios() -> PoolRatios {
    PoolRatios {
        reserve: dec(25, 2),
        grid_maker: dec(15, 2),
        dynamic: dec(225, 3),
        ev: dec(375, 3),
    }
}

impl PoolRatios {
    /// The sum of the shares.
    pub open spec fn total(self) -> Decimal {
        self.reserve + self.grid_maker + self.dynamic + self.ev
    }

    /// Whether the sum can be computed.
    pub open spec fn total_fits(self) -> bool {
        &&& self.reserve.add_fits(self.grid_maker)
        &&& (self.reserve + self.grid_maker).add_fits(self.dynamic)
        &&& (self.reserve + self.grid_maker + self.dynamic).add_fits(self.ev)
    }

    /// The sum of the shares.
    pub fn sum(&self) -> (r: Decimal)
        requires
            self.total_fits(),
        ensures
            r == self.total(),
    {
        self.reserve.plus(self.grid_maker).plus(self.dynamic).plus(self.ev)
    }
}

impl Default for PoolRatios {
    fn default() -> (r: Self)
        ensures
            r == default_ratios(),
    {
        Self {
            reserve: Decimal::new(25, 2),
            grid_maker: Decimal::new(15, 2),
            dynamic: Decimal::new(225, 3),
            ev: Decimal::new(375, 3),
        }
    }
}

/// The four pools in money.
#[derive(Debug, Clone, Copy, PartialEq, Eq, Structural)]
pub struct CapitalPools {
    total_capital: Money,
    ratios: PoolRatios,
    reserve: Money,
    grid_maker: Money,
    dynamic: Money,
    ev: Money,
}

/// Whether a capital can be split.
pub open spec fn split_fits(capital: Money, ratios: PoolRatios) -> bool {
    &&& capital.mul_fits(ratios.reserve)
    &&& capital.mul_fits(ratios.grid_maker)
    &&& capital.mul_fits(ratios.dynamic)
    &&& capital.mul_fits(ratios.ev)
}

impl CapitalPools {
    /// The capital that was split.
    pub closed spec fn capital(self) -> Money {
        self.total_capital
    }

    /// How it was split.
    pub closed spec fn shares(self) -> PoolRatios {
        self.ratios
    }

    /// Whether each pool is its share of the capital.
    #[verifier::type_invariant]
    pub closed spec fn is_split(self) -> bool {
        &&& self.reserve == self.total_capital * self.ratios.reserve
        &&& self.grid_maker == self.total_capital * self.ratios.grid_maker
        &&& self.dynamic == self.total_capital * self.ratios.dynamic
        &&& self.ev == self.total_capital * self.ratios.ev
    }

    /// The most that one side may be exposed: half of the dynamic pool.
    pub open spec fn exposure_limit(self) -> Money {
        self.capital() * self.shares().dynamic * dec(5, 1)
    }

    /// Whether the exposure limit can be computed.
    pub open spec fn exposure_limit_fits(self) -> bool {
        (self.capital() * self.shares().dynamic).mul_fits(dec(5, 1))
    }

    /// Splits the capital by shares that add up to 1.
    pub fn new(total_capital: Money, ratios: PoolRatios) -> (r: Self)
        requires
            ratios.total_fits(),
            ratios.total() == dec(1, 0),
            split_fits(total_capital, ratios),
        ensures
            r.capital() == total_capital,
            r.shares() == ratios,
    {
        Self {
            total_capital,
            ratios,
            reserve: total_capital.times(ratios.reserve),
            grid_maker: total_capital.times(ratios.grid_maker),
            dynamic: total_capital.times(ratios.dynamic),
            ev: total_capital.times(ratios.ev),
        }
    }

    /// Splits the capital by the default shares.
    pub fn with_default_ratios(total_capital: Money) -> (r: Self)
        requires
            split_fits(total_capital, default_ratios()),
        ensures
            r.capital() == total_capital,
            r.shares() == default_ratios(),
    {
        proof {
            default_ratios_add_up();
        }
        Self::new(total_capital, PoolRatios::default())
    }

    /// The capital that was split.
    pub fn total_capital(&self) -> (r: Money)
        ensures
            r == self.capital(),
    {
        self.total_capital
    }

    /// How it was split.
    pub fn ratios(&self) -> (r: &PoolRatios)
        ensures
            *r == self.shares(),
    {
        &self.ratios
    }

    /// The pool that is never touched.
    pub fn reserve(&self) -> (r: Money)
        ensures
            r == self.capital() * self.shares().reserve,
    {
        proof {
            use_type_invariant(self);
        }
        self.reserve
    }

    /// The pool for building and pairing.
    pub fn grid_maker(&self) -> (r: Money)
        ensures
            r == self.capital() * self.shares().grid_maker,
    {
        proof {
            use_type_invariant(self);
        }
        self.grid_maker
    }

    /// The pool for the dynamic hedge.
    pub fn dynamic(&self) -> (r: Money)
        ensures
            r == self.capital() * self.shares().dynamic,
    {
        proof {
            use_type_invariant(self);
        }
        self.dynamic
    }

    /// The pool for the expected-value hedge.
    pub fn ev(&self) -> (r: Money)
        ensures
            r == self.capital() * self.shares().ev,
    {
        proof {
            use_type_invariant(self);
        }
        self.ev
    }

    /// The most that one side may be exposed.
    pub fn max_exposure(&self) -> (r: Money)
        requires
            self.exposure_limit_fits(),
        ensures
            r == self.exposure_limit(),
    {
        self.dynamic().times(Decimal::new(5, 1))
    }
}

/// The default shares add up to 1.
pub proof fn default_ratios_add_up()
    ensures
        default_ratios().total_fits(),
        default_ratios().total() == dec(1, 0),
{
    reveal_with_fuel(pow10, 5);
    written_longer(25, 2, 1);
    written_longer(15, 2, 1);
    written_sum(250, 150, 3);
    written_sum(400, 225, 3);
    written_sum(625, 375, 3);
    written_longer(1, 0, 3);
}

/// The pools add up to the capital, as long as nothing is rounded.
pub proof fn pools_add_up(capital: Money, ratios: PoolRatios)
    requires
        ratios.reserve@ + ratios.grid_maker@ + ratios.dynamic@ + ratios.ev@ == 1real,
        (capital * ratios.reserve)@ == capital@ * ratios.reserve@,
        (capital * ratios.grid_maker)@ == capital@ * ratios.grid_maker@,
        (capital * ratios.dynamic)@ == capital@ * ratios.dynamic@,
        (capital * ratios.ev)@ == capital@ * ratios.ev@,
    ensures
        (capital * ratios.reserve)@ + (capital * ratios.grid_maker)@ + (capital
            * ratios.dynamic)@ + (capital * ratios.ev)@ == capital@,
{
    let c = capital@;
    let a = ratios.reserve@;
    let b = ratios.grid_maker@;
    let d = ratios.dynamic@;
    let e = ratios.ev@;
    assert(c * a + c * b + c * d + c * e == c * (a + b + d + e)) by (nonlinear_arith);
    assert(c * 1real == c) by (nonlinear_arith);
}

/// The default pools add up to the capital, as long as no pool is rounded.
pub proof fn default_pools_add_up(capital: Money)
    requires
        (capital * dec(25, 2))@ == capital@ * dec(25, 2)@,
        (capital * dec(15, 2))@ == capital@ * dec(15, 2)@,
        (capital * dec(225, 3))@ == capital@ * dec(225, 3)@,
        (capital * dec(375, 3))@ == capital@ * dec(375, 3)@,
    ensures
        (capital * dec(25, 2))@ + (capital * dec(15, 2))@ + (capital * dec(225, 3))@ + (capital
            * dec(375, 3))@ == capital@,
{
    reveal_with_fuel(pow10, 5);
    written_longer(25, 2, 1);
    written_longer(15, 2, 1);
    written_sum(250, 150, 3);
    written_sum(400, 225, 3);
    written_sum(625, 375, 3);
    written_longer(1, 0, 3);
    crate::decimal::laws::whole_value(1);
    pools_add_up(capital, default_ratios());
}

/// The exposure of one side is limited to half of the dynamic pool, as long as that is not
/// rounded.
pub proof fn exposure_is_half_the_dynamic_pool(pools: CapitalPools)
    requires
        pools.exposure_limit()@ == (pools.capital() * pools.shares().dynamic)@ * dec(5, 1)@,
    ensures
        pools.exposure_limit()@ * 2real == (pools.capital() * pools.shares().dynamic)@,
{
    crate::decimal::laws::written_value(5, 1);
    crate::decimal::model::lemma_scaled_product(5, 1);
    reveal_with_fuel(pow10, 3);
    assert(pow10(1) == 10);
    let half = dec(5, 1)@;
    assert(half * 10real == 5real);
    let pool = (pools.capital() * pools.shares().dynamic)@;
    assert((pool * half) * 2real == pool) by (nonlinear_arith)
        requires
            half * 10real == 5real,
    ;
}

} // verus!
