//! The parameters of the hedging engine.

use crate::decimal::Decimal;
use crate::domain::order::{default_constraints, OrderConstraints};
use crate::domain::types::Money;
use crate::hedging::config::{is_default_config, StrategyConfig};
use crate::risk::pool::{default_ratios, split_fits, CapitalPools};
use vstd::prelude::*;

verus! {

/// The pools that orders are paid from.
#[derive(Debug, Clone, Copy, PartialEq, Eq, Hash, Structural)]
pub enum Pool {
    GridMaker,
    Dynamic,
    Ev,
}

/// The parameters of the hedging engine.
#[derive(Debug, Clone, Copy)]
pub struct EngineConfig {
    pub pools: CapitalPools,
    /// The share of the capital below which nothing new is opened.
    pub cash_guard_ratio: Decimal,
    pub constraints: OrderConstraints,
    pub strategy: StrategyConfig,
}

impl EngineConfig {
    /// The default parameters with the given capital; the red line is the reserve.
    pub fn with_capital(capital: Money) -> (r: Self)
        requires
            split_fits(capital, default_ratios()),
        ensures
            r.pools.capital() == capital,
            r.pools.shares() == default_ratios(),
            r.cash_guard_ratio == default_ratios().reserve,
            r.constraints == default_constraints(),
            is_default_config(r.strategy),
    {
        let pools = CapitalPools::with_default_ratios(capital);
        let cash_guard_ratio = pools.ratios().reserve;
        Self {
            pools,
            cash_guard_ratio,
            constraints: OrderConstraints::default(),
            strategy: StrategyConfig::default(),
        }
    }
}

} // verus!
