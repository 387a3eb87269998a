//! The parameters of the engine.

use crate::decimal::{dec, Decimal};
use crate::domain::order::{default_constraints, OrderConstraints};
use crate::domain::types::Money;
use crate::strategy::config::{is_default_config, StrategyConfig};
use vstd::prelude::*;

verus! {

/// The parameters of the engine.
#[derive(Debug, Clone, Copy, PartialEq, Eq)]
pub struct EngineConfig {
    /// All the cash of one match.
    pub total_capital: Money,
    pub constraints: OrderConstraints,
    pub strategy: StrategyConfig,
}

impl EngineConfig {
    /// The default parameters with the given capital.
    pub fn with_capital(capital: Money) -> (r: Self)
        ensures
            r.total_capital == capital,
            r.constraints == default_constraints(),
            is_default_config(r.strategy),
    {
        Self {
            total_capital: capital,
            constraints: OrderConstraints::default(),
            strategy: StrategyConfig::default(),
        }
    }
}

impl Default for EngineConfig {
    /// The default parameters with a capital of 1000.
    fn default() -> (r: Self)
        ensures
            r.total_capital == dec(1000, 0),
            r.constraints == default_constraints(),
            is_default_config(r.strategy),
    {
        Self::with_capital(Decimal::new(1000, 0))
    }
}

} // verus!
