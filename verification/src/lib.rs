//! A market-making bot for two-sided prediction markets.

pub mod backtest;
pub mod decimal;
pub mod domain;
pub mod engine;
pub mod exchange;
pub mod fsm;
pub mod hedging;
pub mod inventory;
pub mod ledger;
pub mod risk;
pub mod strategy;
pub mod text;
