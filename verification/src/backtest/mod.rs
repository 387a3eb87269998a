//! Backtests: recorded markets are replayed through the engine and the simulated
//! exchange.

pub mod batch;
pub mod driver;
pub mod laws;
pub mod market;
pub mod reading;
pub mod real_data;
pub mod replay;
pub mod run;
pub mod session;
pub mod tallies;
