//! The hedging robot: a ladder of bids, pairing, two kinds of hedge, and a circuit
//! breaker.

pub mod building;
pub mod circuit_breaker;
pub mod config;
pub mod context;
pub mod deciding;
pub mod dynamic_hedge;
pub mod engine;
pub mod ev_hedge;
pub mod laws;
pub mod pairing;
pub mod placing;
pub mod position;
pub mod router;
pub mod tally;
