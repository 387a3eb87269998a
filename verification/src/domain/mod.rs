//! The shared vocabulary: sides, prices, orders, fills, books and positions.

pub mod command;
pub mod fee;
pub mod market;
pub mod order;
pub mod phase;
pub mod pnl;
pub mod round_state;
pub mod state;
pub mod types;
