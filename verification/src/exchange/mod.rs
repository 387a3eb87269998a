//! The exchange: its clock, its events, and a simulated backend.

pub mod backend;
pub mod clock;
pub mod event;
pub mod laws;
pub mod matching;
pub mod model;
pub mod simulator;
