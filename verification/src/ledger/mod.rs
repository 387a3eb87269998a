//! The ledger: what is held of each side and what it cost, and the log from which it
//! is rebuilt.

pub mod laws;
pub mod ledger;
pub mod wal;

pub use ledger::Ledger;
