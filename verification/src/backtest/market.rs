//! A recorded market.

use crate::domain::market::MarketSnapshot;
use crate::domain::types::Side;
use vstd::prelude::*;

verus! {

/// A recorded match: one snapshot per second, and who won.
pub struct Market {
    pub snapshots: Vec<MarketSnapshot>,
    pub winner: Side,
    /// For display, such as "BTC 15m - 2026-05-22 07:30".
    pub title: String,
    /// The file that it was read from.
    pub source_file: String,
}

} // verus!
