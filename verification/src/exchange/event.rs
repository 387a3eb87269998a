//! What an exchange reports.

use crate::domain::market::MarketSnapshot;
use crate::domain::order::{Fill, OrderId};
use vstd::prelude::*;

verus! {

/// Why an order was rejected.
#[derive(Debug, Clone, Copy, PartialEq, Eq, Structural)]
pub enum RejectReason {
    /// Not enough cash.
    InsufficientCash,
    /// Fewer shares than the exchange takes.
    BelowMinOrderSize,
    /// The price cannot be met or is not on the tick.
    InvalidPrice,
    /// Stopped by the cash guard.
    CashGuardBlocked,
}

/// A report of an exchange.
#[derive(Debug, Clone, Copy, PartialEq, Eq, Structural)]
pub enum ExchangeEvent {
    /// The book moved.
    BookUpdate(MarketSnapshot),
    /// An order was filled.
    Filled(Fill),
    /// An order was rejected.
    Rejected { order_id: OrderId, reason: RejectReason },
    /// An order was cancelled.
    Canceled(OrderId),
    /// An order could not be cancelled: it does not rest any more.
    CancelFailed(OrderId),
}

} // verus!
