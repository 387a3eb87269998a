//! What a strategy asks an exchange to do.

use crate::domain::order::{Order, OrderId};
use crate::domain::types::Side;
use vstd::prelude::*;

verus! {

/// One instruction to an exchange.
#[derive(Debug, Clone, Copy, PartialEq, Eq, Structural)]
pub enum Command {
    /// Place an order.
    SubmitOrder(Order),
    /// Cancel one order.
    CancelOrder(OrderId),
    /// Cancel every order of one side.
    CancelSide(Side),
    /// Cancel every order.
    CancelAll,
}

} // verus!
