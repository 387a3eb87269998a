//! What every exchange can be asked to do.

use crate::domain::order::{Order, OrderId};
use crate::domain::types::Side;
use vstd::prelude::*;

verus! {

/// An exchange. Its answers come back as events.
pub trait ExchangeBackend {
    /// Whether an order can be handled.
    spec fn can_take(&self, order: Order) -> bool;

    /// Places an order under the identifier that it carries.
    fn submit_order(&mut self, order: Order)
        requires
            old(self).can_take(order),
    ;

    /// Cancels one order.
    fn cancel_order(&mut self, order_id: OrderId);

    /// Cancels every order of one side.
    fn cancel_side(&mut self, side: Side);

    /// Cancels every order.
    fn cancel_all(&mut self);
}

} // verus!
