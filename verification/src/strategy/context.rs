//! What the engine tells a strategy, and what the strategy answers.

use crate::decimal::Decimal;
use crate::domain::market::MarketSnapshot;
use crate::domain::order::{OrderConstraints, OrderDirection, OrderId, TimeInForce};
use crate::domain::phase::Phase;
use crate::domain::types::{Money, OrderRole, Price, Qty, Side};
use crate::inventory::lot::LotId;
use crate::inventory::model::Holdings;
use crate::inventory::Inventory;
use crate::strategy::config::StrategyConfig;
use vstd::prelude::*;

verus! {

/// What a decision is made upon.
#[derive(Debug, Clone, Copy, PartialEq, Eq, Structural)]
pub enum Trigger {
    /// The book moved.
    BookUpdate,
    /// An order was filled.
    Filled {
        side: Side,
        direction: OrderDirection,
        /// The lot that a purchase opened; none for a sale.
        lot_id: Option<LotId>,
    },
    /// An order was cancelled, or could not be.
    OrderUpdate,
}

/// An order that rests at the exchange.
#[derive(Debug, Clone, Copy, PartialEq, Eq, Structural)]
pub struct ActiveOrder {
    pub order_id: OrderId,
    pub side: Side,
    pub direction: OrderDirection,
    pub price: Price,
    pub qty: Qty,
    pub role: OrderRole,
    /// The lot that a sell order closes.
    pub lot_id: Option<LotId>,
}

/// All that a strategy sees.
pub struct DecisionContext<'a> {
    pub trigger: Trigger,
    /// How much of the match has passed, 0 to 1.
    pub progress: Decimal,
    pub market: MarketSnapshot,
    pub inventory: &'a Inventory,
    pub active_orders: &'a [ActiveOrder],
    /// The cash that is neither invested nor promised to a resting bid.
    pub free_cash: Money,
    pub constraints: OrderConstraints,
    pub config: &'a StrategyConfig,
}

/// The model of what a strategy sees.
pub struct Situation {
    pub trigger: Trigger,
    pub progress: Decimal,
    pub market: MarketSnapshot,
    pub inventory: Holdings,
    pub active_orders: Seq<ActiveOrder>,
    pub free_cash: Money,
    pub constraints: OrderConstraints,
    pub config: StrategyConfig,
}

impl<'a> View for DecisionContext<'a> {
    type V = Situation;

    open spec fn view(&self) -> Situation {
        Situation {
            trigger: self.trigger,
            progress: self.progress,
            market: self.market,
            inventory: self.inventory@,
            active_orders: self.active_orders@,
            free_cash: self.free_cash,
            constraints: self.constraints,
            config: *self.config,
        }
    }
}

/// What a strategy wants done. Order identifiers are assigned later.
#[derive(Debug, Clone, Copy, PartialEq, Eq, Structural)]
pub enum CommandIntent {
    /// Bid.
    SubmitBuy { side: Side, price: Price, qty: Qty, role: OrderRole, tif: TimeInForce },
    /// Offer a lot.
    SubmitSell {
        lot_id: LotId,
        side: Side,
        price: Price,
        qty: Qty,
        role: OrderRole,
        tif: TimeInForce,
    },
    /// Cancel one order.
    Cancel(OrderId),
    /// Cancel every order of one side.
    CancelSide(Side),
    /// Cancel every order.
    CancelAll,
}

/// A strategy's answer.
#[derive(Debug, Clone)]
pub struct Decision {
    pub commands: Vec<CommandIntent>,
    /// The phase to move to, if any.
    pub transition: Option<Phase>,
}

/// The model of a decision.
pub struct Plan {
    pub commands: Seq<CommandIntent>,
    pub transition: Option<Phase>,
}

impl Plan {
    /// Doing nothing.
    pub open spec fn nothing() -> Plan {
        Plan { commands: Seq::empty(), transition: None }
    }

    /// Doing nothing but moving to a phase.
    pub open spec fn moving(phase: Phase) -> Plan {
        Plan { commands: Seq::empty(), transition: Some(phase) }
    }

    /// Doing something and staying.
    pub open spec fn doing(commands: Seq<CommandIntent>) -> Plan {
        Plan { commands, transition: None }
    }
}

impl View for Decision {
    type V = Plan;

    open spec fn view(&self) -> Plan {
        Plan { commands: self.commands@, transition: self.transition }
    }
}

impl Decision {
    /// Does nothing.
    pub fn skip() -> (r: Self)
        ensures
            r@ == Plan::nothing(),
    {
        Self { commands: Vec::new(), transition: None }
    }
}

impl Default for Decision {
    fn default() -> (r: Self)
        ensures
            r@ == Plan::nothing(),
    {
        Self::skip()
    }
}

} // verus!
