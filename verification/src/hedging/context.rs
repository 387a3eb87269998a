//! What the hedging engine tells its strategies, and what they answer.

use crate::domain::market::MarketSnapshot;
use crate::domain::order::{OrderConstraints, OrderDirection, OrderId, TimeInForce};
use crate::domain::pnl::PositionSnapshot;
use crate::domain::round_state::RoundState;
use crate::domain::state::RobotState;
use crate::domain::types::{Money, OrderRole, Price, Qty, Side};
use crate::exchange::clock::Millis;
use crate::hedging::tally::{
    has_bid_at, notional_of, notional_of_fits, order_at, tally_notional,
};
use vstd::prelude::*;

verus! {

/// What a decision is made upon.
#[derive(Debug, Clone, Copy, PartialEq, Eq, Structural)]
pub enum Trigger {
    /// An order of a side was filled.
    Fill { side: Side },
    /// The book moved.
    BookUpdate,
    /// An order was cancelled, rejected, or could not be cancelled.
    OrderUpdate,
}

/// An order that rests at the exchange.
#[derive(Debug, Clone, Copy, PartialEq, Eq, Structural)]
pub struct ActiveOrder {
    pub order_id: OrderId,
    pub side: Side,
    pub direction: OrderDirection,
    pub price: Price,
    pub qty: Qty,
    pub role: OrderRole,
}

/// What is left of the pools.
#[derive(Debug, Clone, Copy, PartialEq, Eq, Structural)]
pub struct PoolBudgets {
    pub grid_maker_total: Money,
    pub grid_maker_remaining: Money,
    pub dynamic_remaining: Money,
    pub ev_remaining: Money,
    /// The most that one side may be exposed.
    pub max_exposure: Money,
}

/// All that a strategy sees.
pub struct DecisionContext<'a> {
    pub total_capital: Money,
    pub trigger: Trigger,
    pub now: Millis,
    pub time_to_expiry: Millis,
    pub position: PositionSnapshot,
    pub market: MarketSnapshot,
    pub pools: PoolBudgets,
    pub active_orders: &'a [ActiveOrder],
    pub constraints: OrderConstraints,
    pub round: &'a RoundState,
}

/// The model of what a strategy sees.
pub struct Outlook {
    pub total_capital: Money,
    pub trigger: Trigger,
    pub now: Millis,
    pub time_to_expiry: Millis,
    pub position: PositionSnapshot,
    pub market: MarketSnapshot,
    pub pools: PoolBudgets,
    pub active_orders: Seq<ActiveOrder>,
    pub constraints: OrderConstraints,
    pub round: RoundState,
}

impl<'a> View for DecisionContext<'a> {
    type V = Outlook;

    open spec fn view(&self) -> Outlook {
        Outlook {
            total_capital: self.total_capital,
            trigger: self.trigger,
            now: self.now,
            time_to_expiry: self.time_to_expiry,
            position: self.position,
            market: self.market,
            pools: self.pools,
            active_orders: self.active_orders@,
            constraints: self.constraints,
            round: *self.round,
        }
    }
}

impl Outlook {
    /// Whether the latest hedge was sent less than `pause` ago.
    pub open spec fn cooling(self, pause: Millis) -> bool {
        self.round.last_hedge_at matches Some(at) && self.now - at < pause
    }
}

impl<'a> DecisionContext<'a> {
    /// What the resting orders of a side are worth.
    pub fn active_notional(&self, side: Side) -> (r: Money)
        requires
            notional_of_fits(self@.active_orders, side),
        ensures
            r == notional_of(self@.active_orders, side),
    {
        tally_notional(self.active_orders, side)
    }

    /// Tells whether an order of a side rests at a price.
    pub fn has_active_order_at(&self, side: Side, price: Price) -> (r: bool)
        ensures
            r == has_bid_at(self@.active_orders, side, price),
    {
        order_at(self.active_orders, side, price)
    }

    /// Tells whether the latest hedge was sent less than `pause` ago.
    pub fn in_cooldown(&self, pause: Millis) -> (r: bool)
        ensures
            r == self@.cooling(pause),
    {
        match self.round.last_hedge_at {
            Some(at) => if self.now >= at {
                self.now - at < pause
            } else {
                true
            },
            None => false,
        }
    }
}

/// An order that is wanted. Its identifier is assigned later.
#[derive(Debug, Clone, Copy, PartialEq, Eq, Structural)]
pub struct OrderIntent {
    pub side: Side,
    pub direction: OrderDirection,
    pub price: Price,
    pub qty: Qty,
    pub role: OrderRole,
    pub time_in_force: TimeInForce,
}

/// A bid that rests.
pub open spec fn resting_bid(side: Side, price: Price, qty: Qty) -> OrderIntent {
    OrderIntent {
        side,
        direction: OrderDirection::Buy,
        price,
        qty,
        role: OrderRole::Maker,
        time_in_force: TimeInForce::Gtc,
    }
}

/// A purchase at once or not at all.
pub open spec fn taking_bid(side: Side, price: Price, qty: Qty) -> OrderIntent {
    OrderIntent {
        side,
        direction: OrderDirection::Buy,
        price,
        qty,
        role: OrderRole::Taker,
        time_in_force: TimeInForce::Ioc,
    }
}

impl OrderIntent {
    /// A bid that rests.
    pub fn maker_buy(side: Side, price: Price, qty: Qty) -> (r: Self)
        ensures
            r == resting_bid(side, price, qty),
    {
        Self {
            side,
            direction: OrderDirection::Buy,
            price,
            qty,
            role: OrderRole::Maker,
            time_in_force: TimeInForce::Gtc,
        }
    }

    /// A purchase at once or not at all.
    pub fn ioc_taker_buy(side: Side, price: Price, qty: Qty) -> (r: Self)
        ensures
            r == taking_bid(side, price, qty),
    {
        Self {
            side,
            direction: OrderDirection::Buy,
            price,
            qty,
            role: OrderRole::Taker,
            time_in_force: TimeInForce::Ioc,
        }
    }
}

/// What a strategy wants done.
#[derive(Debug, Clone, Copy, PartialEq, Eq, Structural)]
pub enum CommandIntent {
    /// Place an order.
    Submit(OrderIntent),
    /// Cancel one order.
    Cancel(OrderId),
    /// Cancel every order of one side.
    CancelSide(Side),
    /// Cancel every order.
    CancelAll,
}

/// A strategy's answer.
#[derive(Debug, Clone, PartialEq, Eq)]
pub struct Decision {
    pub commands: Vec<CommandIntent>,
    /// The state to move to, if any.
    pub transition: Option<RobotState>,
    /// Whether the main side takes no more bids.
    pub freeze_main_field: bool,
    /// Whether the dynamic pool ran out.
    pub mark_funds_exhausted: bool,
    /// The new count of double negatives and whether there is one now.
    pub double_negative_update: Option<(u8, bool)>,
}

/// The model of a decision.
pub struct Choice {
    pub commands: Seq<CommandIntent>,
    pub transition: Option<RobotState>,
    pub freeze_main_field: bool,
    pub mark_funds_exhausted: bool,
    pub double_negative_update: Option<(u8, bool)>,
}

impl Choice {
    /// Doing nothing.
    pub open spec fn nothing() -> Choice {
        Choice {
            commands: Seq::empty(),
            transition: None,
            freeze_main_field: false,
            mark_funds_exhausted: false,
            double_negative_update: None,
        }
    }

    /// Doing nothing but moving to a state.
    pub open spec fn moving(state: RobotState) -> Choice {
        Choice { transition: Some(state), ..Choice::nothing() }
    }

    /// Cancelling everything and moving to a state.
    pub open spec fn leaving(state: RobotState) -> Choice {
        Choice {
            commands: seq![CommandIntent::CancelAll],
            transition: Some(state),
            ..Choice::nothing()
        }
    }

    /// Doing something and staying.
    pub open spec fn doing(commands: Seq<CommandIntent>) -> Choice {
        Choice { commands, ..Choice::nothing() }
    }

    /// With a new count of double negatives.
    pub open spec fn counting(self, count: u8, is_double: bool) -> Choice {
        Choice { double_negative_update: Some((count, is_double)), ..self }
    }
}

impl View for Decision {
    type V = Choice;

    open spec fn view(&self) -> Choice {
        Choice {
            commands: self.commands@,
            transition: self.transition,
            freeze_main_field: self.freeze_main_field,
            mark_funds_exhausted: self.mark_funds_exhausted,
            double_negative_update: self.double_negative_update,
        }
    }
}

impl Decision {
    /// Does nothing.
    pub fn skip() -> (r: Self)
        ensures
            r@ == Choice::nothing(),
    {
        Self {
            commands: Vec::new(),
            transition: None,
            freeze_main_field: false,
            mark_funds_exhausted: false,
            double_negative_update: None,
        }
    }

    /// Does nothing but move to a state.
    pub fn transition(state: RobotState) -> (r: Self)
        ensures
            r@ == Choice::moving(state),
    {
        Self::skip().moving_to(state)
    }

    /// Cancels everything and moves to a state.
    pub(crate) fn leave(state: RobotState) -> (r: Self)
        ensures
            r@ == Choice::leaving(state),
    {
        let r = Self::skip().with(CommandIntent::CancelAll).moving_to(state);
        assert(r@.commands =~= seq![CommandIntent::CancelAll]);
        r
    }

    /// Adds a command.
    pub fn with(self, command: CommandIntent) -> (r: Self)
        ensures
            r@ == (Choice { commands: self@.commands.push(command), ..self@ }),
    {
        let mut r = self;
        r.commands.push(command);
        r
    }

    /// Moves to a state.
    pub fn moving_to(self, state: RobotState) -> (r: Self)
        ensures
            r@ == (Choice { transition: Some(state), ..self@ }),
    {
        let mut r = self;
        r.transition = Some(state);
        r
    }

    /// Notes a new count of double negatives.
    pub fn with_dn_update(self, count: u8, is_double: bool) -> (r: Self)
        ensures
            r@ == self@.counting(count, is_double),
    {
        let mut r = self;
        r.double_negative_update = Some((count, is_double));
        r
    }

    /// Tells whether nothing is sent and the state stays.
    pub fn is_skip(&self) -> (r: bool)
        ensures
            r == (self@.commands.len() == 0 && self@.transition is None),
    {
        self.commands.len() == 0 && self.transition.is_none()
    }
}

/// The strategy of one state.
pub trait PhaseStrategy {
    /// Whether a decision can be computed.
    spec fn ready(&self, ctx: Outlook) -> bool;

    /// The decision.
    spec fn choice(&self, ctx: Outlook) -> Choice;

    /// Decides.
    fn decide(&self, ctx: &DecisionContext) -> (r: Decision)
        requires
            self.ready(ctx@),
        ensures
            r@ == self.choice(ctx@),
    ;
}

} // verus!
