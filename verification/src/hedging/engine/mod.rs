//! The hedging engine: it books events, asks who decides, and carries out the decision
//! under the cash guard.

use crate::decimal::Decimal;
use crate::domain::command::Command;
use crate::domain::market::MarketSnapshot;
use crate::domain::order::{Generation, OrderId, OrderIdGenerator};
use crate::domain::round_state::RoundState;
use crate::domain::state::RobotState;
use crate::domain::types::Side;
use crate::engine::book::OrderBook;
use crate::exchange::clock::Millis;
use crate::exchange::event::ExchangeEvent;
use crate::hedging::engine::config::{EngineConfig, Pool};
use crate::hedging::engine::model::{PoolCosts, Robot};
use crate::ledger::Ledger;
use crate::risk::auditor::RiskAuditor;
use vstd::prelude::*;

pub mod accounts;
pub mod apply;
pub mod config;
pub mod decide;
pub mod event;
pub mod laws;
pub mod model;

verus! {

/// The only writer of all that changes during a match.
pub struct Engine {
    pub(crate) cfg: EngineConfig,
    pub(crate) auditor: RiskAuditor,
    pub(crate) round: RoundState,
    pub(crate) ledger: Ledger,
    pub(crate) book: OrderBook,
    pub(crate) id_gen: OrderIdGenerator,
    pub(crate) generation: Generation,
    pub(crate) market: MarketSnapshot,
    /// What was spent out of each pool.
    pub(crate) filled_cost: PoolCosts,
    /// The pool of each order on record.
    pub(crate) order_pool: Vec<(OrderId, Pool)>,
    pub(crate) now: Millis,
    pub(crate) time_to_expiry: Millis,
    /// The furthest state that was reached.
    pub(crate) deepest_phase: u8,
}

impl View for Engine {
    type V = Robot;

    closed spec fn view(&self) -> Robot {
        Robot {
            cfg: self.cfg,
            auditor: self.auditor,
            round: self.round,
            ledger: self.ledger,
            book: self.book@,
            assigned: self.order_pool@,
            spent: self.filled_cost,
            issued: self.id_gen.issued(),
            generation: self.generation,
            market: self.market,
            now: self.now,
            time_to_expiry: self.time_to_expiry,
            deepest: self.deepest_phase,
        }
    }
}

impl Engine {
    /// An engine at the start of a match. Its red line is no lower than the reserve.
    pub fn new(cfg: EngineConfig) -> (r: Self)
        requires
            cfg.cash_guard_ratio@ >= cfg.pools.shares().reserve@,
        ensures
            r@ == Robot::opened(cfg),
    {
        let auditor = RiskAuditor::new(cfg.pools, cfg.cash_guard_ratio);
        Self {
            auditor,
            cfg,
            round: RoundState::new(),
            ledger: Ledger::new(),
            book: OrderBook::new(),
            id_gen: OrderIdGenerator::new(),
            generation: Generation::new(),
            market: MarketSnapshot::default(),
            filled_cost: PoolCosts {
                grid_maker: Decimal::zero(),
                dynamic: Decimal::zero(),
                ev: Decimal::zero(),
            },
            order_pool: Vec::new(),
            now: 0,
            time_to_expiry: 0,
            deepest_phase: 0,
        }
    }

    /// The current state.
    pub fn state(&self) -> (r: RobotState)
        ensures
            r == self@.round.state,
    {
        self.round.state
    }

    /// The ledger.
    pub fn ledger(&self) -> (r: &Ledger)
        ensures
            *r == self@.ledger,
    {
        &self.ledger
    }

    /// The side of the first fill.
    pub fn main_field(&self) -> (r: Option<Side>)
        ensures
            r == self@.round.main_field,
    {
        self.round.main_field
    }

    /// The number of orders on record.
    pub fn resting_order_count(&self) -> (r: usize)
        ensures
            r == self@.book.len(),
    {
        self.book.len()
    }

    /// The name of the furthest state that was reached.
    pub fn deepest_phase_label(&self) -> (r: &'static str)
        ensures
            r@ == (match self@.deepest {
                0 => "Building"@,
                1 => "Pairing"@,
                2 => "DynamicHedge"@,
                3 => "EvHedge"@,
                _ => "Unknown"@,
            }),
    {
        match self.deepest_phase {
            0 => "Building",
            1 => "Pairing",
            2 => "DynamicHedge",
            3 => "EvHedge",
            _ => "Unknown",
        }
    }

    /// Handles an event at a moment and returns what is to be sent.
    pub fn handle_event(
        &mut self,
        event: ExchangeEvent,
        now: Millis,
        time_to_expiry: Millis,
    ) -> (r: Vec<Command>)
        requires
            old(self)@.handled_fits(event, now, time_to_expiry),
        ensures
            final(self)@ == old(self)@.handled(event, now, time_to_expiry),
            r@ == old(self)@.answer(event, now, time_to_expiry),
    {
        self.now = now;
        self.time_to_expiry = time_to_expiry;
        let trigger = self.apply_event_facts(&event);
        let decision = self.decide(trigger);
        self.apply_decision(decision)
    }

    /// Starts a new generation.
    pub fn bump_generation(&mut self)
        requires
            old(self)@.generation.0 < u64::MAX,
        ensures
            final(self)@ == (Robot {
                generation: Generation((old(self)@.generation.0 + 1) as u64),
                ..old(self)@
            }),
    {
        self.generation = self.generation.next();
    }
}

} // verus!
