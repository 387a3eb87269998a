//! Carries out decisions: identifiers, the cash guard, the record, and the state.

use crate::domain::command::Command;
use crate::domain::order::Order;
use crate::domain::state::RobotState;
use crate::hedging::context::{CommandIntent, Decision, OrderIntent};
use crate::hedging::engine::config::Pool;
use crate::hedging::engine::model::{depth_of, pool_in, Robot};
use crate::hedging::engine::Engine;
use crate::risk::auditor::Approval;
use vstd::prelude::*;

verus! {

impl Engine {
    /// Carries out a decision and returns what is to be sent.
    pub(crate) fn apply_decision(&mut self, decision: Decision) -> (r: Vec<Command>)
        requires
            old(self)@.done_fits(decision@),
        ensures
            final(self)@ == old(self)@.done(decision@),
            r@ == old(self)@.all_sent(decision@.commands, pool_in(old(self)@.round.state)),
    {
        let pool = Self::pool_for_state(self.round.state);
        proof {
            lemma_carried_keeps(self@, decision@.commands, pool);
        }
        let commands = self.carry_out(&decision.commands, pool);
        if decision.freeze_main_field {
            self.round.freeze_main_field();
        }
        if decision.mark_funds_exhausted {
            self.round.mark_funds_exhausted();
        }
        if let Some((count, was)) = decision.double_negative_update {
            self.round.update_double_negative(count, was);
        }
        if let Some(target) = decision.transition {
            self.round.state = target;
            self.generation = self.generation.next();
            let depth = Self::phase_depth(target);
            if depth > self.deepest_phase {
                self.deepest_phase = depth;
            }
        }
        commands
    }

    /// Carries out several wishes in order.
    fn carry_out(&mut self, intents: &Vec<CommandIntent>, pool: Pool) -> (r: Vec<Command>)
        requires
            old(self)@.all_carried_fits(intents@, pool),
        ensures
            final(self)@ == old(self)@.all_carried(intents@, pool),
            r@ == old(self)@.all_sent(intents@, pool),
    {
        let mut commands: Vec<Command> = Vec::new();
        let mut i: usize = 0;
        proof {
            assert(intents@.take(0) =~= Seq::<CommandIntent>::empty());
        }
        while i < intents.len()
            invariant
                i <= intents@.len(),
                old(self)@.all_carried_fits(intents@, pool),
                self@ == old(self)@.all_carried(intents@.take(i as int), pool),
                commands@ == old(self)@.all_sent(intents@.take(i as int), pool),
            decreases intents@.len() - i,
        {
            proof {
                lemma_carried_prefix(old(self)@, intents@, pool, i as int + 1);
                assert(intents@.take(i as int + 1).drop_last() =~= intents@.take(i as int));
            }
            match intents[i] {
                CommandIntent::Submit(intent) => {
                    if let Some(command) = self.try_submit(&intent, pool) {
                        commands.push(command);
                    }
                },
                CommandIntent::Cancel(order_id) => {
                    self.book.mark_cancel_pending(order_id);
                    commands.push(Command::CancelOrder(order_id));
                },
                CommandIntent::CancelSide(side) => {
                    self.book.mark_side_cancel_pending(side);
                    commands.push(Command::CancelSide(side));
                },
                CommandIntent::CancelAll => {
                    self.book.mark_all_cancel_pending();
                    commands.push(Command::CancelAll);
                },
            }
            i += 1;
        }
        proof {
            assert(intents@.take(intents@.len() as int) =~= intents@);
        }
        commands
    }

    /// Places an order if the cash guard approves.
    fn try_submit(&mut self, intent: &OrderIntent, pool: Pool) -> (r: Option<Command>)
        requires
            old(self)@.carried_fits(CommandIntent::Submit(*intent)),
        ensures
            final(self)@ == old(self)@.submitted(*intent, pool),
            r == (if old(self)@.verdict() == Approval::Approved {
                Some(Command::SubmitOrder(old(self)@.next_order(*intent)))
            } else {
                None
            }),
    {
        let free_cash = self.free_cash();
        let order_id = self.id_gen.next();
        let order = Order {
            order_id,
            side: intent.side,
            direction: intent.direction,
            price: intent.price,
            qty: intent.qty,
            role: intent.role,
            time_in_force: intent.time_in_force,
            generation: self.generation,
        };
        if self.auditor.approve(&order, free_cash) != Approval::Approved {
            return None;
        }
        self.book.insert(order, None);
        self.assign(order_id, pool);
        if pool != Pool::GridMaker {
            let now = self.now;
            self.round.record_hedge_at(now);
        }
        Some(Command::SubmitOrder(order))
    }

    /// The pool from which orders of a state are paid.
    fn pool_for_state(state: RobotState) -> (r: Pool)
        ensures
            r == pool_in(state),
    {
        match state {
            RobotState::Building | RobotState::Pairing => Pool::GridMaker,
            RobotState::DynamicHedge { .. } => Pool::Dynamic,
            RobotState::EvHedge => Pool::Ev,
            RobotState::CircuitBreaker | RobotState::SettlementWait => Pool::GridMaker,
        }
    }

    /// How far a state is along the way.
    fn phase_depth(state: RobotState) -> (r: u8)
        ensures
            r == depth_of(state),
    {
        match state {
            RobotState::Building => 0,
            RobotState::Pairing => 1,
            RobotState::DynamicHedge { .. } => 2,
            RobotState::EvHedge => 3,
            RobotState::CircuitBreaker | RobotState::SettlementWait => 0,
        }
    }
}

/// Carrying out wishes keeps the state, the generation and the furthest state.
pub proof fn lemma_carried_keeps(robot: Robot, intents: Seq<CommandIntent>, pool: Pool)
    ensures
        robot.all_carried(intents, pool).round.state == robot.round.state,
        robot.all_carried(intents, pool).generation == robot.generation,
        robot.all_carried(intents, pool).deepest == robot.deepest,
    decreases intents.len(),
{
    if intents.len() > 0 {
        lemma_carried_keeps(robot, intents.drop_last(), pool);
    }
}

proof fn lemma_carried_prefix(robot: Robot, intents: Seq<CommandIntent>, pool: Pool, n: int)
    requires
        0 <= n <= intents.len(),
        robot.all_carried_fits(intents, pool),
    ensures
        robot.all_carried_fits(intents.take(n), pool),
    decreases intents.len(),
{
    if n < intents.len() {
        lemma_carried_prefix(robot, intents.drop_last(), pool, n);
        assert(intents.drop_last().take(n) =~= intents.take(n));
    } else {
        assert(intents.take(n) =~= intents);
    }
}

} // verus!
