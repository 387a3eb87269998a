//! Who decides: the time red line, the circuit breaker, the last-minute rule, and
//! only then the strategy of the current state.

use crate::decimal::laws::zero_value;
use crate::decimal::{dec, Decimal};
use crate::domain::market::MarketSnapshot;
use crate::domain::state::RobotState;
use crate::domain::types::{Price, Side};
use crate::hedging::config::StrategyConfig;
use crate::hedging::context::{Choice, Decision, DecisionContext, Outlook};
use vstd::prelude::*;

verus! {

/// The strategies of the states.
#[derive(Debug, Clone, Copy, PartialEq, Eq, Structural)]
pub enum Phase {
    Building,
    Pairing,
    DynamicHedge,
    EvHedge,
    CircuitBreaker,
}

/// Who decides: a global rule, or the strategy of a state.
#[derive(Debug, Clone, PartialEq, Eq)]
pub enum Route {
    Direct(Decision),
    Phase(Phase),
}

/// The model of a route.
pub enum Way {
    Direct(Choice),
    Phase(Phase),
}

impl View for Route {
    type V = Way;

    open spec fn view(&self) -> Way {
        match self {
            Route::Direct(decision) => Way::Direct(decision@),
            Route::Phase(phase) => Way::Phase(*phase),
        }
    }
}

/// The spread of a side relative to its bid, where both prices are there and the bid
/// is positive.
pub open spec fn spread(market: MarketSnapshot, side: Side) -> Option<Price> {
    match (market.at(side).best_bid, market.at(side).best_ask) {
        (Some(bid), Some(ask)) => if bid@ > 0real {
            Some((ask - bid) / bid)
        } else {
            None
        },
        _ => None,
    }
}

/// Whether the spread can be computed.
pub open spec fn spread_fits(market: MarketSnapshot, side: Side) -> bool {
    match (market.at(side).best_bid, market.at(side).best_ask) {
        (Some(bid), Some(ask)) => bid@ > 0real ==> ask.sub_fits(bid) && (ask - bid).div_fits(bid),
        _ => true,
    }
}

/// Whether the spread of a side is above a limit.
pub open spec fn is_wide(market: MarketSnapshot, side: Side, limit: Price) -> bool {
    spread(market, side) matches Some(ratio) && ratio@ > limit@
}

/// Whether the circuit breaker opens: the spread of either side collapsed.
pub open spec fn trips(market: MarketSnapshot, config: StrategyConfig) -> bool {
    is_wide(market, Side::Up, config.circuit_trigger_ratio) || is_wide(
        market,
        Side::Down,
        config.circuit_trigger_ratio,
    )
}

/// Whether that can be computed.
pub open spec fn trips_fits(market: MarketSnapshot, config: StrategyConfig) -> bool {
    &&& spread_fits(market, Side::Up)
    &&& !is_wide(market, Side::Up, config.circuit_trigger_ratio) ==> spread_fits(
        market,
        Side::Down,
    )
}

/// Computes the spread of a side relative to its bid.
pub fn spread_ratio(market: &MarketSnapshot, side: Side) -> (r: Option<Price>)
    requires
        spread_fits(*market, side),
    ensures
        r == spread(*market, side),
{
    proof {
        zero_value();
    }
    let book = market.book(side);
    match (book.best_bid, book.best_ask) {
        (Some(bid), Some(ask)) => if bid.gt(Decimal::zero()) {
            Some(ask.minus(bid).over(bid))
        } else {
            None
        },
        _ => None,
    }
}

fn spread_above(market: &MarketSnapshot, side: Side, limit: Price) -> (r: bool)
    requires
        spread_fits(*market, side),
    ensures
        r == is_wide(*market, side, limit),
{
    match spread_ratio(market, side) {
        Some(ratio) => ratio.gt(limit),
        None => false,
    }
}

/// Tells whether the circuit breaker opens.
pub fn circuit_should_trip(market: &MarketSnapshot, cfg: &StrategyConfig) -> (r: bool)
    requires
        trips_fits(*market, *cfg),
    ensures
        r == trips(*market, *cfg),
{
    spread_above(market, Side::Up, cfg.circuit_trigger_ratio) || spread_above(
        market,
        Side::Down,
        cfg.circuit_trigger_ratio,
    )
}

/// The side that would lose more, `Up` where neither would.
pub open spec fn tail_side(ctx: Outlook) -> Side {
    match ctx.position.weaker() {
        Some(side) => side,
        None => Side::Up,
    }
}

/// The chance of that side: its mark price, 1 where there is none.
pub open spec fn tail_chance(ctx: Outlook) -> Price {
    match ctx.market.at(tail_side(ctx)).mark() {
        Some(price) => price,
        None => dec(1, 0),
    }
}

/// Whether the larger loss, weighted by its chance, has reached the trigger.
pub open spec fn tail_breached(ctx: Outlook, config: StrategyConfig) -> bool {
    (ctx.position.settled(tail_side(ctx)) * tail_chance(ctx))@ <= (config.loss_trigger
        * ctx.total_capital)@
}

/// Whether that can be computed.
pub open spec fn tail_breached_fits(ctx: Outlook, config: StrategyConfig) -> bool {
    &&& config.loss_trigger.mul_fits(ctx.total_capital)
    &&& ctx.position.both_settled_fits()
    &&& ctx.market.at(tail_side(ctx)).mark_fits()
    &&& ctx.position.settled(tail_side(ctx)).mul_fits(tail_chance(ctx))
}

fn tail_end_breach(ctx: &DecisionContext, cfg: &StrategyConfig) -> (r: bool)
    requires
        tail_breached_fits(ctx@, *cfg),
    ensures
        r == tail_breached(ctx@, *cfg),
{
    let loss = cfg.loss_trigger.times(ctx.total_capital);
    let weaker = match ctx.position.weaker_side() {
        Some(side) => side,
        None => Side::Up,
    };
    let prob = match ctx.market.mark_price(weaker) {
        Some(price) => price,
        None => Decimal::one(),
    };
    let weighted = ctx.position.settle_pnl(weaker).times(prob);
    weighted.le(loss)
}

/// Who decides, from the highest priority to the lowest: after the end nobody; within
/// the time red line everything stops; an open circuit breaker has its own strategy,
/// and a collapsed spread opens it; shortly before the end the loss decides between the
/// expected-value hedge and waiting; otherwise the strategy of the state.
pub open spec fn way(ctx: Outlook, config: StrategyConfig) -> Way {
    let state = ctx.round.state;
    if state == RobotState::SettlementWait {
        Way::Direct(Choice::nothing())
    } else if ctx.time_to_expiry < config.time_red_line {
        Way::Direct(Choice::leaving(RobotState::SettlementWait))
    } else if state == RobotState::CircuitBreaker {
        Way::Phase(Phase::CircuitBreaker)
    } else if trips(ctx.market, config) {
        Way::Direct(Choice::leaving(RobotState::CircuitBreaker))
    } else if ctx.time_to_expiry < config.last_phase_window && state != RobotState::EvHedge {
        if tail_breached(ctx, config) {
            Way::Direct(Choice::leaving(RobotState::EvHedge))
        } else {
            Way::Direct(Choice::leaving(RobotState::SettlementWait))
        }
    } else {
        match state {
            RobotState::Building => Way::Phase(Phase::Building),
            RobotState::Pairing => Way::Phase(Phase::Pairing),
            RobotState::DynamicHedge { .. } => Way::Phase(Phase::DynamicHedge),
            _ => Way::Phase(Phase::EvHedge),
        }
    }
}

/// Whether the way can be computed.
pub open spec fn way_fits(ctx: Outlook, config: StrategyConfig) -> bool {
    let state = ctx.round.state;
    (state != RobotState::SettlementWait && ctx.time_to_expiry >= config.time_red_line && state
        != RobotState::CircuitBreaker) ==> {
        &&& trips_fits(ctx.market, config)
        &&& (!trips(ctx.market, config) && ctx.time_to_expiry < config.last_phase_window && state
            != RobotState::EvHedge) ==> tail_breached_fits(ctx, config)
    }
}

/// Finds out who decides.
pub fn route(ctx: &DecisionContext, cfg: &StrategyConfig) -> (r: Route)
    requires
        way_fits(ctx@, *cfg),
    ensures
        r@ == way(ctx@, *cfg),
{
    if ctx.round.state == RobotState::SettlementWait {
        return Route::Direct(Decision::skip());
    }
    if ctx.time_to_expiry < cfg.time_red_line {
        return Route::Direct(Decision::leave(RobotState::SettlementWait));
    }
    if ctx.round.state == RobotState::CircuitBreaker {
        return Route::Phase(Phase::CircuitBreaker);
    }
    if circuit_should_trip(&ctx.market, cfg) {
        return Route::Direct(Decision::leave(RobotState::CircuitBreaker));
    }
    if ctx.time_to_expiry < cfg.last_phase_window && ctx.round.state != RobotState::EvHedge {
        if tail_end_breach(ctx, cfg) {
            return Route::Direct(Decision::leave(RobotState::EvHedge));
        }
        return Route::Direct(Decision::leave(RobotState::SettlementWait));
    }
    match ctx.round.state {
        RobotState::Building => Route::Phase(Phase::Building),
        RobotState::Pairing => Route::Phase(Phase::Pairing),
        RobotState::DynamicHedge { .. } => Route::Phase(Phase::DynamicHedge),
        RobotState::EvHedge => Route::Phase(Phase::EvHedge),
        RobotState::CircuitBreaker | RobotState::SettlementWait => Route::Direct(
            Decision::skip(),
        ),
    }
}

} // verus!
