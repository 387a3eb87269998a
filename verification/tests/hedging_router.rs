use hft_bot::decimal::Decimal;
use hft_bot::domain::market::{BookTop, MarketSnapshot};
use hft_bot::domain::order::OrderConstraints;
use hft_bot::domain::pnl::PositionSnapshot;
use hft_bot::domain::round_state::RoundState;
use hft_bot::domain::state::RobotState;
use hft_bot::domain::types::{Price, Side};
use hft_bot::hedging::config::StrategyConfig;
use hft_bot::hedging::context::{
    CommandIntent, Decision, DecisionContext, PoolBudgets, Trigger,
};
use hft_bot::hedging::router::{route, spread_ratio, Phase, Route};

fn ctx_with(state: RobotState, tte: u64, market: MarketSnapshot) -> DecisionContext<'static> {
    let mut round = RoundState::new();
    round.state = state;
    round.main_field = Some(Side::Up);
    let round_ref: &'static RoundState = Box::leak(Box::new(round));
    DecisionContext {
        total_capital: Decimal::new(1000, 0),
        trigger: Trigger::BookUpdate,
        now: 0,
        time_to_expiry: tte,
        position: PositionSnapshot {
            up_qty: Decimal::new(0, 0),
            down_qty: Decimal::new(0, 0),
            up_cost: Decimal::new(0, 0),
            down_cost: Decimal::new(0, 0),
        },
        market,
        pools: PoolBudgets {
            grid_maker_total: Decimal::new(150, 0),
            grid_maker_remaining: Decimal::new(150, 0),
            dynamic_remaining: Decimal::new(225, 0),
            ev_remaining: Decimal::new(375, 0),
            max_exposure: Decimal::new(1125, 1),
        },
        active_orders: &[],
        constraints: OrderConstraints::default(),
        round: round_ref,
    }
}

fn book(bid: Price, ask: Price) -> BookTop {
    BookTop {
        best_bid: Some(bid),
        best_ask: Some(ask),
        last_trade: None,
    }
}

fn healthy_market() -> MarketSnapshot {
    MarketSnapshot {
        up: book(Decimal::new(40, 2), Decimal::new(41, 2)),
        down: book(Decimal::new(59, 2), Decimal::new(60, 2)),
    }
}

#[test]
fn settlement_wait_does_nothing() {
    let r = route(
        &ctx_with(RobotState::SettlementWait, 600_000, healthy_market()),
        &StrategyConfig::default(),
    );
    assert_eq!(r, Route::Direct(Decision::skip()));
}

#[test]
fn time_red_line_overrides_everything() {
    let r = route(
        &ctx_with(RobotState::EvHedge, 30_000, healthy_market()),
        &StrategyConfig::default(),
    );
    match r {
        Route::Direct(d) => {
            assert!(d.commands.contains(&CommandIntent::CancelAll));
            assert_eq!(d.transition, Some(RobotState::SettlementWait));
        }
        _ => panic!(),
    }
}

#[test]
fn circuit_trips_on_wide_spread() {
    let market = MarketSnapshot {
        up: book(Decimal::new(40, 2), Decimal::new(41, 2)),
        down: book(Decimal::new(20, 2), Decimal::new(55, 2)),
    };
    let r = route(
        &ctx_with(RobotState::Pairing, 600_000, market),
        &StrategyConfig::default(),
    );
    match r {
        Route::Direct(d) => {
            assert!(d.commands.contains(&CommandIntent::CancelAll));
            assert_eq!(d.transition, Some(RobotState::CircuitBreaker));
        }
        _ => panic!(),
    }
}

#[test]
fn time_red_line_beats_circuit() {
    let market = MarketSnapshot {
        up: book(Decimal::new(40, 2), Decimal::new(41, 2)),
        down: book(Decimal::new(20, 2), Decimal::new(55, 2)),
    };
    let r = route(
        &ctx_with(RobotState::Pairing, 30_000, market),
        &StrategyConfig::default(),
    );
    match r {
        Route::Direct(d) => assert_eq!(d.transition, Some(RobotState::SettlementWait)),
        _ => panic!(),
    }
}

#[test]
fn tail_end_rule_enters_ev_when_breach() {
    let mut ctx = ctx_with(RobotState::Pairing, 200_000, healthy_market());
    ctx.position = PositionSnapshot {
        up_qty: Decimal::new(100, 0),
        down_qty: Decimal::new(0, 0),
        up_cost: Decimal::new(150, 0),
        down_cost: Decimal::new(0, 0),
    };
    let r = route(&ctx, &StrategyConfig::default());
    match r {
        Route::Direct(d) => {
            assert!(d.commands.contains(&CommandIntent::CancelAll));
            assert_eq!(d.transition, Some(RobotState::EvHedge));
        }
        _ => panic!(),
    }
}

#[test]
fn tail_end_rule_settles_when_no_breach() {
    let ctx = ctx_with(RobotState::Pairing, 200_000, healthy_market());
    let r = route(&ctx, &StrategyConfig::default());
    match r {
        Route::Direct(d) => {
            assert!(d.commands.contains(&CommandIntent::CancelAll));
            assert_eq!(d.transition, Some(RobotState::SettlementWait));
        }
        _ => panic!(),
    }
}

#[test]
fn tail_end_does_not_affect_ev_state() {
    let r = route(
        &ctx_with(RobotState::EvHedge, 200_000, healthy_market()),
        &StrategyConfig::default(),
    );
    assert_eq!(r, Route::Phase(Phase::EvHedge));
}

#[test]
fn healthy_market_routes_to_current_phase() {
    let cfg = StrategyConfig::default();
    assert_eq!(
        route(
            &ctx_with(RobotState::Building, 600_000, healthy_market()),
            &cfg
        ),
        Route::Phase(Phase::Building)
    );
    assert_eq!(
        route(
            &ctx_with(RobotState::Pairing, 600_000, healthy_market()),
            &cfg
        ),
        Route::Phase(Phase::Pairing)
    );
    assert_eq!(
        route(
            &ctx_with(RobotState::DynamicHedge { double_negative_count: 0 }, 600_000, healthy_market()),
            &cfg
        ),
        Route::Phase(Phase::DynamicHedge)
    );
    assert_eq!(
        route(
            &ctx_with(RobotState::EvHedge, 600_000, healthy_market()),
            &cfg
        ),
        Route::Phase(Phase::EvHedge)
    );
}

#[test]
fn circuit_state_routes_to_circuit_strategy() {
    let market = MarketSnapshot {
        up: book(Decimal::new(40, 2), Decimal::new(41, 2)),
        down: book(Decimal::new(20, 2), Decimal::new(55, 2)),
    };
    let r = route(
        &ctx_with(RobotState::CircuitBreaker, 600_000, market),
        &StrategyConfig::default(),
    );
    assert_eq!(r, Route::Phase(Phase::CircuitBreaker));
}

#[test]
fn spread_ratio_computed_correctly() {
    let market = MarketSnapshot {
        up: book(Decimal::new(40, 2), Decimal::new(50, 2)),
        down: BookTop::default(),
    };
    assert_eq!(spread_ratio(&market, Side::Up), Some(Decimal::new(25, 2)));
    assert_eq!(spread_ratio(&market, Side::Down), None);
}
