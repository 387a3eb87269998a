use hft_bot::decimal::Decimal;
use hft_bot::domain::market::{BookTop, MarketSnapshot};
use hft_bot::domain::order::OrderConstraints;
use hft_bot::domain::pnl::PositionSnapshot;
use hft_bot::domain::round_state::RoundState;
use hft_bot::domain::state::RobotState;
use hft_bot::domain::types::{Price, Side};
use hft_bot::hedging::circuit_breaker::CircuitBreakerStrategy;
use hft_bot::hedging::config::StrategyConfig;
use hft_bot::hedging::context::{
    DecisionContext, PhaseStrategy, PoolBudgets, Trigger,
};

fn book(bid: Price, ask: Price) -> BookTop {
    BookTop {
        best_bid: Some(bid),
        best_ask: Some(ask),
        last_trade: None,
    }
}

struct Builder {
    market: MarketSnapshot,
    now: u64,
    has_position: bool,
    round_state: RoundState,
}

impl Builder {
    fn new() -> Self {
        let mut round = RoundState::new();
        round.state = RobotState::CircuitBreaker;
        round.main_field = Some(Side::Up);
        Self {
            market: MarketSnapshot {
                up: book(Decimal::new(40, 2), Decimal::new(41, 2)),
                down: book(Decimal::new(58, 2), Decimal::new(60, 2)),
            },
            now: 10_000,
            has_position: true,
            round_state: round,
        }
    }

    fn build(&self) -> DecisionContext<'_> {
        let position = if self.has_position {
            PositionSnapshot {
                up_qty: Decimal::new(100, 0),
                down_qty: Decimal::new(50, 0),
                up_cost: Decimal::new(40, 0),
                down_cost: Decimal::new(29, 0),
            }
        } else {
            PositionSnapshot {
                up_qty: Decimal::new(0, 0),
                down_qty: Decimal::new(0, 0),
                up_cost: Decimal::new(0, 0),
                down_cost: Decimal::new(0, 0),
            }
        };
        DecisionContext {
            total_capital: Decimal::new(1000, 0),
            trigger: Trigger::BookUpdate,
            now: self.now,
            time_to_expiry: 600_000,
            position,
            market: self.market,
            pools: PoolBudgets {
                grid_maker_total: Decimal::new(150, 0),
                grid_maker_remaining: Decimal::new(150, 0),
                dynamic_remaining: Decimal::new(225, 0),
                ev_remaining: Decimal::new(375, 0),
                max_exposure: Decimal::new(1125, 1),
            },
            active_orders: &[],
            constraints: OrderConstraints::default(),
            round: &self.round_state,
        }
    }
}

fn strat() -> CircuitBreakerStrategy {
    CircuitBreakerStrategy::new(StrategyConfig::default())
}

#[test]
fn stays_when_spread_still_wide() {
    let mut b = Builder::new();
    b.market = MarketSnapshot {
        up: book(Decimal::new(40, 2), Decimal::new(41, 2)),
        down: book(Decimal::new(20, 2), Decimal::new(55, 2)),
    };
    b.round_state.calm_since = None;
    assert!(strat().decide(&b.build()).is_skip());
}

#[test]
fn stays_when_calm_not_long_enough() {
    let mut b = Builder::new();
    b.round_state.calm_since = Some(8_000);
    b.now = 10_000;
    assert!(strat().decide(&b.build()).is_skip());
}

#[test]
fn recovers_after_five_seconds_calm() {
    let mut b = Builder::new();
    b.round_state.calm_since = Some(4_000);
    b.now = 10_000;
    b.has_position = true;
    let d = strat().decide(&b.build());
    assert_eq!(d.transition, Some(RobotState::Pairing));
}

#[test]
fn recovers_to_building_when_no_position() {
    let mut b = Builder::new();
    b.round_state.calm_since = Some(4_000);
    b.now = 10_000;
    b.has_position = false;
    let d = strat().decide(&b.build());
    assert_eq!(d.transition, Some(RobotState::Building));
}
