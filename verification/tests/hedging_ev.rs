use hft_bot::decimal::Decimal;
use hft_bot::domain::market::{BookTop, MarketSnapshot};
use hft_bot::domain::order::{OrderConstraints, TimeInForce};
use hft_bot::domain::pnl::PositionSnapshot;
use hft_bot::domain::round_state::RoundState;
use hft_bot::domain::state::RobotState;
use hft_bot::domain::types::{OrderRole, Price, Side};
use hft_bot::hedging::config::StrategyConfig;
use hft_bot::hedging::context::{
    CommandIntent, DecisionContext, PhaseStrategy, PoolBudgets, Trigger,
};
use hft_bot::hedging::ev_hedge::EvHedgeStrategy;

fn book(bid: Price, ask: Price) -> BookTop {
    BookTop {
        best_bid: Some(bid),
        best_ask: Some(ask),
        last_trade: None,
    }
}

struct Builder {
    position: PositionSnapshot,
    market: MarketSnapshot,
    now: u64,
    ev_remaining: Decimal,
    round_state: RoundState,
}

impl Builder {
    fn new() -> Self {
        let mut round = RoundState::new();
        round.state = RobotState::EvHedge;
        round.main_field = Some(Side::Up);
        Self {
            position: PositionSnapshot {
                up_qty: Decimal::new(40, 0),
                down_qty: Decimal::new(50, 0),
                up_cost: Decimal::new(50, 0),
                down_cost: Decimal::new(50, 0),
            },
            market: MarketSnapshot {
                up: book(Decimal::new(19, 2), Decimal::new(21, 2)),
                down: book(Decimal::new(79, 2), Decimal::new(81, 2)),
            },
            now: 10_000,
            ev_remaining: Decimal::new(375, 0),
            round_state: round,
        }
    }

    fn build(&self) -> DecisionContext<'_> {
        DecisionContext {
            total_capital: Decimal::new(1000, 0),
            trigger: Trigger::BookUpdate,
            now: self.now,
            time_to_expiry: 200_000,
            position: self.position,
            market: self.market,
            pools: PoolBudgets {
                grid_maker_total: Decimal::new(150, 0),
                grid_maker_remaining: Decimal::new(150, 0),
                dynamic_remaining: Decimal::new(225, 0),
                ev_remaining: self.ev_remaining,
                max_exposure: Decimal::new(1125, 1),
            },
            active_orders: &[],
            constraints: OrderConstraints::default(),
            round: &self.round_state,
        }
    }
}

fn strat() -> EvHedgeStrategy {
    EvHedgeStrategy::new(StrategyConfig::default())
}

#[test]
fn fires_ioc_taker_in_sweet_band() {
    let d = strat().decide(&Builder::new().build());
    let order = d.commands.iter().find_map(|c| match c {
        CommandIntent::Submit(o) => Some(o),
        _ => None,
    });
    let o = order.expect("甜区内应开火");
    assert_eq!(o.side, Side::Down);
    assert_eq!(o.price, Decimal::new(85, 2));
    assert_eq!(o.role, OrderRole::Taker);
    assert_eq!(o.time_in_force, TimeInForce::Ioc);
}

#[test]
fn skips_below_sweet_band() {
    let mut b = Builder::new();
    b.market = MarketSnapshot {
        up: book(Decimal::new(31, 2), Decimal::new(33, 2)),
        down: book(Decimal::new(67, 2), Decimal::new(69, 2)),
    };
    let d = strat().decide(&b.build());
    assert!(d.is_skip());
}

#[test]
fn skips_above_sweet_band() {
    let mut b = Builder::new();
    b.market = MarketSnapshot {
        up: book(Decimal::new(9, 2), Decimal::new(11, 2)),
        down: book(Decimal::new(89, 2), Decimal::new(91, 2)),
    };
    let d = strat().decide(&b.build());
    assert!(d.is_skip());
}

#[test]
fn reversal_exit_when_prob_below_055() {
    let mut b = Builder::new();
    b.market = MarketSnapshot {
        up: book(Decimal::new(47, 2), Decimal::new(49, 2)),
        down: book(Decimal::new(51, 2), Decimal::new(53, 2)),
    };
    let d = strat().decide(&b.build());
    assert!(d.commands.contains(&CommandIntent::CancelAll));
    assert_eq!(d.transition, Some(RobotState::SettlementWait));
}

#[test]
fn ev_positive_exits_to_settlement() {
    let mut b = Builder::new();
    b.position = PositionSnapshot {
        up_qty: Decimal::new(200, 0),
        down_qty: Decimal::new(200, 0),
        up_cost: Decimal::new(50, 0),
        down_cost: Decimal::new(50, 0),
    };
    let d = strat().decide(&b.build());
    assert!(d.commands.contains(&CommandIntent::CancelAll));
    assert_eq!(d.transition, Some(RobotState::SettlementWait));
}

#[test]
fn cooldown_blocks_fire() {
    let mut b = Builder::new();
    b.round_state.last_hedge_at = Some(9_000);
    b.now = 10_000;
    let d = strat().decide(&b.build());
    assert!(d.is_skip());
}

#[test]
fn funds_exhausted_exits() {
    let mut b = Builder::new();
    b.ev_remaining = Decimal::new(1, 2);
    let d = strat().decide(&b.build());
    assert!(d.commands.contains(&CommandIntent::CancelAll));
    assert_eq!(d.transition, Some(RobotState::SettlementWait));
}

#[test]
fn step_is_25_percent_of_remaining() {
    let d = strat().decide(&Builder::new().build());
    let qty = d.commands.iter().find_map(|c| match c {
        CommandIntent::Submit(o) => Some(o.qty),
        _ => None,
    });
    let expected = OrderConstraints::default().quantize_qty(Decimal::new(9375, 2).over(Decimal::new(85, 2)));
    assert_eq!(qty, Some(expected));
}

#[test]
fn funds_exhausted_uses_price_cap_not_best_ask() {
    let mut b = Builder::new();
    b.market = MarketSnapshot {
        up: BookTop::default(),
        down: BookTop::default(),
    };
    let d = strat().decide(&b.build());
    assert!(!d.commands.contains(&CommandIntent::CancelAll));
    assert_ne!(d.transition, Some(RobotState::SettlementWait));
}

#[test]
fn no_fire_when_ask_above_cap() {
    let mut b = Builder::new();
    b.market = MarketSnapshot {
        up: book(Decimal::new(10, 2), Decimal::new(28, 2)),
        down: book(Decimal::new(72, 2), Decimal::new(90, 2)),
    };
    let d = strat().decide(&b.build());
    assert!(
        !d.commands
            .iter()
            .any(|c| matches!(c, CommandIntent::Submit(_)))
    );
    assert!(d.is_skip());
}
