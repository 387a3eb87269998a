use hft_bot::decimal::Decimal;
use hft_bot::domain::market::{BookTop, MarketSnapshot};
use hft_bot::domain::order::{OrderConstraints, OrderDirection, OrderId};
use hft_bot::domain::pnl::PositionSnapshot;
use hft_bot::domain::round_state::RoundState;
use hft_bot::domain::state::RobotState;
use hft_bot::domain::types::{OrderRole, Price, Side};
use hft_bot::hedging::config::StrategyConfig;
use hft_bot::hedging::context::{
    ActiveOrder, CommandIntent, DecisionContext, PhaseStrategy, PoolBudgets, Trigger,
};
use hft_bot::hedging::dynamic_hedge::DynamicHedgeStrategy;

fn book(bid: Option<Price>, ask: Option<Price>) -> BookTop {
    BookTop {
        best_bid: bid,
        best_ask: ask,
        last_trade: None,
    }
}

struct Builder {
    position: PositionSnapshot,
    market: MarketSnapshot,
    active: Vec<ActiveOrder>,
    now: u64,
    tte: u64,
    dynamic_remaining: Decimal,
    round_state: RoundState,
}

impl Builder {
    fn new() -> Self {
        let mut round = RoundState::new();
        round.state = RobotState::DynamicHedge { double_negative_count: 0 };
        round.main_field = Some(Side::Up);
        Self {
            position: PositionSnapshot {
                up_qty: Decimal::new(100, 0),
                down_qty: Decimal::new(0, 0),
                up_cost: Decimal::new(30, 0),
                down_cost: Decimal::new(0, 0),
            },
            market: MarketSnapshot {
                up: book(Some(Decimal::new(28, 2)), Some(Decimal::new(30, 2))),
                down: book(Some(Decimal::new(68, 2)), Some(Decimal::new(70, 2))),
            },
            active: Vec::new(),
            now: 10_000,
            tte: 600_000,
            dynamic_remaining: Decimal::new(225, 0),
            round_state: round,
        }
    }

    fn build(&self) -> DecisionContext<'_> {
        DecisionContext {
            total_capital: Decimal::new(1000, 0),
            trigger: Trigger::Fill { side: Side::Up },
            now: self.now,
            time_to_expiry: self.tte,
            position: self.position,
            market: self.market,
            pools: PoolBudgets {
                grid_maker_total: Decimal::new(150, 0),
                grid_maker_remaining: Decimal::new(150, 0),
                dynamic_remaining: self.dynamic_remaining,
                ev_remaining: Decimal::new(375, 0),
                max_exposure: Decimal::new(1125, 1),
            },
            active_orders: &self.active,
            constraints: OrderConstraints::default(),
            round: &self.round_state,
        }
    }
}

fn strat() -> DynamicHedgeStrategy {
    DynamicHedgeStrategy::new(StrategyConfig::default())
}

#[test]
fn weaves_on_target_side_down() {
    let d = strat().decide(&Builder::new().build());
    let submits: Vec<_> = d
        .commands
        .iter()
        .filter_map(|c| match c {
            CommandIntent::Submit(o) => Some(o),
            _ => None,
        })
        .collect();
    assert!(!submits.is_empty());
    assert!(submits.iter().all(|o| o.side == Side::Down));
}

#[test]
fn empty_side_weave_not_upgrade_ev() {
    let d = strat().decide(&Builder::new().build());
    assert_ne!(d.transition, Some(RobotState::EvHedge));
}

#[test]
fn micro_escape_settles() {
    let mut b = Builder::new();
    b.position = PositionSnapshot {
        up_qty: Decimal::new(100, 0),
        down_qty: Decimal::new(100, 0),
        up_cost: Decimal::new(45, 0),
        down_cost: Decimal::new(45, 0),
    };
    let d = strat().decide(&b.build());
    assert!(d.commands.contains(&CommandIntent::CancelAll));
    assert_eq!(d.transition, Some(RobotState::SettlementWait));
}

#[test]
fn funds_exhausted_sticks_skip() {
    let mut b = Builder::new();
    b.round_state.funds_exhausted = true;
    let d = strat().decide(&b.build());
    assert!(d.is_skip());
}

#[test]
fn double_negative_twice_upgrades_ev_when_tte_small() {
    let mut b = Builder::new();
    b.round_state.double_negative_count = 1;
    b.round_state.was_double_negative = false;
    b.position = PositionSnapshot {
        up_qty: Decimal::new(40, 0),
        down_qty: Decimal::new(50, 0),
        up_cost: Decimal::new(50, 0),
        down_cost: Decimal::new(50, 0),
    };
    b.tte = 200_000;
    let d = strat().decide(&b.build());
    assert!(d.commands.contains(&CommandIntent::CancelAll));
    assert_eq!(d.transition, Some(RobotState::EvHedge));
}

#[test]
fn double_negative_twice_upgrades_ev_regardless_of_tte() {
    let mut b = Builder::new();
    b.round_state.double_negative_count = 1;
    b.round_state.was_double_negative = false;
    b.position = PositionSnapshot {
        up_qty: Decimal::new(40, 0),
        down_qty: Decimal::new(50, 0),
        up_cost: Decimal::new(50, 0),
        down_cost: Decimal::new(50, 0),
    };
    b.tte = 600_000;
    let d = strat().decide(&b.build());
    assert!(d.commands.contains(&CommandIntent::CancelAll));
    assert_eq!(d.transition, Some(RobotState::EvHedge));
}

#[test]
fn continues_weaving_when_pnl_ok_but_gap_large() {
    let mut b = Builder::new();
    b.position = PositionSnapshot {
        up_qty: Decimal::new(88, 0),
        down_qty: Decimal::new(100, 0),
        up_cost: Decimal::new(45, 0),
        down_cost: Decimal::new(45, 0),
    };
    let d = strat().decide(&b.build());
    assert!(
        d.commands
            .iter()
            .any(|c| matches!(c, CommandIntent::Submit(_)))
    );
}

#[test]
fn stops_when_pnl_repaired_and_gap_flat() {
    let mut b = Builder::new();
    b.position = PositionSnapshot {
        up_qty: Decimal::new(98, 0),
        down_qty: Decimal::new(100, 0),
        up_cost: Decimal::new(45, 0),
        down_cost: Decimal::new(45, 0),
    };
    let d = strat().decide(&b.build());
    assert!(
        !d.commands
            .iter()
            .any(|c| matches!(c, CommandIntent::Submit(_)))
    );
}

#[test]
fn cooldown_blocks_new_step() {
    let mut b = Builder::new();
    b.round_state.last_hedge_at = Some(9_500);
    b.now = 10_000;
    let d = strat().decide(&b.build());
    assert!(
        !d.commands
            .iter()
            .any(|c| matches!(c, CommandIntent::Submit(_)))
    );
}

#[test]
fn exposure_breach_idles_not_upgrade_ev() {
    let mut b = Builder::new();
    b.position = PositionSnapshot {
        up_qty: Decimal::new(500, 0),
        down_qty: Decimal::new(0, 0),
        up_cost: Decimal::new(150, 0),
        down_cost: Decimal::new(0, 0),
    };
    b.active = vec![ActiveOrder {
        order_id: OrderId(1),
        side: Side::Down,
        direction: OrderDirection::Buy,
        price: Decimal::new(69, 2),
        qty: Decimal::new(170, 0),
        role: OrderRole::Maker,
    }];
    let d = strat().decide(&b.build());
    assert_ne!(d.transition, Some(RobotState::EvHedge));
    assert!(
        !d.commands
            .iter()
            .any(|c| matches!(c, CommandIntent::Submit(_)))
    );
}

#[test]
fn cancels_deep_sea_orders() {
    let mut b = Builder::new();
    b.active = vec![ActiveOrder {
        order_id: OrderId(9),
        side: Side::Down,
        direction: OrderDirection::Buy,
        price: Decimal::new(50, 2),
        qty: Decimal::new(50, 0),
        role: OrderRole::Maker,
    }];
    let d = strat().decide(&b.build());
    assert!(d.commands.contains(&CommandIntent::Cancel(OrderId(9))));
}

#[test]
fn cap_caps_at_gap_when_budget_rich() {
    let b = Builder::new();
    let ctx = b.build();
    let cmds = strat().weave(&ctx, Side::Down, Decimal::new(10, 0));
    assert_eq!(cmds.len(), 1);
    if let CommandIntent::Submit(o) = &cmds[0] {
        assert_eq!(o.qty, Decimal::new(10, 0));
        assert_eq!(o.price, Decimal::new(69, 2));
    } else {
        panic!();
    }
}

#[test]
fn weave_three_rungs_when_budget_tight() {
    let b = Builder::new();
    let ctx = b.build();
    let cmds = strat().weave(&ctx, Side::Down, Decimal::new(10000, 0));
    assert_eq!(cmds.len(), 3);
}

#[test]
fn weave_appends_increment_at_occupied_price() {
    let mut b = Builder::new();
    b.active = vec![
        ActiveOrder {
            order_id: OrderId(1),
            side: Side::Down,
            direction: OrderDirection::Buy,
            price: Decimal::new(69, 2),
            qty: Decimal::new(10, 0),
            role: OrderRole::Maker,
        },
        ActiveOrder {
            order_id: OrderId(2),
            side: Side::Down,
            direction: OrderDirection::Buy,
            price: Decimal::new(68, 2),
            qty: Decimal::new(10, 0),
            role: OrderRole::Maker,
        },
    ];
    let ctx = b.build();
    let cmds = strat().weave(&ctx, Side::Down, Decimal::new(10000, 0));
    assert_eq!(cmds.len(), 1);
    if let CommandIntent::Submit(o) = &cmds[0] {
        assert_eq!(o.price, Decimal::new(67, 2));
    } else {
        panic!();
    }
}

#[test]
fn weave_appends_partial_increment() {
    let mut b = Builder::new();
    b.active = vec![ActiveOrder {
        order_id: OrderId(1),
        side: Side::Down,
        direction: OrderDirection::Buy,
        price: Decimal::new(69, 2),
        qty: Decimal::new(3, 0),
        role: OrderRole::Maker,
    }];
    let ctx = b.build();
    let cmds = strat().weave(&ctx, Side::Down, Decimal::new(10000, 0));
    assert_eq!(cmds.len(), 3);
    if let CommandIntent::Submit(o) = &cmds[0] {
        assert_eq!(o.price, Decimal::new(69, 2));
        assert!(o.qty.gt(Decimal::new(0, 0)) && o.qty.lt(Decimal::new(10, 0)));
    } else {
        panic!();
    }
}

#[test]
fn exposure_counts_target_held_cost() {
    let mut b = Builder::new();
    b.position = PositionSnapshot {
        up_qty: Decimal::new(200, 0),
        down_qty: Decimal::new(190, 0),
        up_cost: Decimal::new(124, 0),
        down_cost: Decimal::new(1102, 1),
    };
    let d = strat().decide(&b.build());
    assert!(
        !d.commands
            .iter()
            .any(|c| matches!(c, CommandIntent::Submit(_)))
    );
}

#[test]
fn idle_path_writes_back_edge_state() {
    let mut b = Builder::new();
    b.round_state.double_negative_count = 0;
    b.round_state.was_double_negative = false;
    b.position = PositionSnapshot {
        up_qty: Decimal::new(95, 0),
        down_qty: Decimal::new(96, 0),
        up_cost: Decimal::new(50, 0),
        down_cost: Decimal::new(50, 0),
    };
    let d = strat().decide(&b.build());
    assert_eq!(d.double_negative_update, Some((1, true)));
}
