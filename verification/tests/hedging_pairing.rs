use hft_bot::decimal::Decimal;
use hft_bot::domain::market::{BookTop, MarketSnapshot};
use hft_bot::domain::order::{OrderConstraints, OrderDirection, OrderId};
use hft_bot::domain::pnl::PositionSnapshot;
use hft_bot::domain::round_state::RoundState;
use hft_bot::domain::state::RobotState;
use hft_bot::domain::types::{OrderRole, Price, Qty, Side};
use hft_bot::hedging::config::StrategyConfig;
use hft_bot::hedging::context::{
    ActiveOrder, CommandIntent, DecisionContext, PhaseStrategy, PoolBudgets, Trigger,
};
use hft_bot::hedging::pairing::PairingStrategy;

fn book(bid: Option<Price>, ask: Option<Price>) -> BookTop {
    BookTop {
        best_bid: bid,
        best_ask: ask,
        last_trade: None,
    }
}

struct Builder {
    trigger: Trigger,
    position: PositionSnapshot,
    market: MarketSnapshot,
    active: Vec<ActiveOrder>,
    tte: u64,
    round_state: RoundState,
}

impl Builder {
    fn new() -> Self {
        let mut round = RoundState::new();
        round.state = RobotState::Pairing;
        round.main_field = Some(Side::Up);
        Self {
            trigger: Trigger::Fill { side: Side::Up },
            position: PositionSnapshot {
                up_qty: Decimal::new(100, 0),
                down_qty: Decimal::new(50, 0),
                up_cost: Decimal::new(40, 0),
                down_cost: Decimal::new(29, 0),
            },
            market: MarketSnapshot {
                up: book(Some(Decimal::new(39, 2)), Some(Decimal::new(41, 2))),
                down: book(Some(Decimal::new(57, 2)), Some(Decimal::new(60, 2))),
            },
            active: Vec::new(),
            tte: 600_000,
            round_state: round,
        }
    }

    fn build(&self) -> DecisionContext<'_> {
        DecisionContext {
            total_capital: Decimal::new(1000, 0),
            trigger: self.trigger,
            now: 0,
            time_to_expiry: self.tte,
            position: self.position,
            market: self.market,
            pools: PoolBudgets {
                grid_maker_total: Decimal::new(150, 0),
                grid_maker_remaining: Decimal::new(150, 0),
                dynamic_remaining: Decimal::new(225, 0),
                ev_remaining: Decimal::new(375, 0),
                max_exposure: Decimal::new(1125, 1),
            },
            active_orders: &self.active,
            constraints: OrderConstraints::default(),
            round: &self.round_state,
        }
    }
}

fn strat() -> PairingStrategy {
    PairingStrategy::new(StrategyConfig::default())
}

fn pair_order(id: u64, price: Price, qty: Qty) -> ActiveOrder {
    ActiveOrder {
        order_id: OrderId(id),
        side: Side::Down,
        direction: OrderDirection::Buy,
        price,
        qty,
        role: OrderRole::Maker,
    }
}

#[test]
fn main_fill_posts_follow_and_pair() {
    let b = Builder::new();
    let d = strat().decide(&b.build());
    let submits: Vec<_> = d
        .commands
        .iter()
        .filter_map(|c| match c {
            CommandIntent::Submit(o) => Some(o),
            _ => None,
        })
        .collect();
    assert!(submits.iter().any(|o| o.side == Side::Up));
    assert!(submits.iter().any(|o| o.side == Side::Down));
}

#[test]
fn pair_price_takes_min_of_profit_and_ask_minus_one() {
    let b = Builder::new();
    let ctx = b.build();
    assert_eq!(strat().pair_price(&ctx, Side::Up), Some(Decimal::new(58, 2)));
}

#[test]
fn pair_qty_is_alignment_gap() {
    let b = Builder::new();
    let d = strat().decide(&b.build());
    let pair = d.commands.iter().find_map(|c| match c {
        CommandIntent::Submit(o) if o.side == Side::Down => Some(o),
        _ => None,
    });
    assert_eq!(pair.unwrap().qty, Decimal::new(50, 0));
}

#[test]
fn profit_lock_cancels_all_and_settles() {
    let mut b = Builder::new();
    b.position = PositionSnapshot {
        up_qty: Decimal::new(100, 0),
        down_qty: Decimal::new(100, 0),
        up_cost: Decimal::new(45, 0),
        down_cost: Decimal::new(45, 0),
    };
    let d = strat().decide(&b.build());
    assert!(d.commands.contains(&CommandIntent::CancelAll));
    assert_eq!(d.transition, Some(RobotState::SettlementWait));
}

#[test]
fn settle_breach_enters_dynamic_hedge() {
    let mut b = Builder::new();
    b.position = PositionSnapshot {
        up_qty: Decimal::new(100, 0),
        down_qty: Decimal::new(0, 0),
        up_cost: Decimal::new(40, 0),
        down_cost: Decimal::new(0, 0),
    };
    b.trigger = Trigger::BookUpdate;
    let d = strat().decide(&b.build());
    assert_eq!(d.transition, Some(RobotState::DynamicHedge { double_negative_count: 0 }));
}

#[test]
fn float_breach_enters_dynamic_hedge() {
    let mut b = Builder::new();
    b.position = PositionSnapshot {
        up_qty: Decimal::new(100, 0),
        down_qty: Decimal::new(0, 0),
        up_cost: Decimal::new(50, 0),
        down_cost: Decimal::new(0, 0),
    };
    b.market = MarketSnapshot {
        up: book(Some(Decimal::new(25, 2)), Some(Decimal::new(27, 2))),
        down: book(Some(Decimal::new(71, 2)), Some(Decimal::new(73, 2))),
    };
    let d = strat().decide(&b.build());
    assert_eq!(d.transition, Some(RobotState::DynamicHedge { double_negative_count: 0 }));
}

#[test]
fn pairing_side_fill_does_not_recompute() {
    let mut b = Builder::new();
    b.trigger = Trigger::Fill { side: Side::Down };
    let d = strat().decide(&b.build());
    assert!(d.is_skip());
}

#[test]
fn fine_management_keeps_order_when_price_close() {
    let mut b = Builder::new();
    b.active = vec![pair_order(7, Decimal::new(58, 2), Decimal::new(50, 0))];
    let d = strat().decide(&b.build());
    assert!(
        !d.commands
            .iter()
            .any(|c| matches!(c, CommandIntent::Cancel(_)))
    );
    assert!(
        !d.commands
            .iter()
            .any(|c| matches!(c, CommandIntent::Submit(o) if o.side == Side::Down))
    );
}

#[test]
fn fine_management_appends_when_gap_grows() {
    let mut b = Builder::new();
    b.active = vec![pair_order(7, Decimal::new(58, 2), Decimal::new(30, 0))];
    let d = strat().decide(&b.build());
    let appended = d.commands.iter().find_map(|c| match c {
        CommandIntent::Submit(o) if o.side == Side::Down => Some(o),
        _ => None,
    });
    let a = appended.expect("应追加增量配对单");
    assert_eq!(a.price, Decimal::new(58, 2));
    assert_eq!(a.qty, Decimal::new(20, 0));
    assert!(
        !d.commands
            .iter()
            .any(|c| matches!(c, CommandIntent::Cancel(_)))
    );
}

#[test]
fn fine_management_recancels_when_price_far() {
    let mut b = Builder::new();
    b.active = vec![pair_order(7, Decimal::new(50, 2), Decimal::new(50, 0))];
    let d = strat().decide(&b.build());
    assert!(d.commands.contains(&CommandIntent::CancelSide(Side::Down)));
    assert!(d.commands.iter().any(
        |c| matches!(c, CommandIntent::Submit(o) if o.side == Side::Down && o.price == Decimal::new(58, 2))
    ));
}

#[test]
fn fine_management_aggregates_multiple_pair_orders() {
    let mut b = Builder::new();
    b.active = vec![
        pair_order(7, Decimal::new(58, 2), Decimal::new(30, 0)),
        pair_order(8, Decimal::new(58, 2), Decimal::new(20, 0)),
    ];
    let d = strat().decide(&b.build());
    assert!(
        !d.commands
            .iter()
            .any(|c| matches!(c, CommandIntent::Submit(o) if o.side == Side::Down))
    );
}

#[test]
fn fine_management_cancel_side_clears_all_zombies() {
    let mut b = Builder::new();
    b.active = vec![
        pair_order(7, Decimal::new(50, 2), Decimal::new(30, 0)),
        pair_order(8, Decimal::new(50, 2), Decimal::new(20, 0)),
    ];
    let d = strat().decide(&b.build());
    assert!(d.commands.contains(&CommandIntent::CancelSide(Side::Down)));
    assert!(
        !d.commands
            .iter()
            .any(|c| matches!(c, CommandIntent::Cancel(_)))
    );
}

#[test]
fn frozen_main_field_skips_follow() {
    let mut b = Builder::new();
    b.round_state.main_field_frozen = true;
    let d = strat().decide(&b.build());
    assert!(
        !d.commands
            .iter()
            .any(|c| matches!(c, CommandIntent::Submit(o) if o.side == Side::Up))
    );
}

#[test]
fn pool_exhausted_returns_skip() {
    let b = Builder::new();
    let d = strat().decide(&DecisionContext {
        pools: PoolBudgets {
            grid_maker_total: Decimal::new(150, 0),
            grid_maker_remaining: Decimal::new(5, 1),
            dynamic_remaining: Decimal::new(225, 0),
            ev_remaining: Decimal::new(375, 0),
            max_exposure: Decimal::new(1125, 1),
        },
        ..b.build()
    });
    assert!(d.is_skip());
}

#[test]
fn follow_uses_lowest_active_not_avg() {
    let mut b = Builder::new();
    b.active = vec![ActiveOrder {
        order_id: OrderId(1),
        side: Side::Up,
        direction: OrderDirection::Buy,
        price: Decimal::new(38, 2),
        qty: Decimal::new(10, 0),
        role: OrderRole::Maker,
    }];
    let d = strat().decide(&b.build());
    let follow = d.commands.iter().find_map(|c| match c {
        CommandIntent::Submit(o) if o.side == Side::Up => Some(o),
        _ => None,
    });
    let f = follow.expect("应有续挂追低单");
    assert_eq!(f.price, Decimal::new(37, 2));
}

#[test]
fn follow_skips_when_price_already_occupied() {
    let cfg = StrategyConfig {
        follow_offset: Decimal::new(0, 0),
        ..StrategyConfig::default()
    };
    let s = PairingStrategy::new(cfg);

    let mut b = Builder::new();
    b.active = vec![ActiveOrder {
        order_id: OrderId(1),
        side: Side::Up,
        direction: OrderDirection::Buy,
        price: Decimal::new(39, 2),
        qty: Decimal::new(10, 0),
        role: OrderRole::Maker,
    }];
    let d = s.decide(&b.build());
    assert!(
        !d.commands
            .iter()
            .any(|c| matches!(c, CommandIntent::Submit(o) if o.side == Side::Up))
    );
}

#[test]
fn no_pair_price_without_an_average_or_an_ask() {
    let mut b = Builder::new();
    b.market.down.best_ask = None;
    assert_eq!(strat().pair_price(&b.build(), Side::Up), None);
    let d = strat().decide(&b.build());
    assert!(!d
        .commands
        .iter()
        .any(|c| matches!(c, CommandIntent::Submit(o) if o.side == Side::Down)));

    let mut b = Builder::new();
    b.position.up_qty = Decimal::zero();
    b.position.up_cost = Decimal::zero();
    assert_eq!(strat().pair_price(&b.build(), Side::Up), None);
}

#[test]
fn pairs_stay_at_one_price_within_the_gap() {
    for price in [50, 57, 58, 59] {
        for held in [0, 10, 49, 50, 80] {
            let mut b = Builder::new();
            b.active = vec![
                pair_order(1, Decimal::new(price, 2), Decimal::new(held, 0)),
                pair_order(2, Decimal::new(price, 2), Decimal::new(1, 0)),
            ];
            let d = strat().decide(&b.build());
            let cancelled = d.commands.contains(&CommandIntent::CancelSide(Side::Down));
            let placed: Vec<_> = d
                .commands
                .iter()
                .filter_map(|c| match c {
                    CommandIntent::Submit(o) if o.side == Side::Down => Some(o),
                    _ => None,
                })
                .collect();
            assert!(placed.len() <= 1);
            assert_eq!(cancelled, price == 50);
            for o in placed {
                let kept = if cancelled { 0 } else { held + 1 };
                assert!(cancelled || o.price == Decimal::new(price, 2));
                assert!(o.qty.plus(Decimal::new(kept, 0)).le(Decimal::new(50, 0)));
            }
        }
    }
}
