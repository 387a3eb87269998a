use hft_bot::decimal::Decimal;
use hft_bot::domain::market::{BookTop, MarketSnapshot};
use hft_bot::domain::order::{OrderConstraints, OrderDirection, OrderId};
use hft_bot::domain::phase::Phase;
use hft_bot::domain::types::{OrderRole, Side};
use hft_bot::inventory::Inventory;
use hft_bot::strategy::cycling::inventory_allows_buy;
use hft_bot::strategy::{
    ActiveOrder, CommandIntent, CyclingStrategy, DecisionContext, StrategyConfig, Trigger,
};

fn default_config() -> &'static StrategyConfig {
    Box::leak(Box::new(StrategyConfig::default()))
}

fn make_market(up_bid: Decimal, dn_bid: Decimal) -> MarketSnapshot {
    MarketSnapshot {
        up: BookTop {
            best_bid: Some(up_bid),
            best_ask: Some(up_bid.plus(Decimal::new(1, 2))),
            last_trade: None,
        },
        down: BookTop {
            best_bid: Some(dn_bid),
            best_ask: Some(dn_bid.plus(Decimal::new(1, 2))),
            last_trade: None,
        },
    }
}

fn ctx_with_inventory<'a>(
    inventory: &'a Inventory,
    active_orders: &'a [ActiveOrder],
    market: MarketSnapshot,
    progress: Decimal,
) -> DecisionContext<'a> {
    DecisionContext {
        trigger: Trigger::BookUpdate,
        progress,
        market,
        inventory,
        active_orders,
        free_cash: Decimal::new(1000, 0),
        constraints: OrderConstraints::default(),
        config: default_config(),
    }
}

#[test]
fn submits_take_profit_sell_when_bid_exceeds_threshold() {
    let mut inv = Inventory::new();
    let lot_id = inv.open_lot(Side::Up, Decimal::new(40, 2), Decimal::new(10, 0), Decimal::new(400, 2), 100);

    let market = make_market(Decimal::new(46, 2), Decimal::new(54, 2));
    let ctx = ctx_with_inventory(&inv, &[], market, Decimal::new(10, 2));
    let strategy = CyclingStrategy;
    let decision = strategy.decide(&ctx);

    let sell_cmds: Vec<_> = decision
        .commands
        .iter()
        .filter(|c| matches!(c, CommandIntent::SubmitSell { .. }))
        .collect();
    assert!(!sell_cmds.is_empty());
    match sell_cmds[0] {
        CommandIntent::SubmitSell {
            lot_id: id,
            side,
            price,
            qty,
            role,
            ..
        } => {
            assert_eq!(*id, lot_id);
            assert_eq!(*side, Side::Up);
            assert_eq!(*price, Decimal::new(45, 2));
            assert_eq!(*qty, Decimal::new(10, 0));
            assert_eq!(*role, OrderRole::Maker);
        }
        _ => panic!(),
    }
}

#[test]
fn submits_sell_immediately_regardless_of_bid() {
    let mut inv = Inventory::new();
    let lot_id = inv.open_lot(Side::Up, Decimal::new(40, 2), Decimal::new(10, 0), Decimal::new(400, 2), 100);

    let market = make_market(Decimal::new(44, 2), Decimal::new(54, 2));
    let ctx = ctx_with_inventory(&inv, &[], market, Decimal::new(10, 2));
    let strategy = CyclingStrategy;
    let decision = strategy.decide(&ctx);

    let sell_cmds: Vec<_> = decision
        .commands
        .iter()
        .filter(|c| {
            matches!(
                c,
                CommandIntent::SubmitSell {
                    role: OrderRole::Maker,
                    ..
                }
            )
        })
        .collect();
    assert_eq!(sell_cmds.len(), 1);
    match sell_cmds[0] {
        CommandIntent::SubmitSell { lot_id: id, price, .. } => {
            assert_eq!(*id, lot_id);
            assert_eq!(*price, Decimal::new(45, 2));
        }
        _ => panic!(),
    }
}

#[test]
fn does_not_duplicate_sell_for_same_lot() {
    let mut inv = Inventory::new();
    let lot_id = inv.open_lot(Side::Up, Decimal::new(40, 2), Decimal::new(10, 0), Decimal::new(400, 2), 100);

    let existing = vec![ActiveOrder {
        order_id: OrderId(99),
        side: Side::Up,
        direction: OrderDirection::Sell,
        price: Decimal::new(45, 2),
        qty: Decimal::new(10, 0),
        role: OrderRole::Maker,
        lot_id: Some(lot_id),
    }];

    let market = make_market(Decimal::new(46, 2), Decimal::new(54, 2));
    let ctx = ctx_with_inventory(&inv, &existing, market, Decimal::new(10, 2));
    let strategy = CyclingStrategy;
    let decision = strategy.decide(&ctx);

    let sell_cmds: Vec<_> = decision
        .commands
        .iter()
        .filter(|c| matches!(c, CommandIntent::SubmitSell { .. }))
        .collect();
    assert!(sell_cmds.is_empty());
}

#[test]
fn transitions_to_harvesting_at_harvest_start() {
    let inv = Inventory::new();
    let market = make_market(Decimal::new(50, 2), Decimal::new(50, 2));
    let ctx = ctx_with_inventory(&inv, &[], market, Decimal::new(83, 2));
    let strategy = CyclingStrategy;
    let decision = strategy.decide(&ctx);
    assert_eq!(decision.transition, Some(Phase::Harvesting));
}

#[test]
fn submits_buy_when_no_active_buy() {
    let inv = Inventory::new();
    let market = make_market(Decimal::new(55, 2), Decimal::new(44, 2));
    let ctx = ctx_with_inventory(&inv, &[], market, Decimal::new(20, 2));
    let strategy = CyclingStrategy;
    let decision = strategy.decide(&ctx);

    let buy_cmds: Vec<_> = decision
        .commands
        .iter()
        .filter(|c| matches!(c, CommandIntent::SubmitBuy { .. }))
        .collect();
    assert_eq!(buy_cmds.len(), 2);
}

#[test]
fn inventory_cap_blocks_buy_when_side_full() {
    let mut inv = Inventory::new();
    inv.open_lot(Side::Up, Decimal::new(45, 2), Decimal::new(200, 0), Decimal::new(9000, 2), 100);

    let cfg = StrategyConfig {
        inventory_cap: Some(Decimal::new(200, 0)),
        ..StrategyConfig::default()
    };
    let market = make_market(Decimal::new(44, 2), Decimal::new(54, 2));
    let ctx = DecisionContext {
        trigger: Trigger::BookUpdate,
        progress: Decimal::new(20, 2),
        market,
        inventory: &inv,
        active_orders: &[],
        free_cash: Decimal::new(1000, 0),
        constraints: OrderConstraints::default(),
        config: &cfg,
    };
    assert!(!inventory_allows_buy(&ctx, Side::Up));
    assert!(inventory_allows_buy(&ctx, Side::Down));
}

#[test]
fn imbalance_cap_blocks_heavier_side() {
    let mut inv = Inventory::new();
    inv.open_lot(Side::Up, Decimal::new(45, 2), Decimal::new(150, 0), Decimal::new(6750, 2), 100);
    inv.open_lot(Side::Down, Decimal::new(55, 2), Decimal::new(40, 0), Decimal::new(2200, 2), 200);

    let cfg = StrategyConfig {
        imbalance_cap: Some(Decimal::new(100, 0)),
        ..StrategyConfig::default()
    };
    let market = make_market(Decimal::new(44, 2), Decimal::new(54, 2));
    let ctx = DecisionContext {
        trigger: Trigger::BookUpdate,
        progress: Decimal::new(20, 2),
        market,
        inventory: &inv,
        active_orders: &[],
        free_cash: Decimal::new(1000, 0),
        constraints: OrderConstraints::default(),
        config: &cfg,
    };
    assert!(!inventory_allows_buy(&ctx, Side::Up));
    assert!(inventory_allows_buy(&ctx, Side::Down));
}

#[test]
fn no_caps_allows_all_buys() {
    let mut inv = Inventory::new();
    inv.open_lot(Side::Up, Decimal::new(45, 2), Decimal::new(500, 0), Decimal::new(22500, 2), 100);

    let cfg = StrategyConfig {
        inventory_cap: None,
        imbalance_cap: None,
        ..StrategyConfig::default()
    };
    let market = make_market(Decimal::new(44, 2), Decimal::new(54, 2));
    let ctx = DecisionContext {
        trigger: Trigger::BookUpdate,
        progress: Decimal::new(20, 2),
        market,
        inventory: &inv,
        active_orders: &[],
        free_cash: Decimal::new(1000, 0),
        constraints: OrderConstraints::default(),
        config: &cfg,
    };
    assert!(inventory_allows_buy(&ctx, Side::Up));
    assert!(inventory_allows_buy(&ctx, Side::Down));
}
