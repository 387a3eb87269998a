use hft_bot::decimal::Decimal;
use hft_bot::domain::market::{BookTop, MarketSnapshot};
use hft_bot::domain::order::{OrderConstraints, OrderDirection, OrderId};
use hft_bot::domain::phase::Phase;
use hft_bot::domain::types::{OrderRole, Side};
use hft_bot::inventory::Inventory;
use hft_bot::strategy::{
    ActiveOrder, BuildingStrategy, CommandIntent, DecisionContext, StrategyConfig, Trigger,
};

fn default_config() -> &'static StrategyConfig {
    Box::leak(Box::new(StrategyConfig::default()))
}

fn basic_ctx<'a>(
    progress: Decimal,
    inventory: &'a Inventory,
    active_orders: &'a [ActiveOrder],
    market: MarketSnapshot,
) -> DecisionContext<'a> {
    DecisionContext {
        trigger: Trigger::BookUpdate,
        progress,
        market,
        inventory,
        active_orders,
        free_cash: Decimal::new(1000, 0),
        constraints: OrderConstraints::default(),
        config: default_config(),
    }
}

fn market(
    up_bid: Option<Decimal>,
    dn_bid: Option<Decimal>,
) -> MarketSnapshot {
    MarketSnapshot {
        up: BookTop {
            best_bid: up_bid,
            best_ask: up_bid.map(|b| b.plus(Decimal::new(1, 2))),
            last_trade: None,
        },
        down: BookTop {
            best_bid: dn_bid,
            best_ask: dn_bid.map(|b| b.plus(Decimal::new(1, 2))),
            last_trade: None,
        },
    }
}

#[test]
fn submits_buy_on_both_sides() {
    let inv = Inventory::new();
    let ctx = basic_ctx(
        Decimal::new(2, 2),
        &inv,
        &[],
        market(Some(Decimal::new(55, 2)), Some(Decimal::new(44, 2))),
    );
    let strategy = BuildingStrategy;
    let decision = strategy.decide(&ctx);

    assert_eq!(decision.commands.len(), 2);
    match decision.commands[0] {
        CommandIntent::SubmitBuy { side, price, .. } => {
            assert_eq!(side, Side::Down);
            assert_eq!(price, Decimal::new(44, 2));
        }
        _ => panic!(),
    }
}

#[test]
fn cancels_stale_buy_and_refreshes() {
    let inv = Inventory::new();
    let existing = vec![ActiveOrder {
        order_id: OrderId(1),
        side: Side::Up,
        direction: OrderDirection::Buy,
        price: Decimal::new(50, 2),
        qty: Decimal::new(10, 0),
        role: OrderRole::Maker,
        lot_id: None,
    }];
    let ctx = basic_ctx(
        Decimal::new(2, 2),
        &inv,
        &existing,
        market(Some(Decimal::new(55, 2)), Some(Decimal::new(44, 2))),
    );
    let strategy = BuildingStrategy;
    let decision = strategy.decide(&ctx);

    let cancels: Vec<_> = decision.commands.iter().filter(|c| matches!(c, CommandIntent::Cancel(_))).collect();
    assert_eq!(cancels.len(), 1);
    let buys: Vec<_> = decision.commands.iter().filter(|c| matches!(c, CommandIntent::SubmitBuy { .. })).collect();
    assert_eq!(buys.len(), 2);
}

#[test]
fn keeps_buy_when_still_near_bid() {
    let inv = Inventory::new();
    let existing = vec![ActiveOrder {
        order_id: OrderId(1),
        side: Side::Up,
        direction: OrderDirection::Buy,
        price: Decimal::new(54, 2),
        qty: Decimal::new(10, 0),
        role: OrderRole::Maker,
        lot_id: None,
    }];
    let ctx = basic_ctx(
        Decimal::new(2, 2),
        &inv,
        &existing,
        market(Some(Decimal::new(55, 2)), Some(Decimal::new(44, 2))),
    );
    let strategy = BuildingStrategy;
    let decision = strategy.decide(&ctx);

    let cancels: Vec<_> = decision.commands.iter().filter(|c| matches!(c, CommandIntent::Cancel(_))).collect();
    assert!(cancels.is_empty());
    assert_eq!(decision.commands.len(), 1);
    match decision.commands[0] {
        CommandIntent::SubmitBuy { side, .. } => assert_eq!(side, Side::Down),
        _ => panic!(),
    }
}

#[test]
fn transitions_to_cycling_when_progress_reaches_threshold() {
    let inv = Inventory::new();
    let ctx = basic_ctx(
        Decimal::new(8, 2),
        &inv,
        &[],
        market(Some(Decimal::new(50, 2)), Some(Decimal::new(50, 2))),
    );
    let strategy = BuildingStrategy;
    let decision = strategy.decide(&ctx);

    assert_eq!(decision.transition, Some(Phase::Cycling));
    assert!(decision.commands.is_empty());
}

#[test]
fn no_buy_when_insufficient_cash() {
    let inv = Inventory::new();
    let ctx = DecisionContext {
        trigger: Trigger::BookUpdate,
        progress: Decimal::new(2, 2),
        market: market(Some(Decimal::new(50, 2)), Some(Decimal::new(50, 2))),
        inventory: &inv,
        active_orders: &[],
        free_cash: Decimal::new(3, 0),
        constraints: OrderConstraints::default(),
        config: default_config(),
    };
    let strategy = BuildingStrategy;
    let decision = strategy.decide(&ctx);
    assert!(decision.commands.is_empty());
}
