use hft_bot::decimal::Decimal;
use hft_bot::domain::market::{BookTop, MarketSnapshot};
use hft_bot::domain::order::OrderConstraints;
use hft_bot::domain::phase::Phase;
use hft_bot::inventory::Inventory;
use hft_bot::strategy::{route, ActiveOrder, DecisionContext, StrategyConfig, Trigger};

fn empty_ctx() -> (Inventory, Vec<ActiveOrder>, StrategyConfig) {
    (Inventory::new(), vec![], StrategyConfig::default())
}

#[test]
fn route_building_before_threshold() {
    let (inv, orders, cfg) = empty_ctx();
    let market = MarketSnapshot {
        up: BookTop {
            best_bid: Some(Decimal::new(50, 2)),
            best_ask: Some(Decimal::new(51, 2)),
            last_trade: None,
        },
        down: BookTop {
            best_bid: Some(Decimal::new(49, 2)),
            best_ask: Some(Decimal::new(50, 2)),
            last_trade: None,
        },
    };
    let ctx = DecisionContext {
        trigger: Trigger::BookUpdate,
        progress: Decimal::new(5, 2),
        market,
        inventory: &inv,
        active_orders: &orders,
        free_cash: Decimal::new(1000, 0),
        constraints: OrderConstraints::default(),
        config: &cfg,
    };
    let decision = route(Phase::Building, &ctx);
    assert!(!decision.commands.is_empty());
    assert_eq!(decision.transition, None);
}

#[test]
fn route_settled_does_nothing() {
    let (inv, orders, cfg) = empty_ctx();
    let market = MarketSnapshot::default();
    let ctx = DecisionContext {
        trigger: Trigger::BookUpdate,
        progress: Decimal::new(99, 2),
        market,
        inventory: &inv,
        active_orders: &orders,
        free_cash: Decimal::new(1000, 0),
        constraints: OrderConstraints::default(),
        config: &cfg,
    };
    let decision = route(Phase::Settled, &ctx);
    assert!(decision.commands.is_empty());
    assert_eq!(decision.transition, None);
}
