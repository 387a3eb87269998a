use hft_bot::decimal::Decimal;
use hft_bot::domain::market::{BookTop, MarketSnapshot};
use hft_bot::domain::order::OrderConstraints;
use hft_bot::domain::phase::Phase;
use hft_bot::domain::types::{OrderRole, Side};
use hft_bot::inventory::Inventory;
use hft_bot::strategy::{
    ActiveOrder, CommandIntent, DecisionContext, HarvestingStrategy, StrategyConfig, Trigger,
};

fn default_config() -> &'static StrategyConfig {
    Box::leak(Box::new(StrategyConfig::default()))
}

fn make_market(up_bid: Decimal, dn_bid: Decimal) -> MarketSnapshot {
    MarketSnapshot {
        up: BookTop {
            best_bid: Some(up_bid),
            best_ask: Some(up_bid.plus(Decimal::new(1, 2))),
            last_trade: None,
        },
        down: BookTop {
            best_bid: Some(dn_bid),
            best_ask: Some(dn_bid.plus(Decimal::new(1, 2))),
            last_trade: None,
        },
    }
}

fn ctx<'a>(
    inventory: &'a Inventory,
    active_orders: &'a [ActiveOrder],
    market: MarketSnapshot,
    progress: Decimal,
) -> DecisionContext<'a> {
    DecisionContext {
        trigger: Trigger::BookUpdate,
        progress,
        market,
        inventory,
        active_orders,
        free_cash: Decimal::new(1000, 0),
        constraints: OrderConstraints::default(),
        config: default_config(),
    }
}

#[test]
fn no_buy_orders_in_harvesting() {
    let inv = Inventory::new();
    let market = make_market(Decimal::new(50, 2), Decimal::new(50, 2));
    let c = ctx(&inv, &[], market, Decimal::new(85, 2));
    let strategy = HarvestingStrategy;
    let decision = strategy.decide(&c);

    let buys: Vec<_> = decision
        .commands
        .iter()
        .filter(|c| matches!(c, CommandIntent::SubmitBuy { .. }))
        .collect();
    assert!(buys.is_empty());
}

#[test]
fn still_submits_take_profit_sells() {
    let mut inv = Inventory::new();
    let _lot_id = inv.open_lot(Side::Up, Decimal::new(40, 2), Decimal::new(10, 0), Decimal::new(400, 2), 100);

    let market = make_market(Decimal::new(51, 2), Decimal::new(50, 2));
    let c = ctx(&inv, &[], market, Decimal::new(85, 2));
    let strategy = HarvestingStrategy;
    let decision = strategy.decide(&c);

    let sells: Vec<_> = decision
        .commands
        .iter()
        .filter(|c| {
            matches!(
                c,
                CommandIntent::SubmitSell {
                    role: OrderRole::Maker,
                    ..
                }
            )
        })
        .collect();
    assert_eq!(sells.len(), 1);
}

#[test]
fn transitions_to_settled_at_settle_start() {
    let inv = Inventory::new();
    let market = make_market(Decimal::new(50, 2), Decimal::new(50, 2));
    let c = ctx(&inv, &[], market, Decimal::new(967, 3));
    let strategy = HarvestingStrategy;
    let decision = strategy.decide(&c);

    assert_eq!(decision.transition, Some(Phase::Settled));
    assert!(decision.commands.is_empty());
}
