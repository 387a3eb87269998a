use hft_bot::decimal::Decimal;
use hft_bot::domain::order::{Fill, Generation, OrderDirection, OrderId};
use hft_bot::domain::types::{Money, OrderRole, Price, Qty, Side};
use hft_bot::ledger::Ledger;

fn fill(
    side: Side,
    direction: OrderDirection,
    price: Price,
    filled_qty: Qty,
    cash: Money,
) -> Fill {
    Fill {
        order_id: OrderId(0),
        side,
        direction,
        role: OrderRole::Maker,
        price,
        filled_qty,
        cash,
        generation: Generation::new(),
    }
}

#[test]
fn new_ledger_is_empty() {
    let ledger = Ledger::new();
    assert_eq!(ledger.qty(Side::Up), Decimal::zero());
    assert_eq!(ledger.qty(Side::Down), Decimal::zero());
    assert_eq!(ledger.average_price(Side::Up), Decimal::zero());
    assert_eq!(ledger.total_cost(), Decimal::zero());
}

#[test]
fn single_buy_sets_qty_and_average_price() {
    let mut ledger = Ledger::new();
    ledger.apply_fill(&fill(
        Side::Up,
        OrderDirection::Buy,
        Decimal::new(4, 1),
        Decimal::new(100, 0),
        Decimal::new(40, 0),
    ));
    assert_eq!(ledger.qty(Side::Up), Decimal::new(100, 0));
    assert_eq!(ledger.average_price(Side::Up), Decimal::new(4000, 4));
    assert_eq!(ledger.total_cost(), Decimal::new(40, 0));
}

#[test]
fn taker_fee_shows_as_reduced_qty_not_extra_cost() {
    let mut ledger = Ledger::new();
    ledger.apply_fill(&fill(
        Side::Up,
        OrderDirection::Buy,
        Decimal::new(5, 1),
        Decimal::new(96, 0),
        Decimal::new(50, 0),
    ));
    assert_eq!(ledger.qty(Side::Up), Decimal::new(96, 0));
    assert_eq!(ledger.total_cost(), Decimal::new(50, 0));
    assert_eq!(ledger.average_price(Side::Up), Decimal::new(50, 0).over(Decimal::new(96, 0)));
}

#[test]
fn multiple_buys_compute_weighted_average() {
    let mut ledger = Ledger::new();
    ledger.apply_fill(&fill(
        Side::Up,
        OrderDirection::Buy,
        Decimal::new(4, 1),
        Decimal::new(100, 0),
        Decimal::new(40, 0),
    ));
    ledger.apply_fill(&fill(
        Side::Up,
        OrderDirection::Buy,
        Decimal::new(3, 1),
        Decimal::new(200, 0),
        Decimal::new(60, 0),
    ));
    assert_eq!(ledger.qty(Side::Up), Decimal::new(300, 0));
    assert_eq!(ledger.average_price(Side::Up), Decimal::new(100, 0).over(Decimal::new(300, 0)));
    assert_eq!(ledger.total_cost(), Decimal::new(100, 0));
}

#[test]
fn average_price_keeps_full_precision_without_rounding() {
    let mut ledger = Ledger::new();
    ledger.apply_fill(&fill(
        Side::Up,
        OrderDirection::Buy,
        Decimal::new(33333, 4),
        Decimal::new(3, 0),
        Decimal::new(10, 0),
    ));
    assert_eq!(ledger.average_price(Side::Up), Decimal::new(10, 0).over(Decimal::new(3, 0)));
    assert!(ledger.average_price(Side::Up).parts().1 > 4);
}

#[test]
fn both_sides_accumulate_independently() {
    let mut ledger = Ledger::new();
    ledger.apply_fill(&fill(
        Side::Up,
        OrderDirection::Buy,
        Decimal::new(4, 1),
        Decimal::new(100, 0),
        Decimal::new(40, 0),
    ));
    ledger.apply_fill(&fill(
        Side::Down,
        OrderDirection::Buy,
        Decimal::new(55, 2),
        Decimal::new(100, 0),
        Decimal::new(55, 0),
    ));
    assert_eq!(ledger.average_price(Side::Up), Decimal::new(4000, 4));
    assert_eq!(ledger.average_price(Side::Down), Decimal::new(5500, 4));
    assert_eq!(ledger.total_cost(), Decimal::new(95, 0));
}

#[test]
fn sell_reduces_qty_keeping_average_price() {
    let mut ledger = Ledger::new();
    ledger.apply_fill(&fill(
        Side::Up,
        OrderDirection::Buy,
        Decimal::new(4, 1),
        Decimal::new(100, 0),
        Decimal::new(40, 0),
    ));
    ledger.apply_fill(&fill(
        Side::Up,
        OrderDirection::Sell,
        Decimal::new(5, 1),
        Decimal::new(40, 0),
        Decimal::zero(),
    ));
    assert_eq!(ledger.qty(Side::Up), Decimal::new(60, 0));
    assert_eq!(ledger.average_price(Side::Up), Decimal::new(4, 1));
    assert_eq!(ledger.total_cost(), Decimal::new(24, 0));
}

#[test]
fn selling_entire_position_resets_book() {
    let mut ledger = Ledger::new();
    ledger.apply_fill(&fill(
        Side::Up,
        OrderDirection::Buy,
        Decimal::new(4, 1),
        Decimal::new(100, 0),
        Decimal::new(40, 0),
    ));
    ledger.apply_fill(&fill(
        Side::Up,
        OrderDirection::Sell,
        Decimal::new(5, 1),
        Decimal::new(100, 0),
        Decimal::zero(),
    ));
    assert_eq!(ledger.qty(Side::Up), Decimal::zero());
    assert_eq!(ledger.average_price(Side::Up), Decimal::zero());
    assert_eq!(ledger.total_cost(), Decimal::zero());
}

#[test]
fn oversell_is_clamped_to_held_qty() {
    let mut ledger = Ledger::new();
    ledger.apply_fill(&fill(
        Side::Up,
        OrderDirection::Buy,
        Decimal::new(4, 1),
        Decimal::new(100, 0),
        Decimal::new(40, 0),
    ));
    ledger.apply_fill(&fill(
        Side::Up,
        OrderDirection::Sell,
        Decimal::new(5, 1),
        Decimal::new(150, 0),
        Decimal::zero(),
    ));
    assert_eq!(ledger.qty(Side::Up), Decimal::zero());
}

#[test]
fn snapshot_feeds_pnl_calculation() {
    let mut ledger = Ledger::new();
    ledger.apply_fill(&fill(
        Side::Up,
        OrderDirection::Buy,
        Decimal::new(4, 1),
        Decimal::new(100, 0),
        Decimal::new(40, 0),
    ));
    ledger.apply_fill(&fill(
        Side::Down,
        OrderDirection::Buy,
        Decimal::new(45, 2),
        Decimal::new(100, 0),
        Decimal::new(45, 0),
    ));
    let snapshot = ledger.snapshot();
    assert_eq!(snapshot.up_qty, Decimal::new(100, 0));
    assert_eq!(snapshot.down_qty, Decimal::new(100, 0));
    assert_eq!(snapshot.total_cost(), Decimal::new(85, 0));
    assert_eq!(snapshot.up_cost, Decimal::new(40, 0));
    assert_eq!(snapshot.down_cost, Decimal::new(45, 0));
    assert!(snapshot.settle_pnl(Side::Up).gt(Decimal::zero()));
    assert!(snapshot.settle_pnl(Side::Down).gt(Decimal::zero()));
}

#[test]
fn cost_accessor_returns_per_side_cost() {
    let mut ledger = Ledger::new();
    ledger.apply_fill(&fill(
        Side::Up,
        OrderDirection::Buy,
        Decimal::new(4, 1),
        Decimal::new(100, 0),
        Decimal::new(40, 0),
    ));
    assert_eq!(ledger.cost(Side::Up), Decimal::new(40, 0));
    assert_eq!(ledger.cost(Side::Down), Decimal::zero());
}
