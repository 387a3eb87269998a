use hft_bot::decimal::Decimal;
use hft_bot::domain::pnl::PositionSnapshot;
use hft_bot::domain::types::{Money, Qty, Side};

fn pos(up_qty: Qty, down_qty: Qty, up_cost: Money, down_cost: Money) -> PositionSnapshot {
    PositionSnapshot {
        up_qty,
        down_qty,
        up_cost,
        down_cost,
    }
}

#[test]
fn settle_pnl_is_winner_qty_minus_total_cost() {
    let p = pos(Decimal::new(100, 0), Decimal::new(80, 0), Decimal::new(40, 0), Decimal::new(50, 0));
    assert_eq!(p.total_cost(), Decimal::new(90, 0));
    assert_eq!(p.settle_pnl(Side::Up), Decimal::new(10, 0));
    assert_eq!(p.settle_pnl(Side::Down), Decimal::new(-10, 0));
}

#[test]
fn average_price_is_cost_over_qty() {
    let p = pos(Decimal::new(100, 0), Decimal::new(0, 0), Decimal::new(45, 0), Decimal::new(0, 0));
    assert_eq!(p.average_price(Side::Up), Some(Decimal::new(45, 2)));
    assert_eq!(p.average_price(Side::Down), None);
}

#[test]
fn sum_avg_adds_both_side_averages() {
    let p = pos(Decimal::new(100, 0), Decimal::new(100, 0), Decimal::new(45, 0), Decimal::new(50, 0));
    assert_eq!(p.sum_avg(), Decimal::new(95, 2));
}

#[test]
fn sum_avg_counts_missing_side_as_zero() {
    let p = pos(Decimal::new(100, 0), Decimal::new(0, 0), Decimal::new(45, 0), Decimal::new(0, 0));
    assert_eq!(p.sum_avg(), Decimal::new(45, 2));
}
