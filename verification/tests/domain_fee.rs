use hft_bot::decimal::Decimal;
use hft_bot::domain::fee::FeeModel;
use hft_bot::domain::types::OrderRole;

#[test]
fn zero_model_keeps_full_qty() {
    let model = FeeModel::zero();
    assert_eq!(model.net_qty(OrderRole::Taker, Decimal::new(100, 0)), Decimal::new(100, 0));
}

#[test]
fn default_model_uses_four_percent_taker() {
    let model = FeeModel::default();
    assert_eq!(model.maker_fee_rate, Decimal::new(0, 2));
    assert_eq!(model.taker_fee_rate, Decimal::new(4, 2));
}

#[test]
fn taker_net_qty_deducts_rate_from_shares() {
    let model = FeeModel::default();
    assert_eq!(model.net_qty(OrderRole::Taker, Decimal::new(100, 0)), Decimal::new(9600, 2));
}

#[test]
fn maker_net_qty_keeps_full_qty_by_default() {
    let model = FeeModel::default();
    assert_eq!(model.net_qty(OrderRole::Maker, Decimal::new(100, 0)), Decimal::new(100, 0));
}
