use hft_bot::decimal::Decimal;
use hft_bot::strategy::config::{quartile_index, StrategyConfig};

#[test]
fn default_config_has_expected_values() {
    let cfg = StrategyConfig::default();
    assert_eq!(cfg.lot_qty, Decimal::new(10, 0));
    assert_eq!(cfg.building_end, Decimal::new(8, 2));
    assert_eq!(cfg.harvest_start, Decimal::new(83, 2));
    assert_eq!(cfg.settle_start, Decimal::new(967, 3));
}

#[test]
fn tp_returns_quartile_value() {
    let cfg = StrategyConfig::default();
    assert_eq!(cfg.tp(Decimal::new(10, 2)), Decimal::new(5, 2));
    assert_eq!(cfg.tp(Decimal::new(30, 2)), Decimal::new(6, 2));
    assert_eq!(cfg.tp(Decimal::new(60, 2)), Decimal::new(8, 2));
    assert_eq!(cfg.tp(Decimal::new(80, 2)), Decimal::new(10, 2));
}

#[test]
fn sl_returns_quartile_value() {
    let cfg = StrategyConfig::default();
    assert_eq!(cfg.sl(Decimal::new(10, 2)), Decimal::new(4, 2));
    assert_eq!(cfg.sl(Decimal::new(50, 2)), Decimal::new(5, 2));
    assert_eq!(cfg.sl(Decimal::new(90, 2)), Decimal::new(7, 2));
}

#[test]
fn quartile_boundaries() {
    assert_eq!(quartile_index(Decimal::new(25, 2)), 1);
    assert_eq!(quartile_index(Decimal::new(75, 2)), 3);
    assert_eq!(quartile_index(Decimal::new(0, 2)), 0);
    assert_eq!(quartile_index(Decimal::new(100, 2)), 3);
}
