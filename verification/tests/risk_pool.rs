use hft_bot::decimal::Decimal;
use hft_bot::risk::pool::{CapitalPools, PoolRatios};

#[test]
fn default_ratios_sum_to_one() {
    assert_eq!(PoolRatios::default().sum(), Decimal::one());
}

#[test]
fn default_pools_split_capital_by_ratio() {
    let pools = CapitalPools::with_default_ratios(Decimal::new(1000, 0));
    assert_eq!(pools.reserve(), Decimal::new(250, 0));
    assert_eq!(pools.grid_maker(), Decimal::new(150, 0));
    assert_eq!(pools.dynamic(), Decimal::new(225, 0));
    assert_eq!(pools.ev(), Decimal::new(375, 0));
}

#[test]
fn pools_sum_back_to_total_capital() {
    let pools = CapitalPools::with_default_ratios(Decimal::new(1000, 0));
    let sum = pools.reserve().plus(pools.grid_maker()).plus(pools.dynamic()).plus(pools.ev());
    assert_eq!(sum, pools.total_capital());
}

#[test]
fn max_exposure_is_half_of_dynamic_pool() {
    let pools = CapitalPools::with_default_ratios(Decimal::new(1000, 0));
    assert_eq!(pools.max_exposure(), Decimal::new(1125, 1));
}

#[test]
fn custom_ratios_are_honored() {
    let ratios = PoolRatios {
        reserve: Decimal::new(3, 1),
        grid_maker: Decimal::new(2, 1),
        dynamic: Decimal::new(2, 1),
        ev: Decimal::new(3, 1),
    };
    let pools = CapitalPools::new(Decimal::new(2000, 0), ratios);
    assert_eq!(pools.reserve(), Decimal::new(600, 0));
    assert_eq!(pools.grid_maker(), Decimal::new(400, 0));
    assert_eq!(pools.dynamic(), Decimal::new(400, 0));
    assert_eq!(pools.ev(), Decimal::new(600, 0));
}

