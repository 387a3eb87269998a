use hft_bot::backtest::market::Market;
use hft_bot::backtest::run::run_match;
use hft_bot::decimal::Decimal;
use hft_bot::domain::fee::FeeModel;
use hft_bot::domain::market::{BookTop, MarketSnapshot};
use hft_bot::domain::phase::Phase;
use hft_bot::domain::types::Side;
use hft_bot::engine::config::EngineConfig;

fn cents(value: f64) -> Decimal {
    let rounded = rust_decimal::Decimal::from_f64_retain(value).unwrap().round_dp(2);
    Decimal::from_parts(rounded.mantissa(), rounded.scale()).unwrap()
}

fn oscillating_market() -> Market {
    let mut snapshots = Vec::new();
    for i in 0..900 {
        let phase = (i % 60) as f64 / 60.0 * std::f64::consts::TAU;
        let up_mid = 0.50 + 0.05 * phase.sin();
        let up_bid = cents(up_mid - 0.005);
        let up_ask = cents(up_mid + 0.005);
        let dn_bid = Decimal::one().minus(up_ask).max(Decimal::new(1, 2));
        let dn_ask = Decimal::one().minus(up_bid).max(Decimal::new(2, 2));
        snapshots.push(MarketSnapshot {
            up: BookTop { best_bid: Some(up_bid), best_ask: Some(up_ask), last_trade: None },
            down: BookTop { best_bid: Some(dn_bid), best_ask: Some(dn_ask), last_trade: None },
        });
    }
    Market {
        snapshots,
        winner: Side::Up,
        title: "test oscillating".to_string(),
        source_file: "test".to_string(),
    }
}

#[test]
fn run_match_completes_without_panic() {
    let market = oscillating_market();
    let result = run_match(&market, EngineConfig::default(), FeeModel::zero());
    assert!(result.fills > 0);
    assert_eq!(result.winner, Side::Up);
    assert_eq!(result.final_phase, Phase::Settled);
}

#[test]
fn pnl_equals_realized_plus_settle() {
    let market = oscillating_market();
    let result = run_match(&market, EngineConfig::default(), FeeModel::zero());
    let expected = result.realized_pnl.plus(result.settle_pnl);
    assert_eq!(result.pnl, expected);
}

#[test]
fn oscillating_market_has_positive_realized_pnl() {
    let market = oscillating_market();
    let result = run_match(&market, EngineConfig::default(), FeeModel::zero());
    assert!(result.realized_pnl.gt(Decimal::zero()));
}

#[test]
fn profit_is_winning_shares_less_what_is_invested() {
    let market = oscillating_market();
    let result = run_match(&market, EngineConfig::default(), FeeModel::zero());
    assert_eq!(result.pnl, result.up_net_qty.minus(result.net_invested));
}

#[test]
fn an_empty_market_leaves_everything_at_zero() {
    let market = Market {
        snapshots: Vec::new(),
        winner: Side::Down,
        title: String::new(),
        source_file: String::new(),
    };
    let result = run_match(&market, EngineConfig::default(), FeeModel::default());
    assert_eq!(result.pnl, Decimal::zero());
    assert_eq!(result.sum_avg, Decimal::zero());
    assert_eq!(result.fills, 0);
    assert_eq!(result.final_phase, Phase::Building);
}
