use hft_bot::backtest::batch::{run_scenario, run_scenarios, summarize, BatchStats, Scenario};
use hft_bot::backtest::driver::BacktestConfig;
use hft_bot::backtest::market::Market;
use hft_bot::decimal::Decimal;
use hft_bot::domain::fee::FeeModel;
use hft_bot::domain::market::{BookTop, MarketSnapshot};
use hft_bot::domain::types::Side;
use hft_bot::hedging::engine::config::EngineConfig;

fn quote(mid: i64) -> BookTop {
    BookTop {
        best_bid: Some(Decimal::new(mid - 1, 2)),
        best_ask: Some(Decimal::new(mid + 1, 2)),
        last_trade: None,
    }
}

fn wave(seed: usize, drift: i64) -> Market {
    let mut snapshots = Vec::new();
    let mut mid: i64 = 50;
    for i in 0..300 {
        let swing = if (i / (10 + seed)) % 2 == 0 { 1 } else { -1 };
        mid = (mid + swing).clamp(10, 90);
        if drift != 0 && i % 10 == 0 {
            mid = (mid + drift).clamp(10, 90);
        }
        snapshots.push(MarketSnapshot { up: quote(mid), down: quote(100 - mid) });
    }
    let winner = if mid > 50 { Side::Up } else { Side::Down };
    Market { snapshots, winner, title: String::new(), source_file: String::new() }
}

fn scenario(label: &'static str, drift: i64) -> Scenario {
    Scenario { label, markets: (0..20).map(|seed| wave(seed, drift)).collect() }
}

fn config() -> BacktestConfig {
    BacktestConfig { engine_config: EngineConfig::with_capital(Decimal::new(1000, 0)) }
}

#[test]
fn batch_runs_requested_session_count() {
    let stats = run_scenario(&scenario("纯震荡", 0), &config(), FeeModel::zero());
    assert_eq!(stats.sessions, 20);
    assert!(stats.winning_sessions <= stats.sessions);
}

#[test]
fn win_rate_is_ratio_of_winning_sessions() {
    let stats = BatchStats {
        label: "测试",
        sessions: 20,
        winning_sessions: 5,
        average_pnl: Decimal::new(0, 0),
        min_pnl: Decimal::new(0, 0),
        max_pnl: Decimal::new(0, 0),
    };
    assert_eq!(stats.win_rate(), Decimal::new(25, 2));
}

#[test]
fn all_scenarios_produce_stats() {
    let scenarios = vec![scenario("纯震荡", 0), scenario("上趋势", 2), scenario("下趋势", -2)];
    let results = run_scenarios(&scenarios, &config(), FeeModel::zero());
    assert_eq!(results.len(), 3);
    assert_eq!(results[0].label, "纯震荡");
    assert_eq!(results[1].label, "上趋势");
    assert_eq!(results[2].label, "下趋势");
}

#[test]
fn min_pnl_not_greater_than_max() {
    let stats = run_scenario(&scenario("纯震荡", 0), &config(), FeeModel::zero());
    assert!(stats.min_pnl.le(stats.max_pnl));
}

#[test]
fn statistics_of_given_results() {
    let pnls = vec![Decimal::new(5, 0), Decimal::new(-2, 0), Decimal::new(15, 1), Decimal::zero()];
    let stats = summarize("four", &pnls);
    assert_eq!(stats.sessions, 4);
    assert_eq!(stats.winning_sessions, 2);
    assert_eq!(stats.average_pnl, Decimal::new(1125, 3));
    assert_eq!(stats.min_pnl, Decimal::new(-2, 0));
    assert_eq!(stats.max_pnl, Decimal::new(5, 0));
    assert_eq!(stats.win_rate(), Decimal::new(5, 1));
}

#[test]
fn statistics_without_results_are_zero() {
    let stats = summarize("none", &Vec::new());
    assert_eq!(stats.sessions, 0);
    assert_eq!(stats.average_pnl, Decimal::zero());
    assert_eq!(stats.min_pnl, Decimal::zero());
    assert_eq!(stats.max_pnl, Decimal::zero());
    assert_eq!(stats.win_rate(), Decimal::zero());
}
