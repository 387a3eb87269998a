use hft_bot::backtest::driver::{run, BacktestConfig, BacktestReport};
use hft_bot::backtest::market::Market;
use hft_bot::decimal::Decimal;
use hft_bot::domain::fee::FeeModel;
use hft_bot::domain::market::{BookTop, MarketSnapshot};
use hft_bot::domain::state::RobotState;
use hft_bot::domain::types::Side;
use hft_bot::hedging::engine::config::EngineConfig;

fn quote(mid: i64) -> BookTop {
    BookTop {
        best_bid: Some(Decimal::new(mid - 1, 2)),
        best_ask: Some(Decimal::new(mid + 1, 2)),
        last_trade: None,
    }
}

fn walk(seed: u64, steps: usize, drift: i64, spread: u64) -> Market {
    let mut state = seed.wrapping_mul(6364136223846793005).wrapping_add(1442695040888963407);
    let mut mid: i64 = 50;
    let mut snapshots = Vec::new();
    for _ in 0..steps {
        state = state.wrapping_mul(6364136223846793005).wrapping_add(1442695040888963407);
        let noise = ((state >> 33) % (2 * spread + 1)) as i64 - spread as i64;
        mid = (mid + drift + noise).clamp(10, 90);
        snapshots.push(MarketSnapshot { up: quote(mid), down: quote(100 - mid) });
    }
    let winner = if mid > 50 { Side::Up } else { Side::Down };
    Market { snapshots, winner, title: "walk".to_string(), source_file: String::new() }
}

fn session(market: &Market) -> BacktestReport {
    let config = BacktestConfig { engine_config: EngineConfig::with_capital(Decimal::new(1000, 0)) };
    run(market, &config, FeeModel::zero())
}

#[test]
fn runs_a_full_session_without_panic() {
    let report = session(&walk(1, 600, 0, 3));
    assert_eq!(report.final_pnl, report.winner_qty.minus(report.total_cost));
}

#[test]
fn winner_matches_market_outcome() {
    let report = session(&walk(1, 100, 5, 1));
    assert_eq!(report.winner, Side::Up);
}

#[test]
fn ranging_market_executes_some_fills() {
    let report = session(&walk(12345, 900, 0, 3));
    assert!(report.fill_count > 0);
}

#[test]
fn deterministic_same_seed_same_report() {
    let market = walk(999, 600, 0, 4);
    assert_eq!(session(&market), session(&market));
}

#[test]
fn the_session_ends_waiting_for_settlement() {
    let report = session(&walk(3, 900, 0, 2));
    assert_eq!(report.final_state, RobotState::SettlementWait);
}

#[test]
fn hedging_is_reachable_across_sessions() {
    // Without the rules of the last minutes a session ends in the state that it reached.
    let mut engine_config = EngineConfig::with_capital(Decimal::new(1000, 0));
    engine_config.strategy.time_red_line = 0;
    engine_config.strategy.last_phase_window = 0;
    let config = BacktestConfig { engine_config };
    let mut reached_hedging = false;
    for seed in 0..50u64 {
        let report = run(&walk(seed, 300, 0, 3), &config, FeeModel::zero());
        if matches!(report.final_state, RobotState::DynamicHedge { .. } | RobotState::EvHedge) {
            reached_hedging = true;
            break;
        }
    }
    assert!(reached_hedging);
}
