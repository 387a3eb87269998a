use hft_bot::backtest::run::dispatch;
use hft_bot::decimal::Decimal;
use hft_bot::domain::fee::FeeModel;
use hft_bot::domain::market::{BookTop, MarketSnapshot};
use hft_bot::domain::phase::Phase;
use hft_bot::domain::types::Side;
use hft_bot::engine::config::EngineConfig;
use hft_bot::engine::Engine;
use hft_bot::exchange::clock::Millis;
use hft_bot::exchange::event::ExchangeEvent;
use hft_bot::exchange::simulator::Simulator;

fn snapshot(
    up_bid: Decimal,
    up_ask: Decimal,
    dn_bid: Decimal,
    dn_ask: Decimal,
) -> MarketSnapshot {
    MarketSnapshot {
        up: BookTop {
            best_bid: Some(up_bid),
            best_ask: Some(up_ask),
            last_trade: None,
        },
        down: BookTop {
            best_bid: Some(dn_bid),
            best_ask: Some(dn_ask),
            last_trade: None,
        },
    }
}

fn tick(
    engine: &mut Engine,
    sim: &mut Simulator,
    snap: &MarketSnapshot,
    now: Millis,
) {
    sim.on_market(snap);
    let book_cmds = engine.handle_event(&ExchangeEvent::BookUpdate(*snap), now);
    while let Some(event) = sim.try_recv() {
        let fill_cmds = engine.handle_event(&event, now);
        for cmd in fill_cmds {
            dispatch(sim, &cmd);
        }
    }
    for cmd in book_cmds {
        dispatch(sim, &cmd);
    }
}

#[test]
fn engine_submits_buy_orders_on_first_tick() {
    let mut engine = Engine::new(EngineConfig::default());
    let mut sim = Simulator::new(FeeModel::zero());
    let snap = snapshot(Decimal::new(55, 2), Decimal::new(56, 2), Decimal::new(44, 2), Decimal::new(45, 2));

    tick(&mut engine, &mut sim, &snap, 6000);

    assert!(sim.resting_order_count() >= 2);
    assert_eq!(engine.phase(), Phase::Building);
}

#[test]
fn engine_transitions_to_cycling() {
    let mut engine = Engine::new(EngineConfig::default());
    let mut sim = Simulator::new(FeeModel::zero());
    let snap = snapshot(Decimal::new(55, 2), Decimal::new(56, 2), Decimal::new(44, 2), Decimal::new(45, 2));

    tick(&mut engine, &mut sim, &snap, 72_000);

    assert_eq!(engine.phase(), Phase::Cycling);
}

#[test]
fn buy_fill_opens_lot() {
    let mut engine = Engine::new(EngineConfig::default());
    let mut sim = Simulator::new(FeeModel::zero());

    let snap = snapshot(Decimal::new(50, 2), Decimal::new(51, 2), Decimal::new(49, 2), Decimal::new(50, 2));
    tick(&mut engine, &mut sim, &snap, 6000);

    let snap2 = snapshot(Decimal::new(48, 2), Decimal::new(49, 2), Decimal::new(50, 2), Decimal::new(51, 2));
    tick(&mut engine, &mut sim, &snap2, 7000);

    assert!(
        engine.inventory().lot_count(Side::Up) > 0
            || engine.inventory().lot_count(Side::Down) > 0
    );
}

#[test]
fn sell_fill_closes_lot_and_records_pnl() {
    let mut engine = Engine::new(EngineConfig::default());
    let mut sim = Simulator::new(FeeModel::zero());

    let snap1 = snapshot(Decimal::new(45, 2), Decimal::new(46, 2), Decimal::new(54, 2), Decimal::new(55, 2));
    tick(&mut engine, &mut sim, &snap1, 6000);

    let snap2 = snapshot(Decimal::new(44, 2), Decimal::new(44, 2), Decimal::new(55, 2), Decimal::new(56, 2));
    tick(&mut engine, &mut sim, &snap2, 7000);

    let up_lots_before = engine.inventory().lot_count(Side::Up);

    let snap3 = snapshot(Decimal::new(51, 2), Decimal::new(52, 2), Decimal::new(48, 2), Decimal::new(49, 2));
    tick(&mut engine, &mut sim, &snap3, 73_000);
    assert_eq!(engine.phase(), Phase::Cycling);

    let snap4 = snapshot(Decimal::new(52, 2), Decimal::new(53, 2), Decimal::new(47, 2), Decimal::new(48, 2));
    tick(&mut engine, &mut sim, &snap4, 74_000);

    let snap5 = snapshot(Decimal::new(52, 2), Decimal::new(53, 2), Decimal::new(47, 2), Decimal::new(48, 2));
    tick(&mut engine, &mut sim, &snap5, 75_000);

    let pnl = engine.inventory().realized_pnl();
    let up_lots_after = engine.inventory().lot_count(Side::Up);
    assert!(
        pnl.gt(Decimal::zero()) || up_lots_after < up_lots_before
    );
}

#[test]
fn cash_sentinel_prevents_over_buying() {
    let cfg = EngineConfig::with_capital(Decimal::new(5, 0));
    let mut engine = Engine::new(cfg);
    let mut sim = Simulator::new(FeeModel::zero());

    let snap = snapshot(Decimal::new(55, 2), Decimal::new(56, 2), Decimal::new(54, 2), Decimal::new(55, 2));
    tick(&mut engine, &mut sim, &snap, 6000);

    assert_eq!(sim.resting_order_count(), 0);
}
