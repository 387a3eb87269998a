use hft_bot::decimal::Decimal;
use hft_bot::domain::command::Command;
use hft_bot::domain::market::{BookTop, MarketSnapshot};
use hft_bot::domain::order::{Fill, Generation, OrderDirection, OrderId};
use hft_bot::domain::state::RobotState;
use hft_bot::domain::types::{OrderRole, Price, Qty, Side};
use hft_bot::exchange::event::ExchangeEvent;
use hft_bot::hedging::engine::config::EngineConfig;
use hft_bot::hedging::engine::Engine;

fn engine() -> Engine {
    Engine::new(EngineConfig::with_capital(Decimal::new(1000, 0)))
}

fn book(bid: Option<Price>, ask: Option<Price>) -> BookTop {
    BookTop {
        best_bid: bid,
        best_ask: ask,
        last_trade: None,
    }
}

fn book_update(up_ask: Price, down_ask: Price) -> ExchangeEvent {
    ExchangeEvent::BookUpdate(MarketSnapshot {
        up: book(Some(up_ask.minus(Decimal::new(2, 2))), Some(up_ask)),
        down: book(Some(down_ask.minus(Decimal::new(2, 2))), Some(down_ask)),
    })
}

fn fill(order_id: u64, side: Side, price: Price, qty: Qty) -> ExchangeEvent {
    ExchangeEvent::Filled(Fill {
        order_id: OrderId(order_id),
        side,
        direction: OrderDirection::Buy,
        role: OrderRole::Maker,
        price,
        filled_qty: qty,
        cash: price.times(qty),
        generation: Generation::new(),
    })
}

#[test]
fn core_starts_in_building() {
    assert_eq!(engine().state(), RobotState::Building);
}

#[test]
fn first_book_update_deploys_three_rungs() {
    let mut e = engine();
    let cmds = e.handle_event(book_update(Decimal::new(40, 2), Decimal::new(62, 2)), 1000, 600_000);
    let submits: Vec<_> = cmds
        .iter()
        .filter(|c| matches!(c, Command::SubmitOrder(_)))
        .collect();
    assert_eq!(submits.len(), 3);
    assert_eq!(e.resting_order_count(), 3);
}

#[test]
fn fill_locks_main_field_and_enters_pairing() {
    let mut e = engine();
    e.handle_event(book_update(Decimal::new(40, 2), Decimal::new(62, 2)), 1000, 600_000);
    e.handle_event(fill(0, Side::Up, Decimal::new(39, 2), Decimal::new(10, 0)), 1100, 600_000);
    assert_eq!(e.main_field(), Some(Side::Up));
    assert_eq!(e.state(), RobotState::Pairing);
    assert_eq!(e.ledger().snapshot().up_qty, Decimal::new(10, 0));
    assert!(e.resting_order_count() > 0);
}

#[test]
fn time_red_line_cancels_all_and_settles() {
    let mut e = engine();
    e.handle_event(book_update(Decimal::new(40, 2), Decimal::new(62, 2)), 1000, 600_000);
    e.handle_event(fill(0, Side::Up, Decimal::new(39, 2), Decimal::new(10, 0)), 1100, 600_000);
    let cmds = e.handle_event(book_update(Decimal::new(40, 2), Decimal::new(62, 2)), 900_000, 30_000);
    assert!(cmds.contains(&Command::CancelAll));
    assert_eq!(e.state(), RobotState::SettlementWait);
}

#[test]
fn circuit_breaker_trips_on_wide_spread() {
    let mut e = engine();
    e.handle_event(book_update(Decimal::new(40, 2), Decimal::new(62, 2)), 1000, 600_000);
    let crash = ExchangeEvent::BookUpdate(MarketSnapshot {
        up: book(Some(Decimal::new(40, 2)), Some(Decimal::new(41, 2))),
        down: book(Some(Decimal::new(20, 2)), Some(Decimal::new(55, 2))),
    });
    let cmds = e.handle_event(crash, 2000, 600_000);
    assert!(cmds.contains(&Command::CancelAll));
    assert_eq!(e.state(), RobotState::CircuitBreaker);
}

#[test]
fn pairing_fill_posts_pair_order() {
    let mut e = engine();
    e.handle_event(book_update(Decimal::new(40, 2), Decimal::new(62, 2)), 1000, 600_000);
    e.handle_event(fill(0, Side::Up, Decimal::new(39, 2), Decimal::new(10, 0)), 1100, 600_000);
    e.handle_event(book_update(Decimal::new(40, 2), Decimal::new(62, 2)), 1200, 600_000);
    let cmds = e.handle_event(fill(1, Side::Up, Decimal::new(39, 2), Decimal::new(50, 0)), 1300, 600_000);
    let has_pair = cmds.iter().any(|c| {
        matches!(
            c,
            Command::SubmitOrder(o) if o.side == Side::Down
        )
    });
    assert!(has_pair);
}

#[test]
fn hedging_is_reached_after_a_large_one_sided_fill() {
    let mut e = engine();
    e.handle_event(book_update(Decimal::new(40, 2), Decimal::new(62, 2)), 1000, 600_000);
    assert_eq!(e.deepest_phase_label(), "Building");
    e.handle_event(fill(0, Side::Up, Decimal::new(40, 2), Decimal::new(100, 0)), 1100, 600_000);
    assert_eq!(e.deepest_phase_label(), "Pairing");
    e.handle_event(book_update(Decimal::new(40, 2), Decimal::new(62, 2)), 1200, 600_000);
    assert_eq!(e.state(), RobotState::DynamicHedge { double_negative_count: 0 });
    assert_eq!(e.deepest_phase_label(), "DynamicHedge");
    let cmds = e.handle_event(book_update(Decimal::new(40, 2), Decimal::new(62, 2)), 5000, 600_000);
    assert!(cmds.iter().any(|c| matches!(c, Command::SubmitOrder(o) if o.side == Side::Down)));
    let cmds = e.handle_event(book_update(Decimal::new(40, 2), Decimal::new(62, 2)), 5500, 600_000);
    assert!(cmds.is_empty());
}

#[test]
fn circuit_breaker_closes_after_a_calm_spell() {
    let mut e = engine();
    let crash = ExchangeEvent::BookUpdate(MarketSnapshot {
        up: book(Some(Decimal::new(40, 2)), Some(Decimal::new(41, 2))),
        down: book(Some(Decimal::new(20, 2)), Some(Decimal::new(55, 2))),
    });
    e.handle_event(crash, 1000, 600_000);
    assert_eq!(e.state(), RobotState::CircuitBreaker);
    e.handle_event(book_update(Decimal::new(40, 2), Decimal::new(62, 2)), 2000, 599_000);
    e.handle_event(book_update(Decimal::new(40, 2), Decimal::new(62, 2)), 6999, 594_001);
    assert_eq!(e.state(), RobotState::CircuitBreaker);
    e.handle_event(book_update(Decimal::new(40, 2), Decimal::new(62, 2)), 7000, 594_000);
    assert_eq!(e.state(), RobotState::Building);
}

#[test]
fn cash_guard_lets_nothing_through_below_the_red_line() {
    let mut e = engine();
    e.handle_event(book_update(Decimal::new(40, 2), Decimal::new(62, 2)), 1000, 600_000);
    e.handle_event(fill(0, Side::Up, Decimal::new(40, 2), Decimal::new(2000, 0)), 1100, 600_000);
    e.handle_event(book_update(Decimal::new(40, 2), Decimal::new(62, 2)), 1200, 600_000);
    let cmds = e.handle_event(book_update(Decimal::new(40, 2), Decimal::new(62, 2)), 9000, 600_000);
    assert!(!cmds.iter().any(|c| matches!(c, Command::SubmitOrder(_))));
}

#[test]
fn generations_are_bumped_by_hand_too() {
    let mut e = engine();
    e.bump_generation();
    let cmds = e.handle_event(book_update(Decimal::new(40, 2), Decimal::new(62, 2)), 1000, 600_000);
    assert!(matches!(cmds[0], Command::SubmitOrder(o) if o.generation == Generation(1)));
}
