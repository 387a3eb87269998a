use hft_bot::decimal::Decimal;
use hft_bot::domain::order::{Fill, Generation, OrderDirection, OrderId};
use hft_bot::domain::types::{Money, OrderRole, Price, Qty, Side};
use hft_bot::ledger::wal::{append_record, rebuild_ledger, replay_records};
use hft_bot::ledger::Ledger;

fn fill(side: Side, price: Price, filled_qty: Qty, cash: Money) -> Fill {
    Fill {
        order_id: OrderId(0),
        side,
        direction: OrderDirection::Buy,
        role: OrderRole::Maker,
        price,
        filled_qty,
        cash,
        generation: Generation::new(),
    }
}

fn spell(value: Decimal) -> String {
    let (mantissa, scale) = value.parts();
    rust_decimal::Decimal::from_i128_with_scale(mantissa, scale).to_string()
}

fn encode(fill: &Fill) -> String {
    let side = match fill.side {
        Side::Up => "up",
        Side::Down => "down",
    };
    format!("{} {} {} {}", side, spell(fill.price), spell(fill.filled_qty), spell(fill.cash))
}

fn decode(record: &str) -> Fill {
    let parts: Vec<&str> = record.split(' ').collect();
    let side = if parts[0] == "up" { Side::Up } else { Side::Down };
    let number = |i: usize| Decimal::parse(parts[i]).unwrap();
    fill(side, number(1), number(2), number(3))
}

fn replay(log: &str) -> Vec<Fill> {
    replay_records(log).iter().map(|r| decode(r)).collect()
}

#[test]
fn append_then_replay_returns_same_fills() {
    let f1 = fill(Side::Up, Decimal::new(40, 2), Decimal::new(100, 0), Decimal::new(40, 0));
    let f2 = fill(Side::Down, Decimal::new(55, 2), Decimal::new(80, 0), Decimal::new(44, 0));
    let mut log = String::new();
    append_record(&mut log, &encode(&f1));
    append_record(&mut log, &encode(&f2));
    assert_eq!(replay(&log), vec![f1, f2]);
}

#[test]
fn rebuild_ledger_recovers_positions() {
    let mut log = String::new();
    let f1 = fill(Side::Up, Decimal::new(40, 2), Decimal::new(100, 0), Decimal::new(40, 0));
    let f2 = fill(Side::Down, Decimal::new(45, 2), Decimal::new(100, 0), Decimal::new(45, 0));
    append_record(&mut log, &encode(&f1));
    append_record(&mut log, &encode(&f2));
    let recovered = rebuild_ledger(&replay(&log));
    assert_eq!(recovered.qty(Side::Up), Decimal::new(100, 0));
    assert_eq!(recovered.qty(Side::Down), Decimal::new(100, 0));
    assert_eq!(recovered.total_cost(), Decimal::new(85, 0));
}

#[test]
fn recovered_ledger_matches_live_ledger() {
    let fills = [
        fill(Side::Up, Decimal::new(40, 2), Decimal::new(100, 0), Decimal::new(40, 0)),
        fill(Side::Up, Decimal::new(30, 2), Decimal::new(200, 0), Decimal::new(60, 0)),
        fill(Side::Down, Decimal::new(50, 2), Decimal::new(50, 0), Decimal::new(25, 0)),
    ];
    let mut live = Ledger::new();
    let mut log = String::new();
    for f in &fills {
        append_record(&mut log, &encode(f));
        live.apply_fill(f);
    }
    assert_eq!(rebuild_ledger(&replay(&log)), live);
}

#[test]
fn append_preserves_existing_records_across_reopen() {
    let mut log = String::new();
    let f1 = fill(Side::Up, Decimal::new(40, 2), Decimal::new(100, 0), Decimal::new(40, 0));
    let f2 = fill(Side::Up, Decimal::new(30, 2), Decimal::new(100, 0), Decimal::new(30, 0));
    append_record(&mut log, &encode(&f1));
    let mut reopened = log.clone();
    append_record(&mut reopened, &encode(&f2));
    assert_eq!(replay(&reopened).len(), 2);
}

#[test]
fn replay_empty_log_yields_no_fills() {
    assert!(replay("").is_empty());
}

#[test]
fn blank_lines_are_skipped_and_records_kept_whole() {
    let records = replay_records("first\n\n  \t\nsecond \r\nthird");
    assert_eq!(records, vec!["first".to_string(), "second ".to_string(), "third".to_string()]);
}
