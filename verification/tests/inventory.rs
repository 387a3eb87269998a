use hft_bot::decimal::Decimal;
use hft_bot::domain::types::Side;
use hft_bot::inventory::lot::LotId;
use hft_bot::inventory::Inventory;

#[test]
fn new_inventory_is_empty() {
    let inv = Inventory::new();
    assert_eq!(inv.net_qty(Side::Up), Decimal::zero());
    assert_eq!(inv.net_qty(Side::Down), Decimal::zero());
    assert_eq!(inv.net_cost(Side::Up), Decimal::zero());
    assert_eq!(inv.realized_pnl(), Decimal::zero());
    assert_eq!(inv.net_invested(), Decimal::zero());
}

#[test]
fn open_lot_creates_lot_and_tracks_cash() {
    let mut inv = Inventory::new();
    let id = inv.open_lot(Side::Up, Decimal::new(45, 2), Decimal::new(10, 0), Decimal::new(450, 2), 1000);
    assert_eq!(id, LotId(0));
    assert_eq!(inv.net_qty(Side::Up), Decimal::new(10, 0));
    assert_eq!(inv.net_cost(Side::Up), Decimal::new(450, 2));
    assert_eq!(inv.net_avg(Side::Up), Some(Decimal::new(45, 2)));
    assert_eq!(inv.net_invested(), Decimal::new(450, 2));
}

#[test]
fn close_lot_removes_and_records_pnl() {
    let mut inv = Inventory::new();
    let id = inv.open_lot(Side::Up, Decimal::new(45, 2), Decimal::new(10, 0), Decimal::new(450, 2), 1000);
    let pnl = inv.close_lot(Side::Up, id, Decimal::new(500, 2));
    assert_eq!(pnl, Some(Decimal::new(50, 2)));
    assert_eq!(inv.realized_pnl(), Decimal::new(50, 2));
    assert_eq!(inv.net_qty(Side::Up), Decimal::zero());
    assert_eq!(inv.net_invested(), Decimal::new(-50, 2));
}

#[test]
fn close_lot_returns_none_for_unknown_id() {
    let mut inv = Inventory::new();
    assert_eq!(inv.close_lot(Side::Up, LotId(99), Decimal::new(500, 2)), None);
}

#[test]
fn multiple_lots_and_sum_avg() {
    let mut inv = Inventory::new();
    inv.open_lot(Side::Up, Decimal::new(45, 2), Decimal::new(10, 0), Decimal::new(450, 2), 100);
    inv.open_lot(Side::Up, Decimal::new(40, 2), Decimal::new(10, 0), Decimal::new(400, 2), 200);
    inv.open_lot(Side::Down, Decimal::new(50, 2), Decimal::new(10, 0), Decimal::new(500, 2), 150);

    assert_eq!(inv.net_qty(Side::Up), Decimal::new(20, 0));
    assert_eq!(inv.net_avg(Side::Up), Some(Decimal::new(425, 3)));
    assert_eq!(inv.net_avg(Side::Down), Some(Decimal::new(50, 2)));
    assert_eq!(inv.sum_avg(), Decimal::new(925, 3));
}

#[test]
fn open_lots_iterates_most_recent_first() {
    let mut inv = Inventory::new();
    let id0 = inv.open_lot(Side::Up, Decimal::new(45, 2), Decimal::new(10, 0), Decimal::new(450, 2), 100);
    let id1 = inv.open_lot(Side::Up, Decimal::new(40, 2), Decimal::new(10, 0), Decimal::new(400, 2), 200);
    let ids: Vec<LotId> = inv.open_lots(Side::Up).iter().map(|l| l.lot_id).collect();
    assert_eq!(ids, vec![id1, id0]);
}

#[test]
fn snapshot_matches_aggregates() {
    let mut inv = Inventory::new();
    inv.open_lot(Side::Up, Decimal::new(45, 2), Decimal::new(10, 0), Decimal::new(450, 2), 100);
    inv.open_lot(Side::Down, Decimal::new(55, 2), Decimal::new(8, 0), Decimal::new(440, 2), 200);
    let snap = inv.snapshot();
    assert_eq!(snap.up_qty, Decimal::new(10, 0));
    assert_eq!(snap.down_qty, Decimal::new(8, 0));
    assert_eq!(snap.up_cost, Decimal::new(450, 2));
    assert_eq!(snap.down_cost, Decimal::new(440, 2));
}

#[test]
fn realized_pnl_accumulates_across_multiple_closes() {
    let mut inv = Inventory::new();
    let id0 = inv.open_lot(Side::Up, Decimal::new(40, 2), Decimal::new(10, 0), Decimal::new(400, 2), 100);
    let id1 = inv.open_lot(Side::Up, Decimal::new(42, 2), Decimal::new(10, 0), Decimal::new(420, 2), 200);
    inv.close_lot(Side::Up, id0, Decimal::new(450, 2));
    inv.close_lot(Side::Up, id1, Decimal::new(480, 2));
    assert_eq!(inv.realized_pnl(), Decimal::new(110, 2));
}

#[test]
fn net_invested_is_cash_out_minus_cash_in() {
    let mut inv = Inventory::new();
    inv.open_lot(Side::Up, Decimal::new(45, 2), Decimal::new(10, 0), Decimal::new(450, 2), 100);
    inv.open_lot(Side::Down, Decimal::new(55, 2), Decimal::new(10, 0), Decimal::new(550, 2), 200);
    assert_eq!(inv.net_invested(), Decimal::new(1000, 2));
    let id = LotId(0);
    inv.close_lot(Side::Up, id, Decimal::new(500, 2));
    assert_eq!(inv.net_invested(), Decimal::new(500, 2));
}
