use hft_bot::decimal::Decimal;
use hft_bot::inventory::lot::{Lot, LotId};

#[test]
fn cost_is_price_times_qty() {
    let lot = Lot {
        lot_id: LotId(0),
        buy_price: Decimal::new(45, 2),
        qty: Decimal::new(10, 0),
        opened_at: 0,
    };
    assert_eq!(lot.cost(), Decimal::new(450, 2));
}

#[test]
fn lot_id_orders_monotonically() {
    assert!(LotId(2) > LotId(1));
    assert_eq!(LotId(3), LotId(3));
}
