use hft_bot::decimal::Decimal;
use hft_bot::domain::fee::FeeModel;
use hft_bot::domain::market::{BookTop, MarketSnapshot};
use hft_bot::domain::order::{Generation, Order, OrderDirection, OrderId, TimeInForce};
use hft_bot::domain::types::{OrderRole, Price, Qty, Side};
use hft_bot::exchange::backend::ExchangeBackend;
use hft_bot::exchange::event::ExchangeEvent;
use hft_bot::exchange::simulator::Simulator;

fn make_order(
    id: u64,
    side: Side,
    direction: OrderDirection,
    price: Price,
    qty: Qty,
    role: OrderRole,
) -> Order {
    Order {
        order_id: OrderId(id),
        side,
        direction,
        price,
        qty,
        role,
        time_in_force: TimeInForce::Gtc,
        generation: Generation::new(),
    }
}

fn snapshot_with(
    up_bid: Option<Price>,
    up_ask: Option<Price>,
    dn_bid: Option<Price>,
    dn_ask: Option<Price>,
) -> MarketSnapshot {
    MarketSnapshot {
        up: BookTop {
            best_bid: up_bid,
            best_ask: up_ask,
            last_trade: None,
        },
        down: BookTop {
            best_bid: dn_bid,
            best_ask: dn_ask,
            last_trade: None,
        },
    }
}

#[test]
fn maker_buy_fills_when_ask_crosses_below_limit() {
    let mut sim = Simulator::new(FeeModel::zero());
    let order = make_order(
        1,
        Side::Up,
        OrderDirection::Buy,
        Decimal::new(50, 2),
        Decimal::new(10, 0),
        OrderRole::Maker,
    );
    sim.submit_order(order);
    assert_eq!(sim.resting_order_count(), 1);

    let snap = snapshot_with(Some(Decimal::new(48, 2)), Some(Decimal::new(49, 2)), None, None);
    sim.on_market(&snap);
    assert_eq!(sim.resting_order_count(), 0);

    let event = sim.try_recv().unwrap();
    match event {
        ExchangeEvent::Filled(fill) => {
            assert_eq!(fill.price, Decimal::new(50, 2));
            assert_eq!(fill.filled_qty, Decimal::new(10, 0));
            assert_eq!(fill.cash, Decimal::new(500, 2));
            assert_eq!(fill.direction, OrderDirection::Buy);
        }
        _ => panic!(),
    }
}

#[test]
fn maker_buy_does_not_fill_when_ask_equals_limit() {
    let mut sim = Simulator::new(FeeModel::zero());
    let order = make_order(
        1,
        Side::Up,
        OrderDirection::Buy,
        Decimal::new(50, 2),
        Decimal::new(10, 0),
        OrderRole::Maker,
    );
    sim.submit_order(order);

    let snap = snapshot_with(Some(Decimal::new(48, 2)), Some(Decimal::new(50, 2)), None, None);
    sim.on_market(&snap);
    assert_eq!(sim.resting_order_count(), 1);
}

#[test]
fn maker_sell_fills_when_bid_crosses_above_limit() {
    let mut sim = Simulator::new(FeeModel::zero());
    let order = make_order(
        2,
        Side::Up,
        OrderDirection::Sell,
        Decimal::new(55, 2),
        Decimal::new(10, 0),
        OrderRole::Maker,
    );
    sim.submit_order(order);
    assert_eq!(sim.resting_order_count(), 1);

    let snap = snapshot_with(Some(Decimal::new(56, 2)), Some(Decimal::new(60, 2)), None, None);
    sim.on_market(&snap);
    assert_eq!(sim.resting_order_count(), 0);

    let event = sim.try_recv().unwrap();
    match event {
        ExchangeEvent::Filled(fill) => {
            assert_eq!(fill.price, Decimal::new(55, 2));
            assert_eq!(fill.filled_qty, Decimal::new(10, 0));
            assert_eq!(fill.cash, Decimal::new(550, 2));
            assert_eq!(fill.direction, OrderDirection::Sell);
        }
        _ => panic!(),
    }
}

#[test]
fn maker_sell_does_not_fill_when_bid_equals_limit() {
    let mut sim = Simulator::new(FeeModel::zero());
    let order = make_order(
        2,
        Side::Up,
        OrderDirection::Sell,
        Decimal::new(55, 2),
        Decimal::new(10, 0),
        OrderRole::Maker,
    );
    sim.submit_order(order);

    let snap = snapshot_with(Some(Decimal::new(55, 2)), Some(Decimal::new(60, 2)), None, None);
    sim.on_market(&snap);
    assert_eq!(sim.resting_order_count(), 1);
}

#[test]
fn maker_sell_does_not_fill_when_bid_below_limit() {
    let mut sim = Simulator::new(FeeModel::zero());
    let order = make_order(
        2,
        Side::Up,
        OrderDirection::Sell,
        Decimal::new(55, 2),
        Decimal::new(10, 0),
        OrderRole::Maker,
    );
    sim.submit_order(order);

    let snap = snapshot_with(Some(Decimal::new(50, 2)), Some(Decimal::new(60, 2)), None, None);
    sim.on_market(&snap);
    assert_eq!(sim.resting_order_count(), 1);
}

#[test]
fn taker_buy_fills_at_ask_when_within_limit() {
    let mut sim = Simulator::new(FeeModel::zero());
    let snap = snapshot_with(Some(Decimal::new(48, 2)), Some(Decimal::new(50, 2)), None, None);
    sim.on_market(&snap);

    let order = make_order(
        3,
        Side::Up,
        OrderDirection::Buy,
        Decimal::new(52, 2),
        Decimal::new(10, 0),
        OrderRole::Taker,
    );
    sim.submit_order(order);

    let event = sim.try_recv().unwrap();
    match event {
        ExchangeEvent::Filled(fill) => {
            assert_eq!(fill.price, Decimal::new(50, 2));
            assert_eq!(fill.filled_qty, Decimal::new(10, 0));
            assert_eq!(fill.cash, Decimal::new(500, 2));
        }
        _ => panic!(),
    }
}

#[test]
fn taker_buy_rejected_when_ask_above_limit() {
    let mut sim = Simulator::new(FeeModel::zero());
    let snap = snapshot_with(Some(Decimal::new(48, 2)), Some(Decimal::new(55, 2)), None, None);
    sim.on_market(&snap);

    let order = make_order(
        3,
        Side::Up,
        OrderDirection::Buy,
        Decimal::new(52, 2),
        Decimal::new(10, 0),
        OrderRole::Taker,
    );
    sim.submit_order(order);

    let event = sim.try_recv().unwrap();
    assert!(matches!(event, ExchangeEvent::Rejected { .. }));
}

#[test]
fn taker_sell_fills_at_bid_when_within_limit() {
    let mut sim = Simulator::new(FeeModel::zero());
    let snap = snapshot_with(Some(Decimal::new(52, 2)), Some(Decimal::new(55, 2)), None, None);
    sim.on_market(&snap);

    let order = make_order(
        4,
        Side::Up,
        OrderDirection::Sell,
        Decimal::new(50, 2),
        Decimal::new(10, 0),
        OrderRole::Taker,
    );
    sim.submit_order(order);

    let event = sim.try_recv().unwrap();
    match event {
        ExchangeEvent::Filled(fill) => {
            assert_eq!(fill.price, Decimal::new(52, 2));
            assert_eq!(fill.filled_qty, Decimal::new(10, 0));
            assert_eq!(fill.cash, Decimal::new(520, 2));
            assert_eq!(fill.direction, OrderDirection::Sell);
        }
        _ => panic!(),
    }
}

#[test]
fn taker_sell_rejected_when_bid_below_limit() {
    let mut sim = Simulator::new(FeeModel::zero());
    let snap = snapshot_with(Some(Decimal::new(48, 2)), Some(Decimal::new(55, 2)), None, None);
    sim.on_market(&snap);

    let order = make_order(
        4,
        Side::Up,
        OrderDirection::Sell,
        Decimal::new(50, 2),
        Decimal::new(10, 0),
        OrderRole::Taker,
    );
    sim.submit_order(order);

    let event = sim.try_recv().unwrap();
    assert!(matches!(event, ExchangeEvent::Rejected { .. }));
}

#[test]
fn taker_sell_rejected_when_no_bid() {
    let mut sim = Simulator::new(FeeModel::zero());
    let snap = snapshot_with(None, Some(Decimal::new(55, 2)), None, None);
    sim.on_market(&snap);

    let order = make_order(
        4,
        Side::Up,
        OrderDirection::Sell,
        Decimal::new(40, 2),
        Decimal::new(10, 0),
        OrderRole::Taker,
    );
    sim.submit_order(order);

    let event = sim.try_recv().unwrap();
    assert!(matches!(event, ExchangeEvent::Rejected { .. }));
}

#[test]
fn buy_fee_deducts_from_qty() {
    let mut sim = Simulator::new(FeeModel::default());
    let snap = snapshot_with(Some(Decimal::new(48, 2)), Some(Decimal::new(50, 2)), None, None);
    sim.on_market(&snap);

    let order = make_order(
        5,
        Side::Up,
        OrderDirection::Buy,
        Decimal::new(52, 2),
        Decimal::new(100, 0),
        OrderRole::Taker,
    );
    sim.submit_order(order);

    let event = sim.try_recv().unwrap();
    match event {
        ExchangeEvent::Filled(fill) => {
            assert_eq!(fill.filled_qty, Decimal::new(96, 0));
            assert_eq!(fill.cash, Decimal::new(50, 0));
        }
        _ => panic!(),
    }
}

#[test]
fn sell_fee_deducts_from_cash() {
    let mut sim = Simulator::new(FeeModel::default());
    let snap = snapshot_with(Some(Decimal::new(55, 2)), Some(Decimal::new(60, 2)), None, None);
    sim.on_market(&snap);

    let order = make_order(
        6,
        Side::Up,
        OrderDirection::Sell,
        Decimal::new(50, 2),
        Decimal::new(100, 0),
        OrderRole::Taker,
    );
    sim.submit_order(order);

    let event = sim.try_recv().unwrap();
    match event {
        ExchangeEvent::Filled(fill) => {
            assert_eq!(fill.filled_qty, Decimal::new(100, 0));
            assert_eq!(fill.cash, Decimal::new(5280, 2));
        }
        _ => panic!(),
    }
}

#[test]
fn maker_sell_zero_fee() {
    let mut sim = Simulator::new(FeeModel::default());
    let order = make_order(
        7,
        Side::Down,
        OrderDirection::Sell,
        Decimal::new(50, 2),
        Decimal::new(20, 0),
        OrderRole::Maker,
    );
    sim.submit_order(order);

    let snap = snapshot_with(None, None, Some(Decimal::new(55, 2)), Some(Decimal::new(60, 2)));
    sim.on_market(&snap);

    let event = sim.try_recv().unwrap();
    match event {
        ExchangeEvent::Filled(fill) => {
            assert_eq!(fill.filled_qty, Decimal::new(20, 0));
            assert_eq!(fill.cash, Decimal::new(1000, 2));
            assert_eq!(fill.price, Decimal::new(50, 2));
        }
        _ => panic!(),
    }
}

#[test]
fn cancel_removes_resting_order() {
    let mut sim = Simulator::new(FeeModel::zero());
    let order = make_order(
        8,
        Side::Up,
        OrderDirection::Buy,
        Decimal::new(50, 2),
        Decimal::new(10, 0),
        OrderRole::Maker,
    );
    sim.submit_order(order);
    sim.cancel_order(OrderId(8));
    assert_eq!(sim.resting_order_count(), 0);
    let event = sim.try_recv().unwrap();
    assert!(matches!(event, ExchangeEvent::Canceled(OrderId(8))));
}

#[test]
fn cancel_unknown_order_sends_cancel_failed() {
    let mut sim = Simulator::new(FeeModel::zero());
    sim.cancel_order(OrderId(99));
    let event = sim.try_recv().unwrap();
    assert!(matches!(event, ExchangeEvent::CancelFailed(OrderId(99))));
}

#[test]
fn cancel_side_removes_all_orders_on_that_side() {
    let mut sim = Simulator::new(FeeModel::zero());
    sim.submit_order(make_order(
        1,
        Side::Up,
        OrderDirection::Buy,
        Decimal::new(50, 2),
        Decimal::new(10, 0),
        OrderRole::Maker,
    ));
    sim.submit_order(make_order(
        2,
        Side::Up,
        OrderDirection::Sell,
        Decimal::new(60, 2),
        Decimal::new(10, 0),
        OrderRole::Maker,
    ));
    sim.submit_order(make_order(
        3,
        Side::Down,
        OrderDirection::Buy,
        Decimal::new(50, 2),
        Decimal::new(10, 0),
        OrderRole::Maker,
    ));
    assert_eq!(sim.resting_order_count(), 3);

    sim.cancel_side(Side::Up);
    assert_eq!(sim.resting_order_count(), 1);

    let e1 = sim.try_recv().unwrap();
    let e2 = sim.try_recv().unwrap();
    assert!(matches!(e1, ExchangeEvent::Canceled(_)));
    assert!(matches!(e2, ExchangeEvent::Canceled(_)));
}

#[test]
fn cancel_all_removes_everything() {
    let mut sim = Simulator::new(FeeModel::zero());
    sim.submit_order(make_order(
        1,
        Side::Up,
        OrderDirection::Buy,
        Decimal::new(50, 2),
        Decimal::new(10, 0),
        OrderRole::Maker,
    ));
    sim.submit_order(make_order(
        2,
        Side::Down,
        OrderDirection::Sell,
        Decimal::new(55, 2),
        Decimal::new(10, 0),
        OrderRole::Maker,
    ));
    sim.cancel_all();
    assert_eq!(sim.resting_order_count(), 0);
}
