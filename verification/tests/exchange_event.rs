use hft_bot::decimal::Decimal;
use hft_bot::domain::order::{Fill, Generation, OrderDirection, OrderId};
use hft_bot::domain::types::{OrderRole, Side};
use hft_bot::exchange::event::{ExchangeEvent, RejectReason};

#[test]
fn filled_event_carries_fill() {
    let fill = Fill {
        order_id: OrderId(7),
        side: Side::Up,
        direction: OrderDirection::Buy,
        role: OrderRole::Maker,
        price: Decimal::new(4, 1),
        filled_qty: Decimal::new(100, 0),
        cash: Decimal::new(40, 0),
        generation: Generation::new(),
    };
    let event = ExchangeEvent::Filled(fill);
    match event {
        ExchangeEvent::Filled(f) => assert_eq!(f, fill),
        _ => panic!(),
    }
}

#[test]
fn rejected_event_carries_order_id_and_reason() {
    let event = ExchangeEvent::Rejected {
        order_id: OrderId(3),
        reason: RejectReason::CashGuardBlocked,
    };
    match event {
        ExchangeEvent::Rejected { order_id, reason } => {
            assert_eq!(order_id, OrderId(3));
            assert_eq!(reason, RejectReason::CashGuardBlocked);
        }
        _ => panic!(),
    }
}
