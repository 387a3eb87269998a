use hft_bot::decimal::Decimal;
use hft_bot::domain::command::Command;
use hft_bot::domain::order::{Generation, Order, OrderDirection, OrderId, TimeInForce};
use hft_bot::domain::types::{OrderRole, Side};

#[test]
fn command_command_submit_order_carries_order() {
    let order = Order {
        order_id: OrderId(5),
        side: Side::Up,
        direction: OrderDirection::Buy,
        price: Decimal::zero(),
        qty: Decimal::zero(),
        role: OrderRole::Maker,
        time_in_force: TimeInForce::Gtc,
        generation: Generation::new(),
    };
    let command = Command::SubmitOrder(order);
    match command {
        Command::SubmitOrder(carried) => assert_eq!(carried, order),
        _ => panic!(),
    }
}

#[test]
fn command_command_cancel_variants_carry_targets() {
    assert_eq!(
        Command::CancelOrder(OrderId(3)),
        Command::CancelOrder(OrderId(3))
    );
    assert_eq!(
        Command::CancelSide(Side::Down),
        Command::CancelSide(Side::Down)
    );
    assert_eq!(Command::CancelAll, Command::CancelAll);
}
