use hft_bot::decimal::Decimal;
use hft_bot::domain::order::{
    Command, Generation, Order, OrderConstraints, OrderDirection, OrderId, OrderIdGenerator,
    TimeInForce,
};
use hft_bot::domain::types::{OrderRole, Side};

#[test]
fn generation_increments_monotonically() {
    let g0 = Generation::new();
    let g1 = g0.next();
    let g2 = g1.next();
    assert_eq!(g0, Generation(0));
    assert_eq!(g1, Generation(1));
    assert_eq!(g2, Generation(2));
    assert!(g2 > g0);
}

#[test]
fn order_id_generator_yields_monotonic_unique_ids() {
    let mut generator = OrderIdGenerator::new();
    let id0 = generator.next();
    let id1 = generator.next();
    let id2 = generator.next();
    assert_eq!(id0, OrderId(0));
    assert_eq!(id1, OrderId(1));
    assert_eq!(id2, OrderId(2));
    assert!(id2 > id0);
}

#[test]
fn order_command_submit_order_carries_order() {
    let order = Order {
        order_id: OrderId(5),
        side: Side::Up,
        direction: OrderDirection::Buy,
        price: Decimal::zero(),
        qty: Decimal::zero(),
        role: OrderRole::Maker,
        time_in_force: TimeInForce::Gtc,
        generation: Generation::new(),
    };
    let command = Command::SubmitOrder(order);
    match command {
        Command::SubmitOrder(carried) => assert_eq!(carried, order),
        _ => panic!(),
    }
}

#[test]
fn order_command_cancel_variants_carry_targets() {
    assert_eq!(
        Command::CancelOrder(OrderId(3)),
        Command::CancelOrder(OrderId(3))
    );
    assert_eq!(
        Command::CancelSide(Side::Down),
        Command::CancelSide(Side::Down)
    );
    assert_eq!(Command::CancelAll, Command::CancelAll);
}

#[test]
fn default_constraints_are_five_shares_and_one_dollar() {
    let constraints = OrderConstraints::default();
    assert_eq!(constraints.min_order_size, Decimal::new(5, 0));
    assert_eq!(constraints.min_notional, Decimal::new(1, 0));
}

#[test]
fn constraint_rejects_below_min_size() {
    let constraints = OrderConstraints::default();
    assert!(!constraints.is_satisfied(Decimal::new(4, 0), Decimal::new(5, 1)));
}

#[test]
fn constraint_size_binds_when_price_above_threshold() {
    let constraints = OrderConstraints::default();
    assert!(constraints.is_satisfied(Decimal::new(5, 0), Decimal::new(5, 1)));
    assert!(!constraints.is_satisfied(Decimal::new(49, 1), Decimal::new(5, 1)));
}

#[test]
fn constraint_notional_binds_when_price_below_threshold() {
    let constraints = OrderConstraints::default();
    assert!(!constraints.is_satisfied(Decimal::new(5, 0), Decimal::new(1, 1)));
    assert!(constraints.is_satisfied(Decimal::new(10, 0), Decimal::new(1, 1)));
}

#[test]
fn constraint_satisfied_at_exact_minimums() {
    let constraints = OrderConstraints::default();
    assert!(constraints.is_satisfied(Decimal::new(5, 0), Decimal::new(2, 1)));
}

#[test]
fn quantize_price_truncates_down_to_two_decimals() {
    let constraints = OrderConstraints::default();
    assert_eq!(constraints.quantize_price(Decimal::new(4567, 4)), Decimal::new(45, 2));
    assert_eq!(constraints.quantize_price(Decimal::new(45, 2)), Decimal::new(45, 2));
}

#[test]
fn quantize_qty_truncates_down_to_two_decimals() {
    let constraints = OrderConstraints::default();
    assert_eq!(constraints.quantize_qty(Decimal::new(47727, 4)), Decimal::new(477, 2));
    assert_eq!(constraints.quantize_qty(Decimal::new(100, 0)), Decimal::new(100, 0));
}

#[test]
fn quantize_respects_custom_scale() {
    let constraints = OrderConstraints {
        price_scale: 3,
        size_scale: 0,
        ..OrderConstraints::default()
    };
    assert_eq!(constraints.quantize_price(Decimal::new(12349, 5)), Decimal::new(123, 3));
    assert_eq!(constraints.quantize_qty(Decimal::new(79, 1)), Decimal::new(7, 0));
}
