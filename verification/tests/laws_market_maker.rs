use hft_bot::decimal::Decimal;
use hft_bot::domain::command::Command;
use hft_bot::domain::fee::FeeModel;
use hft_bot::domain::market::{BookTop, MarketSnapshot};
use hft_bot::domain::order::{
    Fill, Generation, Order, OrderConstraints, OrderDirection, OrderId, TimeInForce,
};
use hft_bot::domain::phase::Phase;
use hft_bot::domain::pnl::PositionSnapshot;
use hft_bot::domain::types::{OrderRole, Side};
use hft_bot::engine::book::OrderBook;
use hft_bot::engine::config::EngineConfig;
use hft_bot::engine::Engine;
use hft_bot::exchange::backend::ExchangeBackend;
use hft_bot::exchange::event::ExchangeEvent;
use hft_bot::exchange::simulator::Simulator;
use hft_bot::inventory::lot::LotId;
use hft_bot::inventory::Inventory;
use hft_bot::strategy::{
    ActiveOrder, CommandIntent, CyclingStrategy, DecisionContext, StrategyConfig, Trigger,
};

fn d(mantissa: i64, scale: u32) -> Decimal {
    Decimal::new(mantissa, scale)
}

fn book(bid: i64, ask: i64) -> BookTop {
    BookTop { best_bid: Some(d(bid, 2)), best_ask: Some(d(ask, 2)), last_trade: None }
}

fn market(up_bid: i64, down_bid: i64) -> MarketSnapshot {
    MarketSnapshot { up: book(up_bid, up_bid + 1), down: book(down_bid, down_bid + 1) }
}

fn order(id: u64, side: Side, direction: OrderDirection, price: i64, role: OrderRole) -> Order {
    Order {
        order_id: OrderId(id),
        side,
        direction,
        price: d(price, 2),
        qty: d(10, 0),
        role,
        time_in_force: TimeInForce::Gtc,
        generation: Generation::new(),
    }
}

fn buy_fill(id: u64, side: Side, price: i64, qty: i64) -> ExchangeEvent {
    ExchangeEvent::Filled(Fill {
        order_id: OrderId(id),
        side,
        direction: OrderDirection::Buy,
        role: OrderRole::Maker,
        price: d(price, 2),
        filled_qty: d(qty, 0),
        cash: d(price, 2).times(d(qty, 0)),
        generation: Generation::new(),
    })
}

#[test]
fn cheap_pairs_win_whoever_wins() {
    let cheap = PositionSnapshot {
        up_qty: d(100, 0),
        down_qty: d(100, 0),
        up_cost: d(45, 0),
        down_cost: d(50, 0),
    };
    assert!(cheap.sum_avg().lt(Decimal::one()));
    assert_eq!(cheap.settle_pnl(Side::Up), d(5, 0));
    assert_eq!(cheap.settle_pnl(Side::Down), d(5, 0));
    let lopsided = PositionSnapshot { down_qty: d(10, 0), down_cost: d(5, 0), ..cheap };
    assert!(lopsided.sum_avg().lt(Decimal::one()));
    assert_eq!(lopsided.settle_pnl(Side::Down), d(-40, 0));
}

#[test]
fn fees_take_shares_and_never_add_any() {
    let model = FeeModel { maker_fee_rate: Decimal::zero(), taker_fee_rate: d(1, 0) };
    assert_eq!(model.net_qty(OrderRole::Maker, d(7, 1)), d(7, 1));
    assert_eq!(model.net_qty(OrderRole::Taker, d(7, 1)), Decimal::zero());
}

#[test]
fn bids_are_cut_and_offers_are_raised() {
    let constraints = OrderConstraints::default();
    assert_eq!(constraints.quantize_price(d(4567, 4)), d(45, 2));
    assert_eq!(constraints.quantize_price_up(d(4567, 4)), d(46, 2));
    assert_eq!(constraints.quantize_price_up(d(46, 2)), d(46, 2));
    let once = constraints.quantize_qty(d(47727, 4));
    assert_eq!(constraints.quantize_qty(once), once);
}

#[test]
fn partial_sales_leave_the_rest_of_a_lot() {
    let mut inventory = Inventory::new();
    let id = inventory.open_lot(Side::Up, d(45, 2), d(10, 0), d(45, 1), 0);
    let pnl = inventory.reduce_lot(Side::Up, id, d(4, 0), d(2, 0));
    assert_eq!(pnl, Some(d(2, 1)));
    assert!(inventory.lot_exists(Side::Up, id));
    assert_eq!(inventory.net_qty(Side::Up), d(6, 0));
    assert_eq!(inventory.net_cost(Side::Up), d(27, 1));
    let pnl = inventory.reduce_lot(Side::Up, id, d(99, 0), d(3, 0));
    assert_eq!(pnl, Some(d(3, 1)));
    assert!(!inventory.lot_exists(Side::Up, id));
    assert_eq!(inventory.reduce_lot(Side::Up, id, d(1, 0), d(1, 0)), None);
    let profit = inventory.realized_pnl().plus(inventory.snapshot().settle_pnl(Side::Up));
    assert_eq!(profit, inventory.net_qty(Side::Up).minus(inventory.net_invested()));
}

#[test]
fn lots_are_numbered_across_both_sides() {
    let mut inventory = Inventory::new();
    let ids: Vec<LotId> = [Side::Up, Side::Down, Side::Up]
        .iter()
        .map(|&side| inventory.open_lot(side, d(5, 1), d(2, 0), d(1, 0), 0))
        .collect();
    assert_eq!(ids, vec![LotId(0), LotId(1), LotId(2)]);
    assert!(!inventory.lot_exists(Side::Up, LotId(1)));
    assert_eq!(inventory.lot_count(Side::Up), 2);
}

#[test]
fn every_order_rests_or_is_reported_once() {
    let mut sim = Simulator::new(FeeModel::zero());
    sim.submit_order(order(1, Side::Up, OrderDirection::Buy, 50, OrderRole::Maker));
    sim.submit_order(order(2, Side::Up, OrderDirection::Buy, 40, OrderRole::Maker));
    sim.submit_order(order(3, Side::Up, OrderDirection::Sell, 60, OrderRole::Maker));
    sim.on_market(&market(44, 55));
    assert_eq!(sim.resting_order_count(), 2);
    assert!(matches!(sim.try_recv(), Some(ExchangeEvent::Filled(f)) if f.order_id == OrderId(1)));
    assert_eq!(sim.try_recv(), None);
    sim.submit_order(order(2, Side::Up, OrderDirection::Buy, 41, OrderRole::Maker));
    assert_eq!(sim.resting_order_count(), 2);
    sim.cancel_order(OrderId(2));
    sim.cancel_order(OrderId(2));
    assert_eq!(sim.try_recv(), Some(ExchangeEvent::Canceled(OrderId(2))));
    assert_eq!(sim.try_recv(), Some(ExchangeEvent::CancelFailed(OrderId(2))));
    sim.cancel_all();
    assert_eq!(sim.resting_order_count(), 0);
}

#[test]
fn takers_without_a_market_are_rejected() {
    let mut sim = Simulator::new(FeeModel::zero());
    sim.submit_order(order(9, Side::Down, OrderDirection::Buy, 99, OrderRole::Taker));
    assert_eq!(sim.resting_order_count(), 0);
    assert!(matches!(sim.try_recv(), Some(ExchangeEvent::Rejected { .. })));
}

#[test]
fn every_lot_is_offered_exactly_once() {
    let mut inventory = Inventory::new();
    let first = inventory.open_lot(Side::Up, d(40, 2), d(10, 0), d(4, 0), 0);
    let second = inventory.open_lot(Side::Up, d(42, 2), d(10, 0), d(42, 1), 0);
    let third = inventory.open_lot(Side::Down, d(50, 2), d(10, 0), d(5, 0), 0);
    let offered = vec![ActiveOrder {
        order_id: OrderId(7),
        side: Side::Up,
        direction: OrderDirection::Sell,
        price: d(45, 2),
        qty: d(10, 0),
        role: OrderRole::Maker,
        lot_id: Some(first),
    }];
    let config = StrategyConfig::default();
    let decision = CyclingStrategy.decide(&DecisionContext {
        trigger: Trigger::BookUpdate,
        progress: d(2, 1),
        market: market(46, 53),
        inventory: &inventory,
        active_orders: &offered,
        free_cash: d(1, 0),
        constraints: OrderConstraints::default(),
        config: &config,
    });
    let lots: Vec<LotId> = decision
        .commands
        .iter()
        .filter_map(|c| match c {
            CommandIntent::SubmitSell { lot_id, .. } => Some(*lot_id),
            _ => None,
        })
        .collect();
    assert_eq!(lots, vec![second, third]);
    assert_eq!(decision.commands.len(), 2);
}

#[test]
fn the_record_follows_an_order_through_its_life() {
    let mut record = OrderBook::new();
    record.insert(order(1, Side::Up, OrderDirection::Buy, 50, OrderRole::Maker), None);
    record.insert(order(2, Side::Up, OrderDirection::Sell, 60, OrderRole::Maker), Some(LotId(3)));
    record.insert(order(3, Side::Up, OrderDirection::Sell, 61, OrderRole::Maker), Some(LotId(3)));
    assert_eq!(record.total_active_buy_notional(), d(5, 0));
    assert_eq!(record.lot_id_for(OrderId(2)), Some(LotId(3)));
    assert!(record.apply_fill(OrderId(1), d(4, 0)));
    assert_eq!(record.active_buy_notional(Side::Up), d(3, 0));
    record.mark_cancel_pending(OrderId(1));
    assert_eq!(record.total_active_buy_notional(), Decimal::zero());
    assert_eq!(record.remove_sells_for_lot(LotId(3), OrderId(2)), vec![OrderId(3)]);
    assert!(!record.apply_fill(OrderId(2), d(10, 0)));
    assert_eq!(record.active_order_views().len(), 1);
    record.mark_side_cancel_pending(Side::Up);
    record.mark_all_cancel_pending();
    assert!(record.remove(OrderId(1)).is_some());
    assert!(record.is_empty());
}

#[test]
fn selling_a_lot_closes_it_at_its_profit() {
    let mut engine = Engine::new(EngineConfig::default());
    let snap = market(45, 54);
    engine.handle_event(&ExchangeEvent::BookUpdate(snap), 6_000);
    engine.handle_event(&buy_fill(1, Side::Up, 45, 10), 7_000);
    engine.handle_event(&ExchangeEvent::BookUpdate(snap), 73_000);
    assert_eq!(engine.phase(), Phase::Cycling);
    let commands = engine.handle_event(&ExchangeEvent::BookUpdate(snap), 74_000);
    let offer = commands
        .iter()
        .find_map(|c| match c {
            Command::SubmitOrder(o) if o.direction == OrderDirection::Sell => Some(*o),
            _ => None,
        })
        .unwrap();
    assert_eq!(offer.price, d(50, 2));
    assert_eq!(offer.generation, Generation(1));
    let sold = ExchangeEvent::Filled(Fill {
        order_id: offer.order_id,
        side: Side::Up,
        direction: OrderDirection::Sell,
        role: OrderRole::Maker,
        price: offer.price,
        filled_qty: offer.qty,
        cash: d(5, 0),
        generation: offer.generation,
    });
    engine.handle_event(&sold, 75_000);
    assert_eq!(engine.inventory().lot_count(Side::Up), 0);
    assert_eq!(engine.inventory().realized_pnl(), d(5, 1));
}

#[test]
fn the_match_only_moves_forward_and_then_stops() {
    let mut engine = Engine::new(EngineConfig::default());
    let update = ExchangeEvent::BookUpdate(market(45, 54));
    for (now, phase) in [
        (72_000, Phase::Cycling),
        (750_000, Phase::Harvesting),
        (871_000, Phase::Settled),
        (1_000, Phase::Settled),
    ] {
        let commands = engine.handle_event(&update, now);
        assert_eq!(engine.phase(), phase);
        assert!(commands.is_empty());
    }
}

fn submitted(commands: &Vec<Command>) -> Vec<Order> {
    commands
        .iter()
        .filter_map(|c| match c {
            Command::SubmitOrder(o) => Some(*o),
            _ => None,
        })
        .collect()
}

#[test]
fn what_is_filled_in_the_last_phase_is_booked() {
    let mut engine = Engine::new(EngineConfig::default());
    let update = ExchangeEvent::BookUpdate(market(45, 54));
    engine.handle_event(&buy_fill(7, Side::Up, 45, 10), 6_000);
    let offers = submitted(&engine.handle_event(&update, 100_000));
    assert!(offers.is_empty());
    let offers = submitted(&engine.handle_event(&update, 101_000));
    let offer = *offers.iter().find(|o| o.direction == OrderDirection::Sell).unwrap();
    for now in [760_000, 880_000] {
        engine.handle_event(&update, now);
    }
    assert_eq!(engine.phase(), Phase::Settled);

    assert!(engine.handle_event(&buy_fill(8, Side::Down, 54, 20), 881_000).is_empty());
    assert_eq!(engine.phase(), Phase::Settled);
    assert_eq!(engine.inventory().net_qty(Side::Down), d(20, 0));
    assert_eq!(engine.inventory().net_invested(), d(1530, 2));

    let sold = ExchangeEvent::Filled(Fill {
        order_id: offer.order_id,
        side: Side::Up,
        direction: OrderDirection::Sell,
        role: OrderRole::Maker,
        price: offer.price,
        filled_qty: offer.qty,
        cash: d(5, 0),
        generation: offer.generation,
    });
    // A cancellation is not booked any more, so the offer is still bound to its lot.
    assert!(engine.handle_event(&ExchangeEvent::Canceled(offer.order_id), 882_000).is_empty());
    assert!(engine.handle_event(&sold, 882_000).is_empty());
    assert_eq!(engine.inventory().lot_count(Side::Up), 0);
    assert_eq!(engine.inventory().realized_pnl(), d(5, 1));
    assert_eq!(engine.inventory().net_invested(), d(1030, 2));
}

#[test]
fn bids_of_one_decision_share_the_free_cash() {
    let update = ExchangeEvent::BookUpdate(market(45, 54));
    for (capital, bids) in [(4, 0), (5, 1), (9, 1), (10, 2)] {
        let mut engine = Engine::new(EngineConfig::with_capital(d(capital, 0)));
        let sent = submitted(&engine.handle_event(&update, 6_000));
        assert_eq!(sent.len(), bids);
    }
}

#[test]
fn orders_are_numbered_in_order_and_carry_the_generation() {
    let mut engine = Engine::new(EngineConfig::default());
    let update = ExchangeEvent::BookUpdate(market(45, 54));
    let mut last: Option<u64> = None;
    let mut sent = 0;
    for (now, generation) in [(6_000, 0), (72_000, 0), (73_000, 1), (74_000, 1)] {
        for order in submitted(&engine.handle_event(&update, now)) {
            assert_eq!(order.generation, Generation(generation));
            assert!(last.is_none() || last.unwrap() < order.order_id.0);
            last = Some(order.order_id.0);
            sent += 1;
        }
        if now == 6_000 {
            for order in submitted(&engine.handle_event(&buy_fill(0, Side::Up, 45, 10), now)) {
                assert!(last.unwrap() < order.order_id.0);
                last = Some(order.order_id.0);
            }
        }
    }
    assert!(sent >= 3);
}
