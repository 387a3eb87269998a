use hft_bot::decimal::Decimal;
use hft_bot::domain::market::{BookTop, MarketSnapshot};
use hft_bot::domain::order::{Fill, Generation, OrderConstraints, OrderDirection, OrderId};
use hft_bot::domain::pnl::PositionSnapshot;
use hft_bot::domain::round_state::RoundState;
use hft_bot::domain::state::RobotState;
use hft_bot::domain::types::{OrderRole, Side};
use hft_bot::hedging::building::BuildingStrategy;
use hft_bot::hedging::config::StrategyConfig;
use hft_bot::hedging::context::{
    ActiveOrder, CommandIntent, Decision, DecisionContext, PhaseStrategy, PoolBudgets, Trigger,
};
use hft_bot::hedging::dynamic_hedge::DynamicHedgeStrategy;
use hft_bot::ledger::Ledger;
use hft_bot::risk::auditor::{Approval, RiskAuditor};
use hft_bot::risk::pool::{CapitalPools, PoolRatios};

fn d(mantissa: i64, scale: u32) -> Decimal {
    Decimal::new(mantissa, scale)
}

fn position(up_qty: i64, down_qty: i64, up_cost: i64, down_cost: i64) -> PositionSnapshot {
    PositionSnapshot {
        up_qty: d(up_qty, 0),
        down_qty: d(down_qty, 0),
        up_cost: d(up_cost, 0),
        down_cost: d(down_cost, 0),
    }
}

fn context<'a>(
    position: PositionSnapshot,
    active_orders: &'a [ActiveOrder],
    round: &'a RoundState,
    trigger: Trigger,
) -> DecisionContext<'a> {
    let book = |bid: i64, ask: i64| BookTop {
        best_bid: Some(d(bid, 2)),
        best_ask: Some(d(ask, 2)),
        last_trade: None,
    };
    DecisionContext {
        total_capital: d(1000, 0),
        trigger,
        now: 10_000,
        time_to_expiry: 600_000,
        position,
        market: MarketSnapshot { up: book(28, 30), down: book(68, 70) },
        pools: PoolBudgets {
            grid_maker_total: d(150, 0),
            grid_maker_remaining: d(150, 0),
            dynamic_remaining: d(225, 0),
            ev_remaining: d(375, 0),
            max_exposure: d(1125, 1),
        },
        active_orders,
        constraints: OrderConstraints::default(),
        round,
    }
}

fn resting(price: i64, qty: i64) -> ActiveOrder {
    ActiveOrder {
        order_id: OrderId(1),
        side: Side::Down,
        direction: OrderDirection::Buy,
        price: d(price, 2),
        qty: d(qty, 0),
        role: OrderRole::Maker,
    }
}

fn shares(commands: &Vec<CommandIntent>) -> Decimal {
    commands.iter().fold(Decimal::zero(), |sum, c| match c {
        CommandIntent::Submit(o) => sum.plus(o.qty),
        _ => sum,
    })
}

#[test]
fn a_step_never_asks_for_more_than_the_gap_leaves() {
    let strategy = DynamicHedgeStrategy::new(StrategyConfig::default());
    let round = RoundState::new();
    for gap in [6, 12, 20, 40, 1000] {
        for held in [0, 3, 11] {
            let orders = [resting(66, held)];
            let ctx = context(position(100, 0, 30, 0), &orders, &round, Trigger::BookUpdate);
            let commands = strategy.weave(&ctx, Side::Down, d(gap, 0));
            assert!(shares(&commands).le(d((gap - held).max(0), 0)));
        }
    }
}

#[test]
fn a_lasting_double_negative_is_counted_once() {
    let strategy = DynamicHedgeStrategy::new(StrategyConfig::default());
    let losing = position(40, 50, 50, 50);
    let mut round = RoundState::new();
    let first = strategy.decide(&context(losing, &[], &round, Trigger::BookUpdate));
    assert_eq!(first.double_negative_update, Some((1, true)));
    round.update_double_negative(1, true);
    let second = strategy.decide(&context(losing, &[], &round, Trigger::BookUpdate));
    assert_eq!(second.double_negative_update, Some((1, true)));
    round.update_double_negative(1, false);
    let third = strategy.decide(&context(losing, &[], &round, Trigger::BookUpdate));
    assert_eq!(third.double_negative_update, Some((2, true)));
    assert_eq!(third.transition, Some(RobotState::EvHedge));
}

#[test]
fn the_ladder_is_placed_once_and_the_first_fill_leads_on() {
    let strategy = BuildingStrategy::new(StrategyConfig::default());
    let round = RoundState::new();
    let flat = position(0, 0, 0, 0);
    let decision = strategy.decide(&context(flat, &[], &round, Trigger::BookUpdate));
    assert_eq!(decision.commands.len(), 3);
    assert!(matches!(
        decision.commands[0],
        CommandIntent::Submit(o) if o.side == Side::Up && o.price == d(29, 2) && o.qty == d(5172, 2)
    ));
    let orders = [resting(29, 5)];
    let again = strategy.decide(&context(flat, &orders, &round, Trigger::BookUpdate));
    assert_eq!(again, Decision::skip());
    let filled = strategy.decide(&context(flat, &orders, &round, Trigger::Fill { side: Side::Up }));
    assert_eq!(filled.transition, Some(RobotState::Pairing));
}

#[test]
fn positions_answer_what_the_strategies_ask() {
    let p = position(100, 50, 40, 29);
    assert_eq!(p.weaker_side(), Some(Side::Down));
    assert_eq!(position(5, 5, 1, 2).weaker_side(), None);
    assert_eq!(p.float_pnl(Side::Up, d(25, 2)), Some(d(-15, 0)));
    assert_eq!(position(0, 5, 0, 2).float_pnl(Side::Up, d(25, 2)), None);
    assert_eq!(p.unpaired_cost(Side::Up), d(20, 0));
    assert_eq!(p.unpaired_cost(Side::Down), Decimal::zero());
    assert!(!p.both_sides_settle_negative());
    assert!(position(40, 50, 50, 50).both_sides_settle_negative());
    assert_eq!(p.expected_value(d(5, 1)), d(6, 0));
}

#[test]
fn pools_of_any_shares_add_up() {
    let pools = CapitalPools::new(
        d(777, 2),
        PoolRatios { reserve: d(1, 1), grid_maker: d(2, 1), dynamic: d(3, 1), ev: d(4, 1) },
    );
    let sum = pools.reserve().plus(pools.grid_maker()).plus(pools.dynamic()).plus(pools.ev());
    assert_eq!(sum, pools.total_capital());
    assert_eq!(pools.max_exposure(), d(11655, 4));
    assert_eq!(pools.ratios().ev, d(4, 1));
    let auditor = RiskAuditor::new(pools, d(5, 1));
    assert_eq!(auditor.cash_guard(), d(3885, 3));
    assert!(auditor.check_exposure(d(11655, 4)) == Approval::Approved);
}

#[test]
fn ledgers_keep_sides_apart_and_never_go_negative() {
    let fill = |side: Side, direction: OrderDirection, qty: i64, cash: i64| Fill {
        order_id: OrderId(0),
        side,
        direction,
        role: OrderRole::Maker,
        price: d(5, 1),
        filled_qty: d(qty, 0),
        cash: d(cash, 0),
        generation: Generation::new(),
    };
    let mut ledger = Ledger::new();
    ledger.apply_fill(&fill(Side::Up, OrderDirection::Buy, 3, 1));
    ledger.apply_fill(&fill(Side::Down, OrderDirection::Sell, 5, 2));
    assert_eq!(ledger.qty(Side::Down), Decimal::zero());
    assert_eq!(ledger.qty(Side::Up), d(3, 0));
    ledger.apply_fill(&fill(Side::Up, OrderDirection::Sell, 7, 9));
    assert_eq!(ledger, Ledger::new());
}

#[test]
fn a_skip_sends_nothing_and_stays() {
    assert!(Decision::skip().is_skip());
    assert!(!Decision::skip().with(CommandIntent::CancelAll).is_skip());
    assert!(!Decision::transition(RobotState::Pairing).is_skip());
    assert!(Decision::skip().with_dn_update(1, true).is_skip());
}
