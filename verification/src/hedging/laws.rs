//! What holds of the hedging strategies, whatever they see.

use crate::decimal::laws::{
    cutting_keeps_the_sign, cutting_rounds_down, difference_is_exact, rounding_is_valid,
    zero_value,
};
use crate::decimal::model::{pow10, MANTISSA_LIMIT};
use crate::decimal::dec;
use crate::domain::state::RobotState;
use crate::domain::types::{Price, Qty, Side};
use crate::fsm::legal;
use crate::hedging::building::BuildingStrategy;
use crate::hedging::circuit_breaker::CircuitBreakerStrategy;
use crate::hedging::config::{Rung, StrategyConfig};
use crate::hedging::context::{
    taking_bid, ActiveOrder, Choice, CommandIntent, Outlook, PhaseStrategy, Trigger,
};
use crate::hedging::dynamic_hedge::{
    affordable, double_negatives, rung_price, rung_target, shorter_side, step, step_cap, top_price,
    top_up, with_rungs, with_rungs_fits, woven, woven_fits, DynamicHedgeStrategy,
};
use crate::hedging::ev_hedge::{favourite, fires, step_qty, EvHedgeStrategy};
use crate::hedging::pairing::{
    exit, follow_commands, pair_commands, pair_target, pairing_price, pairing_price_fits,
    raw_pair_price, PairingStrategy,
};
use crate::hedging::router::{trips, way, Phase, Way};
use crate::hedging::tally::{first_price, qty_of};
use vstd::prelude::*;

verus! {

/// The time red line beats everything: whatever else is seen, everything is cancelled
/// and the robot waits for settlement.
pub proof fn red_line_beats_everything(ctx: Outlook, config: StrategyConfig)
    requires
        ctx.round.state != RobotState::SettlementWait,
        ctx.time_to_expiry < config.time_red_line,
    ensures
        way(ctx, config) == Way::Direct(Choice::leaving(RobotState::SettlementWait)),
{
}

/// After the red line the circuit breaker comes next: a collapsed spread opens it in
/// every state but its own and the last.
pub proof fn circuit_breaker_comes_next(ctx: Outlook, config: StrategyConfig)
    requires
        ctx.round.state != RobotState::SettlementWait,
        ctx.round.state != RobotState::CircuitBreaker,
        ctx.time_to_expiry >= config.time_red_line,
        trips(ctx.market, config),
    ensures
        way(ctx, config) == Way::Direct(Choice::leaving(RobotState::CircuitBreaker)),
{
}

/// While waiting for settlement nothing is done.
pub proof fn waiting_does_nothing(ctx: Outlook, config: StrategyConfig)
    requires
        ctx.round.state == RobotState::SettlementWait,
    ensures
        way(ctx, config) == Way::Direct(Choice::nothing()),
{
}

/// The decision of whoever decides.
pub open spec fn routed(ctx: Outlook, cfg: StrategyConfig) -> Choice {
    match way(ctx, cfg) {
        Way::Direct(choice) => choice,
        Way::Phase(Phase::Building) => (BuildingStrategy { cfg }).choice(ctx),
        Way::Phase(Phase::Pairing) => (PairingStrategy { cfg }).choice(ctx),
        Way::Phase(Phase::DynamicHedge) => (DynamicHedgeStrategy { cfg }).choice(ctx),
        Way::Phase(Phase::EvHedge) => (EvHedgeStrategy { cfg }).choice(ctx),
        Way::Phase(Phase::CircuitBreaker) => (CircuitBreakerStrategy { cfg }).choice(ctx),
    }
}

/// Every move that is decided is legal, but for the one from building straight to the
/// expected-value hedge shortly before the end.
pub proof fn decided_moves_are_legal(ctx: Outlook, config: StrategyConfig)
    requires
        !(ctx.round.state == RobotState::Building && routed(ctx, config).transition == Some(
            RobotState::EvHedge,
        )),
    ensures
        routed(ctx, config).transition matches Some(next) ==> legal(ctx.round.state, next),
{
    if let Way::Phase(Phase::DynamicHedge) = way(ctx, config) {
        if let Some(side) = shorter_side(ctx) {
            lemma_step_stays(config, ctx, side);
        }
    }
}

/// A double negative that lasts is counted once: once it was noted, it adds nothing.
pub proof fn double_negatives_are_counted_once(first: Outlook, second: Outlook)
    requires
        second.round.was_double_negative == first.position.loses_either_way(),
        second.round.double_negative_count == double_negatives(first),
        first.position.loses_either_way(),
    ensures
        double_negatives(second) == double_negatives(first),
{
}

/// The dynamic hedge goes over to the expected-value hedge only upon the second double
/// negative; too much exposure never leads there.
pub proof fn only_double_negatives_escalate(ctx: Outlook, config: StrategyConfig)
    ensures
        (DynamicHedgeStrategy { cfg: config }).choice(ctx).transition == Some(RobotState::EvHedge)
            ==> double_negatives(ctx) >= 2,
{
    if let Some(side) = shorter_side(ctx) {
        lemma_step_stays(config, ctx, side);
    }
}

/// Once the funds ran out, the dynamic hedge places nothing more.
pub proof fn exhausted_funds_stay_exhausted(ctx: Outlook, config: StrategyConfig, i: int)
    requires
        ctx.round.funds_exhausted,
        0 <= i < (DynamicHedgeStrategy { cfg: config }).choice(ctx).commands.len(),
    ensures
        !((DynamicHedgeStrategy { cfg: config }).choice(ctx).commands[i] is Submit),
{
}

proof fn lemma_step_stays(config: StrategyConfig, ctx: Outlook, side: Side)
    ensures
        step(config, ctx, side).transition matches Some(state) ==> state
            == RobotState::SettlementWait,
{
}

/// The shares that some bids ask for, exactly.
pub open spec fn asked_for(commands: Seq<CommandIntent>) -> real
    decreases commands.len(),
{
    if commands.len() == 0 {
        0real
    } else {
        asked_for(commands.drop_last()) + match commands.last() {
            CommandIntent::Submit(order) => order.qty@,
            _ => 0real,
        }
    }
}

/// One step of the dynamic hedge never asks for more than the gap leaves beside what
/// already rests, nor for more than the budget buys, as long as shares of this size can
/// be written with the exchange's digits.
pub proof fn hedging_never_overshoots(config: StrategyConfig, ctx: Outlook, side: Side, gap: Qty)
    requires
        woven_fits(config, ctx, side, gap),
        ctx.market.at(side).best_ask is Some,
        ctx.constraints.size_scale <= 28,
        ({
            let cap = step_cap(config, ctx, side, gap, ctx.market.at(side).best_ask->0);
            cap@ * (pow10(ctx.constraints.size_scale as nat) as real) < MANTISSA_LIMIT as real
        }),
    ensures
        gap@ > qty_of(ctx.active_orders, side, None)@ && woven(config, ctx, side, gap).len() > 0
            ==> {
            let ask = ctx.market.at(side).best_ask->0;
            &&& asked_for(woven(config, ctx, side, gap)) <= (gap - qty_of(
                ctx.active_orders,
                side,
                None,
            ))@
            &&& asked_for(woven(config, ctx, side, gap)) <= affordable(config, ctx, ask)@
        },
{
    let ask = ctx.market.at(side).best_ask->0;
    let active = qty_of(ctx.active_orders, side, None);
    let cap = step_cap(config, ctx, side, gap, ask);
    let price = top_price(config, ctx, ask);
    if gap@ > active@ && price@ > 0real {
        rounding_is_valid(gap@ - active@);
        rounding_is_valid(
            crate::hedging::dynamic_hedge::step_budget(config, ctx)@ / price@,
        );
        assert(cap.wf());
        if gap@ <= affordable(config, ctx, ask)@ {
            let qty = top_up(ctx, side, price, gap, cap);
            lemma_top_up(ctx, side, price, gap, cap);
            let one = woven(config, ctx, side, gap);
            if one.len() > 0 {
                assert(one.drop_last() =~= Seq::<CommandIntent>::empty());
                assert(asked_for(one.drop_last()) == 0real);
                assert(asked_for(one) == qty@);
            }
        } else {
            lemma_rungs(config, ctx, side, ask, cap, config.dynamic_rungs@);
            assert(asked_for(woven(config, ctx, side, gap)) <= cap@ || woven(
                config,
                ctx,
                side,
                gap,
            ).len() == 0);
        }
    }
}

/// What is topped up is no more than the cap.
proof fn lemma_top_up(ctx: Outlook, side: Side, price: Price, target: Qty, cap: Qty)
    requires
        cap.wf(),
    ensures
        top_up(ctx, side, price, target, cap)@ > 0real ==> top_up(
            ctx,
            side,
            price,
            target,
            cap,
        )@ <= cap@,
{
    let size = ctx.constraints.size_scale as nat;
    if cap@ >= 0real {
        cutting_rounds_down(cap, size);
    } else {
        cutting_keeps_the_sign(cap, size);
    }
}

/// The shares of a rung are a whole number of units of the last digit.
proof fn lemma_top_up_units(ctx: Outlook, side: Side, price: Price, target: Qty, cap: Qty) -> (n:
    int)
    requires
        cap.wf(),
        cap@ > 0real,
        crate::hedging::dynamic_hedge::top_up_fits(ctx, side, price, target, cap),
        top_up(ctx, side, price, target, cap)@ > 0real,
        ctx.constraints.size_scale <= 28,
    ensures
        top_up(ctx, side, price, target, cap)@ == crate::decimal::model::scaled(
            n,
            ctx.constraints.size_scale as nat,
        ),
{
    let size = ctx.constraints.size_scale as nat;
    let resting = qty_of(ctx.active_orders, side, Some(price));
    zero_value();
    if target@ > resting@ {
        rounding_is_valid(target@ - resting@);
        let missing = target - resting;
        cutting_rounds_down(missing, size);
        cutting_rounds_down(cap, size);
        if missing.cut(size)@ < cap@ {
            crate::decimal::model::cut_parts(missing@, size).0
        } else {
            crate::decimal::model::cut_parts(cap@, size).0
        }
    } else {
        cutting_rounds_down(cap, size);
        crate::decimal::model::cut_parts(cap@, size).0
    }
}

proof fn lemma_rungs(
    config: StrategyConfig,
    ctx: Outlook,
    side: Side,
    ask: Price,
    cap: Qty,
    rungs: Seq<Rung>,
)
    requires
        cap.wf(),
        with_rungs_fits(config, ctx, side, ask, cap, rungs),
        ctx.constraints.size_scale <= 28,
        cap@ * (pow10(ctx.constraints.size_scale as nat) as real) < MANTISSA_LIMIT as real,
    ensures
        ({
            let weft = with_rungs(config, ctx, side, ask, cap, rungs);
            &&& weft.cap.wf()
            &&& asked_for(weft.commands) + weft.cap@ == cap@
            &&& weft.cap@ <= cap@
            &&& weft.commands.len() > 0 ==> weft.cap@ >= 0real
        }),
    decreases rungs.len(),
{
    if rungs.len() > 0 {
        let init = rungs.drop_last();
        let rung = rungs.last();
        lemma_rungs(config, ctx, side, ask, cap, init);
        let before = with_rungs(config, ctx, side, ask, cap, init);
        let after = with_rungs(config, ctx, side, ask, cap, rungs);
        let price = rung_price(ctx, ask, rung);
        let target = rung_target(config, ctx, ask, rung);
        let qty = top_up(ctx, side, price, target, before.cap);
        if after != before {
            lemma_top_up(ctx, side, price, target, before.cap);
            let n = lemma_top_up_units(ctx, side, price, target, before.cap);
            let size = ctx.constraints.size_scale as nat;
            let p = pow10(size) as real;
            crate::decimal::model::lemma_pow10_positive(size);
            let x = before.cap@;
            let y = cap@;
            assert(x * p <= y * p) by (nonlinear_arith)
                requires
                    x <= y,
                    p > 0real,
            ;
            difference_is_exact(before.cap, n, size);
            rounding_is_valid(before.cap@ - qty@);
            assert(after.commands.drop_last() =~= before.commands);
        }
    }
}

/// The price of a pair leaves the margin beside the average of the main side, and stays
/// below the best ask of the other side.
pub proof fn pairs_leave_the_margin(config: StrategyConfig, ctx: Outlook, main: Side)
    requires
        pairing_price_fits(config, ctx, main),
        pairing_price(config, ctx, main) is Some,
    ensures
        pairing_price(config, ctx, main)->0@ <= (dec(1, 0) - ctx.position.average(main)->0
            - config.profit_margin)@,
        ctx.market.at(main.other()).best_ask matches Some(ask) && pairing_price(
            config,
            ctx,
            main,
        )->0@ <= (ask - config.follow_offset)@,
{
    let average = ctx.position.average(main)->0;
    let ask = ctx.market.at(main.other()).best_ask->0;
    let raw = raw_pair_price(config, average, ask);
    rounding_is_valid((dec(1, 0) - average)@ - config.profit_margin@);
    rounding_is_valid(ask@ - config.follow_offset@);
    if raw@ >= 0real {
        cutting_rounds_down(raw, ctx.constraints.price_scale as nat);
    } else {
        cutting_keeps_the_sign(raw, ctx.constraints.price_scale as nat);
    }
}

/// The shares of the resting orders of a side, exactly.
pub open spec fn resting_value(orders: Seq<ActiveOrder>, side: Side) -> real
    decreases orders.len(),
{
    if orders.len() == 0 {
        0real
    } else {
        resting_value(orders.drop_last(), side) + if orders.last().side == side {
            orders.last().qty@
        } else {
            0real
        }
    }
}

/// The shares of the resting orders of a side that a decision keeps.
pub open spec fn kept_value(
    commands: Seq<CommandIntent>,
    orders: Seq<ActiveOrder>,
    side: Side,
) -> real {
    if commands.contains(CommandIntent::CancelSide(side)) {
        0real
    } else {
        resting_value(orders, side)
    }
}

/// Whether a wish places an order of a side.
pub open spec fn places(intent: CommandIntent, side: Side) -> bool {
    intent matches CommandIntent::Submit(order) && order.side == side
}

/// Whether the orders of a side all rest at one price.
pub open spec fn at_one_price(orders: Seq<ActiveOrder>, side: Side) -> bool {
    forall|i: int, j: int|
        0 <= i < orders.len() && 0 <= j < orders.len() && (#[trigger] orders[i]).side == side && (
        #[trigger] orders[j]).side == side ==> orders[i].price == orders[j].price
}

/// Whether nothing is rounded when the gap is taken, the pair orders that rest are added
/// up, and these are taken off what the other side lacks.
pub open spec fn gap_is_exact(ctx: Outlook, main: Side) -> bool {
    let opp = main.other();
    let active = qty_of(ctx.active_orders, opp, None);
    &&& (ctx.position.shares(main) - ctx.position.shares(opp))@ == ctx.position.shares(main)@
        - ctx.position.shares(opp)@
    &&& active@ == resting_value(ctx.active_orders, opp)
    &&& (pair_target(ctx, main) - active)@ == pair_target(ctx, main)@ - active@
}

/// Pairing places at most one order of the other side. It rests at the price of all the
/// orders of that side that are kept, so that they stay at one price; and together with
/// what is kept it never asks for more than the gap, as long as nothing is rounded on the
/// way.
pub proof fn pairs_keep_one_price_and_the_gap(ctx: Outlook, config: StrategyConfig, main: Side)
    requires
        (PairingStrategy { cfg: config }).ready(ctx),
        ctx.round.main_field == Some(main),
        at_one_price(ctx.active_orders, main.other()),
        forall|k: int|
            0 <= k < ctx.active_orders.len() ==> (#[trigger] ctx.active_orders[k]).qty@ >= 0real,
        gap_is_exact(ctx, main),
    ensures
        ({
            let opp = main.other();
            let commands = (PairingStrategy { cfg: config }).choice(ctx).commands;
            &&& forall|i: int, j: int|
                0 <= i < commands.len() && 0 <= j < commands.len() && places(
                    #[trigger] commands[i],
                    opp,
                ) && places(#[trigger] commands[j], opp) ==> i == j
            &&& forall|i: int|
                0 <= i < commands.len() && places(#[trigger] commands[i], opp) ==> {
                    let order = commands[i]->Submit_0;
                    &&& commands.contains(CommandIntent::CancelSide(opp)) || forall|k: int|
                        0 <= k < ctx.active_orders.len() && (#[trigger] ctx.active_orders[k]).side
                            == opp ==> ctx.active_orders[k].price == order.price
                    &&& ctx.constraints.min_order_size@ > 0real ==> order.qty@ > 0real
                    &&& order.qty@ > 0real ==> kept_value(commands, ctx.active_orders, opp)
                        + order.qty@ <= ctx.position.shares(main)@ - ctx.position.shares(opp)@
                }
        }),
{
    let opp = main.other();
    let commands = (PairingStrategy { cfg: config }).choice(ctx).commands;
    let size = ctx.constraints.size_scale as nat;
    if exit(config, ctx) is None && ctx.trigger == (Trigger::Fill { side: main }) {
        let first = follow_commands(config, ctx, main);
        let second = pair_commands(config, ctx, main);
        let n = first.len();
        assert(commands == first + second);
        assert forall|i: int| 0 <= i < commands.len() && places(#[trigger] commands[i], opp) implies
            i == commands.len() - 1 && i >= n by {
            if i >= n {
                assert(commands[i] == second[i - n]);
            } else {
                assert(commands[i] == first[i]);
            }
        }
        if pairing_price(config, ctx, main) is Some {
            let new_price = pairing_price(config, ctx, main)->0;
            let gap = ctx.position.shares(main) - ctx.position.shares(opp);
            let target = pair_target(ctx, main);
            let active = qty_of(ctx.active_orders, opp, None);
            zero_value();
            rounding_is_valid(ctx.position.shares(main)@ - ctx.position.shares(opp)@);
            cutting_rounds_down(gap.larger(dec(0, 0)), size);
            lemma_first_price(ctx.active_orders, opp);
            if let Some(price) = first_price(ctx.active_orders, opp) {
                if (new_price - price).absolute()@ > config.repair_tolerance@ {
                    assert(commands[n as int] == second[0]);
                    assert(commands.contains(CommandIntent::CancelSide(opp)));
                } else {
                    assert forall|i: int| 0 <= i < commands.len() implies #[trigger] commands[i]
                        != CommandIntent::CancelSide(opp) by {
                        if i >= n {
                            assert(commands[i] == second[i - n]);
                        } else {
                            assert(commands[i] == first[i]);
                        }
                    }
                    lemma_resting_value(ctx.active_orders, opp);
                    rounding_is_valid(target@ - active@);
                    if (target - active)@ >= 0real {
                        cutting_rounds_down(target - active, size);
                    } else {
                        cutting_keeps_the_sign(target - active, size);
                    }
                }
            }
            assert forall|i: int|
                0 <= i < commands.len() && places(#[trigger] commands[i], opp) implies {
                let order = commands[i]->Submit_0;
                &&& commands.contains(CommandIntent::CancelSide(opp)) || forall|k: int|
                    0 <= k < ctx.active_orders.len() && (#[trigger] ctx.active_orders[k]).side
                        == opp ==> ctx.active_orders[k].price == order.price
                &&& ctx.constraints.min_order_size@ > 0real ==> order.qty@ > 0real
                &&& order.qty@ > 0real ==> kept_value(commands, ctx.active_orders, opp)
                    + order.qty@ <= ctx.position.shares(main)@ - ctx.position.shares(opp)@
            } by {
                assert(commands[i] == second[i - n]);
            }
        }
    }
}

pub proof fn lemma_resting_value(orders: Seq<ActiveOrder>, side: Side)
    requires
        forall|k: int| 0 <= k < orders.len() ==> (#[trigger] orders[k]).qty@ >= 0real,
    ensures
        resting_value(orders, side) >= 0real,
    decreases orders.len(),
{
    if orders.len() > 0 {
        assert(orders[orders.len() - 1].qty@ >= 0real);
        lemma_resting_value(orders.drop_last(), side);
    }
}

/// The first price of a side is that of one of its orders, and there is none only where
/// nothing rests.
proof fn lemma_first_price(orders: Seq<ActiveOrder>, side: Side)
    ensures
        match first_price(orders, side) {
            Some(price) => exists|k: int|
                0 <= k < orders.len() && (#[trigger] orders[k]).side == side && orders[k].price
                    == price,
            None => resting_value(orders, side) == 0real && forall|k: int|
                0 <= k < orders.len() ==> (#[trigger] orders[k]).side != side,
        },
    decreases orders.len(),
{
    if orders.len() > 0 {
        let init = orders.drop_last();
        lemma_first_price(init, side);
        assert(orders[orders.len() - 1] == orders.last());
        if let Some(price) = first_price(init, side) {
            let k = choose|k: int|
                0 <= k < init.len() && (#[trigger] init[k]).side == side && init[k].price == price;
            assert(orders[k] == init[k]);
        } else {
            assert forall|k: int| 0 <= k < init.len() implies (#[trigger] orders[k]).side
                != side by {
                assert(orders[k] == init[k]);
            }
        }
    }
}

/// The expected-value hedge buys nothing but its favourite, at once or not at all, at the
/// price cap, and only while the chance is in the band.
pub proof fn ev_hedge_buys_the_favourite(ctx: Outlook, config: StrategyConfig, i: int)
    requires
        0 <= i < (EvHedgeStrategy { cfg: config }).choice(ctx).commands.len(),
        (EvHedgeStrategy { cfg: config }).choice(ctx).commands[i] is Submit,
    ensures
        favourite(ctx) matches Some((side, chance)) && fires(config, ctx, side, chance)
            && (EvHedgeStrategy { cfg: config }).choice(ctx).commands[i] == CommandIntent::Submit(
            taking_bid(side, config.ev_price_cap, step_qty(config, ctx)),
        ),
{
}

/// An open circuit breaker places nothing, and closes only after the calm has lasted.
pub proof fn circuit_breaker_waits_for_calm(ctx: Outlook, config: StrategyConfig)
    ensures
        (CircuitBreakerStrategy { cfg: config }).choice(ctx).commands.len() == 0,
        (CircuitBreakerStrategy { cfg: config }).choice(ctx).transition is Some ==> !trips(
            ctx.market,
            config,
        ) && (ctx.round.calm_since matches Some(since) && ctx.now - since
            >= config.circuit_recover_stable),
{
}

/// In pairing, a fill of the other side, or anything but a fill of the main side, places
/// nothing.
pub proof fn only_main_fills_are_answered(ctx: Outlook, config: StrategyConfig, i: int)
    requires
        ctx.round.main_field matches Some(main) ==> ctx.trigger != (Trigger::Fill { side: main }),
        0 <= i < (PairingStrategy { cfg: config }).choice(ctx).commands.len(),
    ensures
        !((PairingStrategy { cfg: config }).choice(ctx).commands[i] is Submit),
{
}

} // verus!
