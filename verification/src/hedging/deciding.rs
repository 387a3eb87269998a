//! When the hedging strategies act and with what, told by the fields of what they see: who
//! decides, and the orders of the pairing state.

use crate::decimal::laws::zero_value;
use crate::decimal::dec;
use crate::domain::market::BookTop;
use crate::domain::pnl::PositionSnapshot;
use crate::domain::state::RobotState;
use crate::domain::types::{Money, Price, Side};
use crate::hedging::circuit_breaker::CircuitBreakerStrategy;
use crate::hedging::config::StrategyConfig;
use crate::hedging::context::{ActiveOrder, CommandIntent, Outlook, PhaseStrategy, Trigger};
use crate::hedging::pairing::{
    exit, follow_base, follow_commands, pair_commands, pairing_price, PairingStrategy,
};
use crate::hedging::placing::{across, held, is_large_enough, is_maker_bid, outcome, paid, top_of};
use crate::hedging::router::{way, Phase, Way};
use crate::hedging::tally::{counts, first_price, has_bid_at, lowest_price, notional_of, qty_of};
use vstd::prelude::*;

verus! {

/// Whether the spread of a book is wider than a share of its bid. A book without a
/// positive bid or without an ask has no spread.
pub open spec fn is_torn(top: BookTop, limit: Price) -> bool {
    &&& top.best_bid is Some
    &&& top.best_ask is Some
    &&& top.best_bid->0@ > 0real
    &&& ((top.best_ask->0 - top.best_bid->0) / top.best_bid->0)@ > limit@
}

/// What the worse outcome loses, weighted by its chance: the mark price of that side, or
/// certainty where there is none. `Up` counts as the worse one where they are equal.
pub open spec fn weighted_loss(ctx: Outlook) -> Money {
    let up = outcome(ctx.position, Side::Up);
    let down = outcome(ctx.position, Side::Down);
    if down@ < up@ {
        down * (match ctx.market.down.mark() {
            Some(price) => price,
            None => dec(1, 0),
        })
    } else {
        up * (match ctx.market.up.mark() {
            Some(price) => price,
            None => dec(1, 0),
        })
    }
}

/// Who decides, by priority: while waiting for settlement nobody; within the time red line
/// everything is cancelled for settlement; an open circuit breaker decides for itself; a
/// torn spread on either side opens it; in the last phase the weighted loss leads to the
/// expected-value hedge or to settlement; and only then the strategy of the state decides.
pub proof fn rules_come_by_priority(ctx: Outlook, config: StrategyConfig)
    ensures
        ({
            let state = ctx.round.state;
            let torn = is_torn(ctx.market.up, config.circuit_trigger_ratio) || is_torn(
                ctx.market.down,
                config.circuit_trigger_ratio,
            );
            let chosen = way(ctx, config);
            if state == RobotState::SettlementWait {
                chosen matches Way::Direct(choice) && choice.commands.len() == 0
                    && choice.transition is None
            } else if ctx.time_to_expiry < config.time_red_line {
                leaves_for(chosen, RobotState::SettlementWait)
            } else if state == RobotState::CircuitBreaker {
                chosen == Way::Phase(Phase::CircuitBreaker)
            } else if torn {
                leaves_for(chosen, RobotState::CircuitBreaker)
            } else if state == RobotState::EvHedge {
                chosen == Way::Phase(Phase::EvHedge)
            } else if ctx.time_to_expiry < config.last_phase_window {
                if weighted_loss(ctx)@ <= (config.loss_trigger * ctx.total_capital)@ {
                    leaves_for(chosen, RobotState::EvHedge)
                } else {
                    leaves_for(chosen, RobotState::SettlementWait)
                }
            } else if state == RobotState::Building {
                chosen == Way::Phase(Phase::Building)
            } else if state == RobotState::Pairing {
                chosen == Way::Phase(Phase::Pairing)
            } else {
                state is DynamicHedge && chosen == Way::Phase(Phase::DynamicHedge)
            }
        }),
{
}

/// Whether a rule cancels everything and moves to a state, and notes nothing else.
pub open spec fn leaves_for(chosen: Way, state: RobotState) -> bool {
    chosen matches Way::Direct(choice) && {
        &&& choice.commands == seq![CommandIntent::CancelAll]
        &&& choice.transition == Some(state)
        &&& !choice.freeze_main_field
        &&& !choice.mark_funds_exhausted
        &&& choice.double_negative_update is None
    }
}

/// An open circuit breaker sends nothing. It closes if and only if neither spread is torn
/// and the calm has lasted; then pairing is resumed where shares of either side are held,
/// and building otherwise.
pub proof fn the_circuit_breaker_closes_after_the_calm(ctx: Outlook, config: StrategyConfig)
    ensures
        ({
            let choice = (CircuitBreakerStrategy { cfg: config }).choice(ctx);
            let torn = is_torn(ctx.market.up, config.circuit_trigger_ratio) || is_torn(
                ctx.market.down,
                config.circuit_trigger_ratio,
            );
            let lasted = ctx.round.calm_since matches Some(since) && since
                + config.circuit_recover_stable <= ctx.now;
            &&& choice.commands.len() == 0
            &&& torn || !lasted ==> choice.transition is None
            &&& !torn && lasted ==> choice.transition == Some(
                if ctx.position.up_qty@ > 0real || ctx.position.down_qty@ > 0real {
                    RobotState::Pairing
                } else {
                    RobotState::Building
                },
            )
        }),
{
}

/// What a position is worth: its outcomes, the side at whose victory less is made, whether
/// it loses either way, and what it makes on average.
pub proof fn positions_are_worth_their_outcomes(position: PositionSnapshot, chance: Price)
    ensures
        position.settled(Side::Up) == position.up_qty - (position.up_cost + position.down_cost),
        position.settled(Side::Down) == position.down_qty - (position.up_cost
            + position.down_cost),
        position.loses_either_way() <==> outcome(position, Side::Up)@ < 0real && outcome(
            position,
            Side::Down,
        )@ < 0real,
        position.weaker() == (if outcome(position, Side::Up)@ < outcome(position, Side::Down)@ {
            Some(Side::Up)
        } else if outcome(position, Side::Down)@ < outcome(position, Side::Up)@ {
            Some(Side::Down)
        } else {
            None
        }),
        position.expected(chance) == chance * outcome(position, Side::Up) + (dec(1, 0) - chance)
            * outcome(position, Side::Down),
{
}

/// What the unpaired shares of a side cost: those by which it leads, at its own average;
/// nothing where it does not lead or nothing is held.
pub proof fn only_a_lead_is_unpaired(position: PositionSnapshot, side: Side, bid: Price)
    ensures
        ({
            let mine = held(position, side);
            let other = held(position, across(side));
            let average = paid(position, side) / mine;
            &&& mine@ <= 0real ==> position.average(side) is None && position.unpaired(side)
                == dec(0, 0) && position.floating(side, bid) is None
            &&& mine@ > 0real ==> {
                &&& position.average(side) == Some(average)
                &&& position.floating(side, bid) == Some(mine * bid - paid(position, side))
                &&& (mine - other)@ >= 0real ==> position.unpaired(side) == (mine - other)
                    * average
                &&& (mine - other)@ < 0real ==> position.unpaired(side) == dec(0, 0) * average
            }
        }),
{
    zero_value();
}

/// Whether a side, sold at its bid, has lost as much as calls for a hedge.
pub open spec fn sells_at_a_loss(ctx: Outlook, side: Side, loss: Money) -> bool {
    &&& held(ctx.position, side)@ > 0real
    &&& top_of(ctx.market, side).best_bid is Some
    &&& (held(ctx.position, side) * top_of(ctx.market, side).best_bid->0 - paid(
        ctx.position,
        side,
    ))@ <= loss@
}

/// Pairing ends for settlement once both outcomes lock the profit in; else for the dynamic
/// hedge once an outcome has reached the loss while the other side cost enough to count,
/// or a side sold at its bid has; else it pauses while the pool cannot pay for another
/// order; and without a main side nothing is done.
pub proof fn pairing_ends_for_a_reason(ctx: Outlook, config: StrategyConfig)
    requires
        ctx.round.main_field is Some,
    ensures
        ({
            let choice = (PairingStrategy { cfg: config }).choice(ctx);
            let up = outcome(ctx.position, Side::Up)@;
            let down = outcome(ctx.position, Side::Down)@;
            let lock = (config.making_profit_lock * ctx.total_capital)@;
            let loss = config.loss_trigger * ctx.total_capital;
            let counts = (config.single_side_threshold * ctx.total_capital)@;
            let breach = {
                ||| up <= loss@ && ctx.position.down_cost@ > counts
                ||| down <= loss@ && ctx.position.up_cost@ > counts
                ||| sells_at_a_loss(ctx, Side::Up, loss)
                ||| sells_at_a_loss(ctx, Side::Down, loss)
            };
            if up >= lock && down >= lock {
                &&& choice.commands == seq![CommandIntent::CancelAll]
                &&& choice.transition == Some(RobotState::SettlementWait)
            } else if breach {
                &&& choice.commands.len() == 0
                &&& choice.transition == Some(
                    RobotState::DynamicHedge {
                        double_negative_count: ctx.round.double_negative_count,
                    },
                )
            } else {
                &&& choice.transition is None
                &&& ctx.pools.grid_maker_remaining@ < ctx.constraints.min_notional@
                    ==> choice.commands.len() == 0 && !choice.freeze_main_field
                &&& ctx.trigger != (Trigger::Fill { side: ctx.round.main_field->0 })
                    ==> choice.commands.len() == 0 && !choice.freeze_main_field
            }
        }),
{
}

/// Without a main side pairing does nothing.
pub proof fn pairing_needs_a_main_side(ctx: Outlook, config: StrategyConfig)
    requires
        ctx.round.main_field is None,
    ensures
        (PairingStrategy { cfg: config }).choice(ctx).commands.len() == 0,
        (PairingStrategy { cfg: config }).choice(ctx).transition is None,
        !(PairingStrategy { cfg: config }).choice(ctx).freeze_main_field,
{
}

/// Whether a price is the lowest at which an order of a side rests.
pub open spec fn is_lowest(orders: Seq<ActiveOrder>, side: Side, price: Price) -> bool {
    &&& exists|k: int|
        0 <= k < orders.len() && (#[trigger] orders[k]).side == side && orders[k].price == price
    &&& forall|k: int|
        0 <= k < orders.len() && (#[trigger] orders[k]).side == side ==> orders[k].price@ >= price@
}

/// Whether an order of a side rests.
pub open spec fn any_rests(orders: Seq<ActiveOrder>, side: Side) -> bool {
    exists|k: int| 0 <= k < orders.len() && (#[trigger] orders[k]).side == side
}

/// A bid that pairing places for the main side follows below the lowest one that rests
/// there, or below the average where none does, by the offset and cut to the exchange's
/// digits, where no order of that side rests yet; it is the pool's part of a following bid,
/// as a maker; and the unpaired shares, the resting bids and it together stay within the
/// exposure. It is never placed once the main side is frozen.
pub proof fn following_bids_go_lower(ctx: Outlook, config: StrategyConfig, main: Side, i: int)
    requires
        ctx.round.main_field == Some(main),
        0 <= i < (PairingStrategy { cfg: config }).choice(ctx).commands.len(),
        (PairingStrategy { cfg: config }).choice(ctx).commands[i] is Submit,
        (PairingStrategy { cfg: config }).choice(ctx).commands[i]->Submit_0.side == main,
    ensures
        ({
            let order = (PairingStrategy { cfg: config }).choice(ctx).commands[i]->Submit_0;
            &&& !ctx.round.main_field_frozen
            &&& is_maker_bid(order)
            &&& is_large_enough(ctx, order)
            &&& order.price@ > 0real
            &&& exists|base: Price| #[trigger]
                is_base(ctx, main, base) && order.price == (base - config.follow_offset).cut(
                    ctx.constraints.price_scale as nat,
                )
            &&& forall|k: int|
                0 <= k < ctx.active_orders.len() && (#[trigger] ctx.active_orders[k]).side == main
                    ==> ctx.active_orders[k].price != order.price
            &&& order.qty == (ctx.pools.grid_maker_total * config.follow_fraction
                / order.price).cut(ctx.constraints.size_scale as nat)
            &&& (ctx.position.unpaired(main) + notional_of(ctx.active_orders, main) + order.price
                * order.qty)@ <= ctx.pools.max_exposure@
        }),
{
    let commands = (PairingStrategy { cfg: config }).choice(ctx).commands;
    let first = follow_commands(config, ctx, main);
    let second = pair_commands(config, ctx, main);
    assert(commands == first + second);
    lemma_pairs_are_across(ctx, config, main);
    if i >= first.len() {
        assert(commands[i] == second[i - first.len()]);
        assert(false);
    }
    assert(commands[i] == first[i]);
    let order = commands[i]->Submit_0;
    lemma_lowest(ctx.active_orders, main);
    lemma_average(ctx, main);
    assert(is_base(ctx, main, follow_base(ctx, main)));
    assert forall|k: int|
        0 <= k < ctx.active_orders.len() && (#[trigger] ctx.active_orders[k]).side
            == main implies ctx.active_orders[k].price != order.price by {
        if ctx.active_orders[k].price == order.price {
            assert(counts(ctx.active_orders[k], main, Some(order.price)));
            assert(has_bid_at(ctx.active_orders, main, order.price));
        }
    }
}

/// Whether a price is what the next bid of a side follows: the lowest at which one rests,
/// or the average of what is held where none does.
pub open spec fn is_base(ctx: Outlook, side: Side, base: Price) -> bool {
    &&& any_rests(ctx.active_orders, side) ==> is_lowest(ctx.active_orders, side, base)
    &&& !any_rests(ctx.active_orders, side) ==> held(ctx.position, side)@ > 0real && base == paid(
        ctx.position,
        side,
    ) / held(ctx.position, side)
}

/// Pairing cancels the main side, and freezes it for good, only instead of a following bid
/// that would expose it too much.
pub proof fn the_main_side_is_frozen_at_its_limit(
    ctx: Outlook,
    config: StrategyConfig,
    main: Side,
)
    requires
        ctx.round.main_field == Some(main),
    ensures
        ({
            let choice = (PairingStrategy { cfg: config }).choice(ctx);
            &&& choice.freeze_main_field <==> choice.commands.contains(
                CommandIntent::CancelSide(main),
            )
            &&& choice.freeze_main_field ==> !ctx.round.main_field_frozen && exists|base: Price|
                #[trigger] is_base(ctx, main, base) && ({
                    let price = (base - config.follow_offset).cut(
                        ctx.constraints.price_scale as nat,
                    );
                    let qty = (ctx.pools.grid_maker_total * config.follow_fraction / price).cut(
                        ctx.constraints.size_scale as nat,
                    );
                    (ctx.position.unpaired(main) + notional_of(ctx.active_orders, main) + price
                        * qty)@ > ctx.pools.max_exposure@
                })
        }),
{
    let choice = (PairingStrategy { cfg: config }).choice(ctx);
    let cancel = CommandIntent::CancelSide(main);
    if exit(config, ctx) is None && ctx.trigger == (Trigger::Fill { side: main }) {
        let first = follow_commands(config, ctx, main);
        let second = pair_commands(config, ctx, main);
        assert(choice.commands == first + second);
        lemma_pairs_are_across(ctx, config, main);
        if choice.freeze_main_field {
            lemma_lowest(ctx.active_orders, main);
            lemma_average(ctx, main);
            assert(is_base(ctx, main, follow_base(ctx, main)));
            assert(choice.commands[0] == first[0]);
            assert(first[0] == cancel);
        }
        if choice.commands.contains(cancel) {
            let k = choose|k: int| 0 <= k < choice.commands.len() && choice.commands[k] == cancel;
            if k < first.len() {
                assert(first[k] == cancel);
            } else {
                assert(second[k - first.len()] == cancel);
            }
        }
    } else {
        assert(!choice.commands.contains(cancel)) by {
            if choice.commands.contains(cancel) {
                let k = choose|k: int|
                    0 <= k < choice.commands.len() && choice.commands[k] == cancel;
                assert(choice.commands[k] == cancel);
            }
        }
    }
}

/// The price of a pair is what leaves the margin beside the average of the main side, or
/// the offset below the ask of the other side if that is less, cut to the exchange's
/// digits; there is none without shares of the main side or without that ask, or where it
/// would not be positive.
pub proof fn pairs_are_priced_for_profit(ctx: Outlook, config: StrategyConfig, main: Side)
    ensures
        ({
            let average = paid(ctx.position, main) / held(ctx.position, main);
            let by_profit = dec(1, 0) - average - config.profit_margin;
            let ask = top_of(ctx.market, across(main)).best_ask;
            let below = ask->0 - config.follow_offset;
            let least = if below@ < by_profit@ { below } else { by_profit };
            let price = least.cut(ctx.constraints.price_scale as nat);
            pairing_price(config, ctx, main) == (if held(ctx.position, main)@ > 0real && ask
                is Some && price@ > 0real {
                Some(price)
            } else {
                None
            })
        }),
{
}

/// A bid that pairing places for the other side brings it level: where none rests, or the
/// price has drifted beyond the tolerance and all that rest are cancelled, it is for all
/// the shares that the main side leads by, at the price of a pair; otherwise it adds what
/// is missing, at the price that rests.
pub proof fn pairs_bring_the_sides_level(ctx: Outlook, config: StrategyConfig, main: Side, i: int)
    requires
        ctx.round.main_field == Some(main),
        0 <= i < (PairingStrategy { cfg: config }).choice(ctx).commands.len(),
        (PairingStrategy { cfg: config }).choice(ctx).commands[i] is Submit,
        (PairingStrategy { cfg: config }).choice(ctx).commands[i]->Submit_0.side != main,
    ensures
        ({
            let commands = (PairingStrategy { cfg: config }).choice(ctx).commands;
            let order = commands[i]->Submit_0;
            let other = across(main);
            let size = ctx.constraints.size_scale as nat;
            let gap = held(ctx.position, main) - held(ctx.position, other);
            let lead = (if gap@ < 0real { dec(0, 0) } else { gap }).cut(size);
            let cancelled = commands.contains(CommandIntent::CancelSide(other));
            &&& order.side == other
            &&& is_maker_bid(order)
            &&& is_large_enough(ctx, order)
            &&& pairing_price(config, ctx, main) matches Some(price) && {
                &&& !any_rests(ctx.active_orders, other) || cancelled ==> order.price == price
                    && order.qty == lead
                &&& any_rests(ctx.active_orders, other) && !cancelled ==> order.qty == (lead
                    - qty_of(ctx.active_orders, other, None)).cut(size) && first_price(
                    ctx.active_orders,
                    other,
                ) == Some(order.price) && (price - order.price).absolute()@
                    <= config.repair_tolerance@
                &&& cancelled ==> (first_price(ctx.active_orders, other) matches Some(resting)
                    && (price - resting).absolute()@ > config.repair_tolerance@)
            }
        }),
{
    zero_value();
    let commands = (PairingStrategy { cfg: config }).choice(ctx).commands;
    let other = across(main);
    let first = follow_commands(config, ctx, main);
    let second = pair_commands(config, ctx, main);
    let cancel = CommandIntent::CancelSide(other);
    assert(commands == first + second);
    if i < first.len() {
        assert(commands[i] == first[i]);
        assert(false);
    }
    assert(commands[i] == second[i - first.len()]);
    lemma_first(ctx.active_orders, other);
    if commands.contains(cancel) {
        let k = choose|k: int| 0 <= k < commands.len() && commands[k] == cancel;
        if k < first.len() {
            assert(first[k] == cancel);
        } else {
            assert(second[k - first.len()] == cancel);
        }
    }
    if second.len() > 0 && second[0] == cancel {
        assert(commands[first.len() as int] == cancel);
    }
}

/// When a fill of the main side is to be answered, the pair is placed where nothing rests
/// for the other side and the lead is large enough: one bid for all of it, at the price of
/// a pair.
pub proof fn pairs_are_placed_when_due(ctx: Outlook, config: StrategyConfig, main: Side)
    requires
        ctx.round.main_field == Some(main),
        ctx.trigger == (Trigger::Fill { side: main }),
        (PairingStrategy { cfg: config }).choice(ctx).transition is None,
        ctx.pools.grid_maker_remaining@ >= ctx.constraints.min_notional@,
        !any_rests(ctx.active_orders, across(main)),
        pairing_price(config, ctx, main) is Some,
        ({
            let gap = held(ctx.position, main) - held(ctx.position, across(main));
            let lead = (if gap@ < 0real { dec(0, 0) } else { gap }).cut(
                ctx.constraints.size_scale as nat,
            );
            &&& lead@ >= ctx.constraints.min_order_size@
            &&& (lead * pairing_price(config, ctx, main)->0)@ >= ctx.constraints.min_notional@
        }),
    ensures
        exists|i: int|
            0 <= i < (PairingStrategy { cfg: config }).choice(ctx).commands.len() && ((
            #[trigger] (PairingStrategy { cfg: config }).choice(ctx).commands[i])
                matches CommandIntent::Submit(order) && order.side == across(main)),
{
    zero_value();
    let commands = (PairingStrategy { cfg: config }).choice(ctx).commands;
    let first = follow_commands(config, ctx, main);
    let second = pair_commands(config, ctx, main);
    lemma_first(ctx.active_orders, across(main));
    assert(exit(config, ctx) is None);
    assert(commands == first + second);
    assert(commands[first.len() as int] == second[0]);
}

/// When a fill of the main side is to be answered and that side is not frozen, the next bid
/// follows, where its price is positive, free and its order large enough; or else, where it
/// would expose the side too much, the side is cancelled and frozen.
pub proof fn bids_follow_when_due(
    ctx: Outlook,
    config: StrategyConfig,
    main: Side,
    base: Price,
)
    requires
        ctx.round.main_field == Some(main),
        ctx.trigger == (Trigger::Fill { side: main }),
        !ctx.round.main_field_frozen,
        (PairingStrategy { cfg: config }).choice(ctx).transition is None,
        ctx.pools.grid_maker_remaining@ >= ctx.constraints.min_notional@,
        is_base(ctx, main, base),
        base.wf(),
        forall|k: int| 0 <= k < ctx.active_orders.len() ==> (#[trigger]
        ctx.active_orders[k]).price.wf(),
        base@ > 0real,
        ({
            let price = (base - config.follow_offset).cut(ctx.constraints.price_scale as nat);
            let qty = (ctx.pools.grid_maker_total * config.follow_fraction / price).cut(
                ctx.constraints.size_scale as nat,
            );
            &&& price@ > 0real
            &&& qty@ >= ctx.constraints.min_order_size@
            &&& (qty * price)@ >= ctx.constraints.min_notional@
            &&& forall|k: int|
                0 <= k < ctx.active_orders.len() && (#[trigger] ctx.active_orders[k]).side == main
                    ==> ctx.active_orders[k].price != price
        }),
    ensures
        ({
            let choice = (PairingStrategy { cfg: config }).choice(ctx);
            let price = (base - config.follow_offset).cut(ctx.constraints.price_scale as nat);
            let qty = (ctx.pools.grid_maker_total * config.follow_fraction / price).cut(
                ctx.constraints.size_scale as nat,
            );
            let exposed = (ctx.position.unpaired(main) + notional_of(ctx.active_orders, main)
                + price * qty)@;
            &&& choice.commands.len() > 0
            &&& exposed <= ctx.pools.max_exposure@ ==> (choice.commands[0]
                matches CommandIntent::Submit(order) && order.side == main && order.price == price
                && order.qty == qty)
            &&& exposed > ctx.pools.max_exposure@ ==> choice.commands[0]
                == CommandIntent::CancelSide(main) && choice.freeze_main_field
        }),
{
    zero_value();
    let choice = (PairingStrategy { cfg: config }).choice(ctx);
    let first = follow_commands(config, ctx, main);
    let second = pair_commands(config, ctx, main);
    assert(exit(config, ctx) is None);
    assert(choice.commands == first + second);
    lemma_lowest(ctx.active_orders, main);
    let found = follow_base(ctx, main);
    if any_rests(ctx.active_orders, main) {
        let j = choose|k: int|
            0 <= k < ctx.active_orders.len() && (#[trigger] ctx.active_orders[k]).side == main
                && ctx.active_orders[k].price == base;
        let l = choose|k: int|
            0 <= k < ctx.active_orders.len() && (#[trigger] ctx.active_orders[k]).side == main
                && ctx.active_orders[k].price == found;
        assert(found@ <= base@ && base@ <= found@);
        crate::decimal::laws::equal_by_value(found, base);
    }
    assert(found == base);
    let price = (base - config.follow_offset).cut(ctx.constraints.price_scale as nat);
    if has_bid_at(ctx.active_orders, main, price) {
        let k = choose|k: int|
            0 <= k < ctx.active_orders.len() && counts(
                #[trigger] ctx.active_orders[k],
                main,
                Some(price),
            );
        assert(ctx.active_orders[k].price == price);
    }
    assert(choice.commands[0] == first[0]);
}

/// The tallies are sums over the orders of a side, one by one, and of nothing else; the
/// first price is that of the first order.
pub proof fn tallies_count_their_side(
    orders: Seq<ActiveOrder>,
    order: ActiveOrder,
    side: Side,
    price: Price,
)
    ensures
        qty_of(Seq::empty(), side, None) == dec(0, 0),
        qty_of(Seq::empty(), side, Some(price)) == dec(0, 0),
        notional_of(Seq::empty(), side) == dec(0, 0),
        first_price(Seq::empty(), side) is None,
        qty_of(orders.push(order), side, None) == (if order.side == side {
            qty_of(orders, side, None) + order.qty
        } else {
            qty_of(orders, side, None)
        }),
        qty_of(orders.push(order), side, Some(price)) == (if order.side == side && order.price
            == price {
            qty_of(orders, side, Some(price)) + order.qty
        } else {
            qty_of(orders, side, Some(price))
        }),
        notional_of(orders.push(order), side) == (if order.side == side {
            notional_of(orders, side) + order.price * order.qty
        } else {
            notional_of(orders, side)
        }),
        first_price(orders.push(order), side) == (if first_price(orders, side) is None
            && order.side == side {
            Some(order.price)
        } else {
            first_price(orders, side)
        }),
{
    assert(orders.push(order).drop_last() =~= orders);
}

proof fn lemma_pairs_are_across(ctx: Outlook, config: StrategyConfig, main: Side)
    ensures
        forall|k: int|
            0 <= k < pair_commands(config, ctx, main).len() ==> match (#[trigger] pair_commands(
                config,
                ctx,
                main,
            )[k]) {
                CommandIntent::Submit(order) => order.side == across(main),
                CommandIntent::CancelSide(side) => side == across(main),
                _ => false,
            },
{
}

proof fn lemma_lowest(orders: Seq<ActiveOrder>, side: Side)
    ensures
        match lowest_price(orders, side) {
            Some(price) => any_rests(orders, side) && is_lowest(orders, side, price),
            None => !any_rests(orders, side),
        },
    decreases orders.len(),
{
    if orders.len() > 0 {
        let init = orders.drop_last();
        let last = orders.last();
        lemma_lowest(init, side);
        assert(orders[orders.len() - 1] == last);
        if let Some(price) = lowest_price(orders, side) {
            if last.side == side && price == last.price {
                assert(orders[orders.len() - 1].price == price);
            } else {
                let k = choose|k: int|
                    0 <= k < init.len() && (#[trigger] init[k]).side == side && init[k].price
                        == price;
                assert(orders[k] == init[k]);
            }
            assert forall|k: int|
                0 <= k < orders.len() && (#[trigger] orders[k]).side == side implies orders[k].price@
                >= price@ by {
                if k < init.len() {
                    assert(init[k] == orders[k]);
                    assert(any_rests(init, side));
                }
            }
        } else {
            if any_rests(orders, side) {
                let k = choose|k: int| 0 <= k < orders.len() && (#[trigger] orders[k]).side == side;
                assert(init[k] == orders[k]);
                assert(any_rests(init, side));
            }
        }
    }
}

proof fn lemma_first(orders: Seq<ActiveOrder>, side: Side)
    ensures
        first_price(orders, side) is Some <==> any_rests(orders, side),
    decreases orders.len(),
{
    if orders.len() > 0 {
        let init = orders.drop_last();
        lemma_first(init, side);
        assert(orders[orders.len() - 1] == orders.last());
        if any_rests(init, side) {
            let k = choose|k: int| 0 <= k < init.len() && (#[trigger] init[k]).side == side;
            assert(orders[k] == init[k]);
        }
        if any_rests(orders, side) && orders.last().side != side {
            let k = choose|k: int| 0 <= k < orders.len() && (#[trigger] orders[k]).side == side;
            assert(init[k] == orders[k]);
        }
    }
}

proof fn lemma_average(ctx: Outlook, main: Side)
    ensures
        lowest_price(ctx.active_orders, main) is None && follow_base(ctx, main)@ > 0real ==> held(
            ctx.position,
            main,
        )@ > 0real && follow_base(ctx, main) == paid(ctx.position, main) / held(
            ctx.position,
            main,
        ),
{
    zero_value();
}

} // verus!
