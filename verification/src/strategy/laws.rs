//! What holds of every decision of the market-making strategy.

use crate::domain::phase::Phase;
use crate::domain::types::{Price, Side};
use crate::inventory::laws::well_numbered;
use crate::inventory::lot::Lot;
use crate::strategy::context::{CommandIntent, Situation};
use crate::strategy::harvesting::harvesting_plan;
use crate::strategy::offers::{both_offers, is_offered, lot_offers, side_offers};
use crate::strategy::plan;
use crate::strategy::quoting::{bidding_order, both_bids, resting_bid, side_bids};
use vstd::prelude::*;

verus! {

/// A decision only ever moves the match forward.
pub proof fn decisions_move_forward(phase: Phase, ctx: Situation)
    ensures
        plan(phase, ctx).transition matches Some(next) ==> next.rank() > phase.rank(),
{
}

/// Once the match is settled, nothing is done.
pub proof fn settled_does_nothing(ctx: Situation)
    ensures
        plan(Phase::Settled, ctx).commands.len() == 0,
        plan(Phase::Settled, ctx).transition is None,
{
}

/// A decision that moves the match on does nothing else.
pub proof fn moving_on_places_nothing(phase: Phase, ctx: Situation)
    ensures
        plan(phase, ctx).transition is Some ==> plan(phase, ctx).commands.len() == 0,
{
}

/// Harvesting never buys: all it does is offer lots.
pub proof fn harvesting_never_buys(ctx: Situation, i: int)
    requires
        0 <= i < harvesting_plan(ctx).commands.len(),
    ensures
        harvesting_plan(ctx).commands[i] is SubmitSell,
{
    let cap = Some(crate::decimal::dec(99, 2));
    lemma_offers(ctx, Side::Up, ctx.inventory.up.reverse(), cap);
    lemma_offers(ctx, Side::Down, ctx.inventory.down.reverse(), cap);
}

/// A lot that is already offered is not offered again, in any phase.
pub proof fn offered_lots_are_left_alone(phase: Phase, ctx: Situation, i: int)
    requires
        0 <= i < plan(phase, ctx).commands.len(),
    ensures
        plan(phase, ctx).commands[i] matches CommandIntent::SubmitSell { lot_id, .. }
            ==> !is_offered(ctx.active_orders, lot_id),
{
    let cap = Some(crate::decimal::dec(99, 2));
    lemma_offers(ctx, Side::Up, ctx.inventory.up.reverse(), cap);
    lemma_offers(ctx, Side::Down, ctx.inventory.down.reverse(), cap);
    lemma_offers(ctx, Side::Up, ctx.inventory.up.reverse(), None);
    lemma_offers(ctx, Side::Down, ctx.inventory.down.reverse(), None);
}

/// No decision offers the same lot twice, as long as the lots are well numbered.
pub proof fn no_lot_is_offered_twice(phase: Phase, ctx: Situation, i: int, j: int)
    requires
        well_numbered(ctx.inventory),
        0 <= i < j < plan(phase, ctx).commands.len(),
        plan(phase, ctx).commands[i] is SubmitSell,
        plan(phase, ctx).commands[j] is SubmitSell,
    ensures
        plan(phase, ctx).commands[i]->SubmitSell_lot_id != plan(
            phase,
            ctx,
        ).commands[j]->SubmitSell_lot_id,
{
    let cap = if phase == Phase::Harvesting {
        Some(crate::decimal::dec(99, 2))
    } else {
        None
    };
    let up = ctx.inventory.up.reverse();
    let down = ctx.inventory.down.reverse();
    lemma_offers(ctx, Side::Up, up, cap);
    lemma_offers(ctx, Side::Down, down, cap);
    lemma_offers_distinct(ctx, Side::Up, up, cap);
    lemma_offers_distinct(ctx, Side::Down, down, cap);
    let offers = both_offers(ctx, cap);
    let n = lot_offers(ctx, Side::Up, up, cap).len();
    if phase == Phase::Cycling {
        assert(j < offers.len());
    }
    assert(plan(phase, ctx).commands[i] == offers[i]);
    assert(plan(phase, ctx).commands[j] == offers[j]);
    if i < n && j >= n {
        let a = offer_source(ctx, Side::Up, up, cap, i);
        let b = offer_source(ctx, Side::Down, down, cap, j - n);
    }
}

/// Every lot is offered: after a decision of the cycling or the harvesting phase each
/// lot either rests in an offer or is offered by the decision.
pub proof fn every_lot_is_offered(phase: Phase, ctx: Situation, side: Side, i: int)
    requires
        phase == Phase::Cycling || phase == Phase::Harvesting,
        plan(phase, ctx).transition is None,
        0 <= i < ctx.inventory.lots(side).len(),
    ensures
        is_offered(ctx.active_orders, ctx.inventory.lots(side)[i].lot_id) || exists|k: int|
            0 <= k < plan(phase, ctx).commands.len() && (#[trigger] plan(phase, ctx).commands[k]
                matches CommandIntent::SubmitSell { lot_id, .. } && lot_id
                == ctx.inventory.lots(side)[i].lot_id),
{
    let cap = if phase == Phase::Harvesting {
        Some(crate::decimal::dec(99, 2))
    } else {
        None
    };
    let lots = ctx.inventory.lots(side).reverse();
    let at = lots.len() - 1 - i;
    let lot_id = ctx.inventory.lots(side)[i].lot_id;
    assert(lots[at].lot_id == lot_id);
    if !is_offered(ctx.active_orders, lot_id) {
        let k = offer_index(ctx, side, lots, cap, at);
        let n = side_offers(ctx, Side::Up, cap).len();
        let all = if side == Side::Up {
            k
        } else {
            n + k
        };
        assert(both_offers(ctx, cap)[all] == side_offers(ctx, side, cap)[k]);
        assert(plan(phase, ctx).commands[all] == both_offers(ctx, cap)[all]);
    }
}

/// A decision bids at most once for each side, and only next to the cancellation of a bid
/// that already rests there.
pub proof fn one_bid_per_side(phase: Phase, ctx: Situation, i: int)
    requires
        0 <= i < plan(phase, ctx).commands.len(),
        plan(phase, ctx).commands[i] is SubmitBuy,
    ensures
        forall|j: int|
            0 <= j < plan(phase, ctx).commands.len() && j != i && (#[trigger] plan(
                phase,
                ctx,
            ).commands[j]) is SubmitBuy ==> plan(phase, ctx).commands[j]->SubmitBuy_side != plan(
                phase,
                ctx,
            ).commands[i]->SubmitBuy_side,
        resting_bid(
            ctx.active_orders,
            plan(phase, ctx).commands[i]->SubmitBuy_side,
        ) matches Some(resting) ==> plan(phase, ctx).commands.contains(
            CommandIntent::Cancel(resting.order_id),
        ),
{
    let cap = if phase == Phase::Harvesting {
        Some(crate::decimal::dec(99, 2))
    } else {
        None
    };
    lemma_offers(ctx, Side::Up, ctx.inventory.up.reverse(), cap);
    lemma_offers(ctx, Side::Down, ctx.inventory.down.reverse(), cap);
    let all = plan(phase, ctx).commands;
    let offers = if phase == Phase::Cycling {
        both_offers(ctx, None)
    } else {
        Seq::empty()
    };
    let drift = if phase == Phase::Building {
        crate::strategy::building::building_drift(ctx)
    } else {
        crate::decimal::dec(1, 2)
    };
    if phase == Phase::Harvesting {
        assert(all == both_offers(ctx, cap));
        assert(false);
    }
    assert(all =~= offers + both_bids(ctx, drift));
    let (first, second) = bidding_order(ctx);
    let a = side_bids(ctx, first, drift);
    let b = side_bids(ctx, second, drift);
    let n = offers.len();
    assert(all =~= offers + a + b);
    let side = all[i]->SubmitBuy_side;
    assert(i >= n);
    if let Some(resting) = resting_bid(ctx.active_orders, side) {
        let at = if side == first {
            n
        } else {
            n + a.len()
        };
        assert(all[at as int] == CommandIntent::Cancel(resting.order_id));
    }
    assert forall|j: int| 0 <= j < all.len() && j != i && (#[trigger] all[j]) is SubmitBuy implies
        all[j]->SubmitBuy_side != side by {
        assert(j >= n);
    }
}

/// A bid never costs more than the free cash.
pub proof fn bids_stay_within_free_cash(phase: Phase, ctx: Situation, i: int)
    requires
        0 <= i < plan(phase, ctx).commands.len(),
    ensures
        plan(phase, ctx).commands[i] matches CommandIntent::SubmitBuy { price, qty, .. } ==> (
        price * qty)@ <= ctx.free_cash@,
{
    let cap = if phase == Phase::Harvesting {
        Some(crate::decimal::dec(99, 2))
    } else {
        None
    };
    lemma_offers(ctx, Side::Up, ctx.inventory.up.reverse(), cap);
    lemma_offers(ctx, Side::Down, ctx.inventory.down.reverse(), cap);
}

proof fn lemma_offers(ctx: Situation, side: Side, lots: Seq<Lot>, cap: Option<Price>)
    ensures
        forall|i: int|
            #![trigger lot_offers(ctx, side, lots, cap)[i]]
            0 <= i < lot_offers(ctx, side, lots, cap).len() ==> {
                &&& lot_offers(ctx, side, lots, cap)[i] is SubmitSell
                &&& !is_offered(
                    ctx.active_orders,
                    lot_offers(ctx, side, lots, cap)[i]->SubmitSell_lot_id,
                )
            },
    decreases lots.len(),
{
    if lots.len() > 0 {
        lemma_offers(ctx, side, lots.drop_last(), cap);
    }
}

/// Finds the lot behind an offer.
proof fn offer_source(
    ctx: Situation,
    side: Side,
    lots: Seq<Lot>,
    cap: Option<Price>,
    i: int,
) -> (k: int)
    requires
        0 <= i < lot_offers(ctx, side, lots, cap).len(),
    ensures
        0 <= k < lots.len(),
        lot_offers(ctx, side, lots, cap)[i] is SubmitSell,
        lot_offers(ctx, side, lots, cap)[i]->SubmitSell_lot_id == lots[k].lot_id,
    decreases lots.len(),
{
    let before = lot_offers(ctx, side, lots.drop_last(), cap);
    if i < before.len() {
        offer_source(ctx, side, lots.drop_last(), cap, i)
    } else {
        lots.len() - 1
    }
}

/// Finds the offer of a lot.
proof fn offer_index(
    ctx: Situation,
    side: Side,
    lots: Seq<Lot>,
    cap: Option<Price>,
    at: int,
) -> (k: int)
    requires
        0 <= at < lots.len(),
        !is_offered(ctx.active_orders, lots[at].lot_id),
    ensures
        0 <= k < lot_offers(ctx, side, lots, cap).len(),
        lot_offers(ctx, side, lots, cap)[k] is SubmitSell,
        lot_offers(ctx, side, lots, cap)[k]->SubmitSell_lot_id == lots[at].lot_id,
    decreases lots.len(),
{
    if at == lots.len() - 1 {
        lot_offers(ctx, side, lots, cap).len() - 1
    } else {
        offer_index(ctx, side, lots.drop_last(), cap, at)
    }
}

proof fn lemma_offers_distinct(ctx: Situation, side: Side, lots: Seq<Lot>, cap: Option<Price>)
    requires
        forall|i: int, j: int| 0 <= i < j < lots.len() ==> lots[i].lot_id != lots[j].lot_id,
    ensures
        forall|i: int, j: int|
            0 <= i < j < lot_offers(ctx, side, lots, cap).len() ==> lot_offers(
                ctx,
                side,
                lots,
                cap,
            )[i]->SubmitSell_lot_id != lot_offers(ctx, side, lots, cap)[j]->SubmitSell_lot_id,
    decreases lots.len(),
{
    if lots.len() > 0 {
        lemma_offers_distinct(ctx, side, lots.drop_last(), cap);
        let all = lot_offers(ctx, side, lots, cap);
        let before = lot_offers(ctx, side, lots.drop_last(), cap);
        assert forall|i: int, j: int| 0 <= i < j < all.len() implies all[i]->SubmitSell_lot_id
            != all[j]->SubmitSell_lot_id by {
            if j == before.len() {
                let k = offer_source(ctx, side, lots.drop_last(), cap, i);
                assert(lots[k].lot_id != lots[lots.len() - 1].lot_id);
            }
        }
    }
}

} // verus!
