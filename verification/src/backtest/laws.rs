//! What holds of every replay.

use crate::backtest::replay::{absorbed, absorbed_fits, held_profit, Play};
use crate::backtest::session::Session;
use crate::domain::fee::FeeModel;
use crate::domain::market::MarketSnapshot;
use crate::domain::order::OrderDirection;
use crate::domain::types::Side;
use crate::engine::book::lot_of;
use crate::engine::config::EngineConfig;
use crate::engine::laws::{
    handling_keeps_order, in_order, lemma_carried_keeps, phase_never_goes_back,
};
use crate::engine::model::Desk;
use crate::exchange::clock::Millis;
use crate::exchange::event::ExchangeEvent;
use crate::hedging::engine::laws::{accounted, orders_stay_accounted};
use crate::inventory::laws::{
    balanced, empty_books_balance, match_profit, part_sale_is_exact, part_sale_keeps_balance,
    purchase_is_exact, purchase_keeps_balance, settlement_is_exact,
};
use crate::inventory::model::lots_qty;
use vstd::prelude::*;

verus! {

/// A replay keeps the engine in order: no two orders on record share an identifier or
/// offer the same lot, and no two lots share an identifier. And it only moves the match
/// forward.
pub proof fn replays_keep_order(play: Play, snapshots: Seq<MarketSnapshot>)
    requires
        in_order(play.desk),
        play.played_fits(snapshots),
    ensures
        in_order(play.played(snapshots).desk),
        play.played(snapshots).desk.phase.rank() >= play.desk.phase.rank(),
    decreases snapshots.len(),
{
    if snapshots.len() > 0 {
        replays_keep_order(play, snapshots.drop_last());
        let mid = play.played(snapshots.drop_last());
        lemma_ticked(mid, snapshots.last(), (snapshots.len() * 1000) as u64);
    }
}

proof fn lemma_ticked(play: Play, market: MarketSnapshot, now: Millis)
    requires
        in_order(play.desk),
        play.ticked_fits(market, now),
    ensures
        in_order(play.ticked(market, now).desk),
        play.ticked(market, now).desk.phase.rank() >= play.desk.phase.rank(),
{
    reveal(Play::ticked);
    reveal(Play::ticked_fits);
    let a = play.moved(market);
    lemma_absorbed(a.desk, a.venue.outbox, now);
    let b = a.exchanged(now);
    let event = ExchangeEvent::BookUpdate(market);
    handling_keeps_order(b.desk, event, now);
    phase_never_goes_back(b.desk, event, now);
    let c = b.shown(market, now);
    lemma_absorbed(c.desk, c.venue.outbox, now);
}

proof fn lemma_absorbed(desk: Desk, events: Seq<ExchangeEvent>, now: Millis)
    requires
        in_order(desk),
        absorbed_fits(desk, events, now),
    ensures
        in_order(absorbed(desk, events, now)),
        absorbed(desk, events, now).phase.rank() >= desk.phase.rank(),
    decreases events.len(),
{
    if events.len() > 0 {
        lemma_absorbed(desk, events.drop_last(), now);
        let mid = absorbed(desk, events.drop_last(), now);
        handling_keeps_order(mid, events.last(), now);
        phase_never_goes_back(mid, events.last(), now);
    }
}

/// A session keeps the orders of the hedging engine accounted for: no identifier is used
/// twice, and an order is on record exactly when it counts against a pool.
pub proof fn sessions_stay_accounted(session: Session, snapshots: Seq<MarketSnapshot>, n: nat)
    requires
        accounted(session.robot),
        session.played_fits(snapshots, n),
    ensures
        accounted(session.played(snapshots, n).robot),
    decreases n,
{
    if n > 0 {
        sessions_stay_accounted(session, snapshots, (n - 1) as nat);
        let mid = session.played(snapshots, (n - 1) as nat);
        let market = snapshots[n - 1];
        let now = ((n - 1) * 1000) as u64;
        let tte = ((snapshots.len() - n) * 1000) as u64;
        reveal(Session::stepped);
        reveal(Session::stepped_fits);
        let event = ExchangeEvent::BookUpdate(market);
        orders_stay_accounted(mid.robot, event, now, tte);
        let told = mid.told(event, now, tte);
        let before = if n == 1 {
            told
        } else {
            told.moved(market)
        };
        let count = choose|k: nat| before.quiet_after(now, tte, k);
        lemma_reports_accounted(before, now, tte, count);
    }
}

proof fn lemma_reports_accounted(session: Session, now: Millis, tte: Millis, n: nat)
    requires
        accounted(session.robot),
        session.reports_fit(now, tte, n),
    ensures
        accounted(session.reports(now, tte, n).robot),
    decreases n,
{
    if n > 0 {
        lemma_reports_accounted(session, now, tte, (n - 1) as nat);
        let mid = session.reports(now, tte, (n - 1) as nat);
        if mid.venue.outbox.len() > 0 {
            orders_stay_accounted(mid.robot, mid.venue.outbox[0], now, tte);
        }
    }
}

/// Whether an event is booked without rounding.
pub open spec fn booking_is_exact(desk: Desk, event: ExchangeEvent) -> bool {
    event matches ExchangeEvent::Filled(fill) ==> match fill.direction {
        OrderDirection::Buy => purchase_is_exact(
            desk.holdings,
            fill.cash / fill.filled_qty,
            fill.filled_qty,
            fill.cash,
        ),
        OrderDirection::Sell => lot_of(desk.book, fill.order_id) matches Some(lot_id)
            ==> part_sale_is_exact(
            desk.holdings,
            fill.side,
            lot_id,
            fill.filled_qty,
            fill.cash,
        ),
    }
}

/// Whether several events are booked without rounding.
pub open spec fn bookings_are_exact(desk: Desk, events: Seq<ExchangeEvent>, now: Millis) -> bool
    decreases events.len(),
{
    events.len() > 0 ==> {
        &&& bookings_are_exact(desk, events.drop_last(), now)
        &&& booking_is_exact(absorbed(desk, events.drop_last(), now).at(now), events.last())
    }
}

/// Whether one snapshot is replayed without rounding in the books.
pub open spec fn tick_is_exact(play: Play, market: MarketSnapshot, now: Millis) -> bool {
    let moved = play.moved(market);
    let shown = moved.exchanged(now).shown(market, now);
    &&& bookings_are_exact(moved.desk, moved.venue.outbox, now)
    &&& bookings_are_exact(shown.desk, shown.venue.outbox, now)
}

/// Whether several snapshots are replayed without rounding in the books.
pub open spec fn replay_is_exact(play: Play, snapshots: Seq<MarketSnapshot>) -> bool
    decreases snapshots.len(),
{
    snapshots.len() > 0 ==> {
        &&& replay_is_exact(play, snapshots.drop_last())
        &&& tick_is_exact(
            play.played(snapshots.drop_last()),
            snapshots.last(),
            (snapshots.len() * 1000) as u64,
        )
    }
}

/// A replay without rounding keeps the books balanced.
pub proof fn replays_keep_balance(play: Play, snapshots: Seq<MarketSnapshot>)
    requires
        balanced(play.desk.holdings),
        replay_is_exact(play, snapshots),
    ensures
        balanced(play.played(snapshots).desk.holdings),
    decreases snapshots.len(),
{
    if snapshots.len() > 0 {
        replays_keep_balance(play, snapshots.drop_last());
        let mid = play.played(snapshots.drop_last());
        let market = snapshots.last();
        let now = (snapshots.len() * 1000) as u64;
        reveal(Play::ticked);
        let moved = mid.moved(market);
        lemma_absorbed_balance(moved.desk, moved.venue.outbox, now);
        let exchanged = moved.exchanged(now);
        lemma_handled_balance(exchanged.desk, ExchangeEvent::BookUpdate(market), now);
        let shown = exchanged.shown(market, now);
        lemma_absorbed_balance(shown.desk, shown.venue.outbox, now);
    }
}

/// The profit of a whole match, replayed without rounding: the winning shares less what
/// is still invested.
pub proof fn replay_profit(
    cfg: EngineConfig,
    fee: FeeModel,
    snapshots: Seq<MarketSnapshot>,
    winner: Side,
)
    requires
        replay_is_exact(Play::start(cfg, fee), snapshots),
        settlement_is_exact(Play::start(cfg, fee).played(snapshots).desk.holdings, winner),
    ensures
        ({
            let holdings = Play::start(cfg, fee).played(snapshots).desk.holdings;
            holdings.realized@ + held_profit(holdings, winner)@ == lots_qty(
                holdings.lots(winner),
            )@ - holdings.invested()@
        }),
{
    empty_books_balance();
    replays_keep_balance(Play::start(cfg, fee), snapshots);
    match_profit(Play::start(cfg, fee).played(snapshots).desk.holdings, winner);
}

proof fn lemma_handled_balance(desk: Desk, event: ExchangeEvent, now: Millis)
    requires
        balanced(desk.holdings),
        booking_is_exact(desk.at(now), event),
    ensures
        balanced(desk.handled(event, now).holdings),
{
    let at = desk.at(now);
    if let ExchangeEvent::Filled(fill) = event {
        match fill.direction {
            OrderDirection::Buy => {
                purchase_keeps_balance(
                    at.holdings,
                    fill.side,
                    fill.cash / fill.filled_qty,
                    fill.filled_qty,
                    fill.cash,
                    now,
                );
            },
            OrderDirection::Sell => {
                if let Some(lot_id) = lot_of(at.book, fill.order_id) {
                    part_sale_keeps_balance(
                        at.holdings,
                        fill.side,
                        lot_id,
                        fill.filled_qty,
                        fill.cash,
                    );
                }
            },
        }
    }
    lemma_carried_keeps(at.booked(event), at.decision(event).commands);
}

proof fn lemma_absorbed_balance(desk: Desk, events: Seq<ExchangeEvent>, now: Millis)
    requires
        balanced(desk.holdings),
        bookings_are_exact(desk, events, now),
    ensures
        balanced(absorbed(desk, events, now).holdings),
    decreases events.len(),
{
    if events.len() > 0 {
        lemma_absorbed_balance(desk, events.drop_last(), now);
        lemma_handled_balance(absorbed(desk, events.drop_last(), now), events.last(), now);
    }
}

} // verus!
