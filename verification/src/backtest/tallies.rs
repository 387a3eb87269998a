//! What a backtest does with every snapshot and what it reports at the end, told by what
//! the engine and the exchange do.

use crate::backtest::batch::{best, pnl_sum, profits, stats_of, worst, BatchStats};
use crate::backtest::driver::{report_of, session_report, BacktestConfig};
use crate::backtest::market::Market;
use crate::backtest::replay::{absorbed, all_obeyed, fill_count, obeyed, responses, Play};
use crate::backtest::run::result_of;
use crate::backtest::session::Session;
use crate::decimal::dec;
use crate::domain::command::Command;
use crate::domain::fee::FeeModel;
use crate::domain::market::MarketSnapshot;
use crate::domain::order::{Order, OrderId};
use crate::domain::state::RobotState;
use crate::domain::types::{Money, Side};
use crate::engine::config::EngineConfig;
use crate::engine::model::Desk;
use crate::exchange::clock::Millis;
use crate::exchange::event::ExchangeEvent;
use crate::exchange::model::Venue;
use crate::inventory::model::{lots_cost, lots_qty};
use crate::ledger::ledger::Ledger;
use vstd::prelude::*;

verus! {

/// Commands reach the exchange as what they are, one after the other.
pub proof fn commands_are_obeyed_as_sent(
    venue: Venue,
    commands: Seq<Command>,
    command: Command,
)
    ensures
        all_obeyed(venue, Seq::empty()) == venue,
        all_obeyed(venue, commands.push(command)) == obeyed(all_obeyed(venue, commands), command),
        forall|order: Order| #[trigger]
            obeyed(venue, Command::SubmitOrder(order)) == venue.submitted(order),
        forall|order_id: OrderId| #[trigger]
            obeyed(venue, Command::CancelOrder(order_id)) == venue.cancelled_one(order_id),
        forall|side: Side| #[trigger]
            obeyed(venue, Command::CancelSide(side)) == venue.cancelled(Some(side)),
        obeyed(venue, Command::CancelAll) == venue.cancelled(None),
{
    assert(commands.push(command).drop_last() =~= commands);
}

/// Reports are handled one after the other, at one moment; what is sent upon them is sent
/// in that order; and those that are fills are counted.
pub proof fn reports_are_handled_in_order(
    desk: Desk,
    events: Seq<ExchangeEvent>,
    event: ExchangeEvent,
    now: Millis,
)
    ensures
        absorbed(desk, Seq::empty(), now) == desk,
        responses(desk, Seq::empty(), now).len() == 0,
        fill_count(Seq::empty()) == 0,
        absorbed(desk, events.push(event), now) == absorbed(desk, events, now).handled(event, now),
        responses(desk, events.push(event), now) == responses(desk, events, now) + absorbed(
            desk,
            events,
            now,
        ).answer(event, now),
        fill_count(events.push(event)) == fill_count(events) + (if event is Filled {
            1nat
        } else {
            0nat
        }),
{
    assert(events.push(event).drop_last() =~= events);
}

/// A snapshot first moves the market at the exchange, so that only orders that rested
/// before it are filled by it; all reports are then handled and answered; then the engine
/// sees the snapshot and its answer is obeyed; and the reports of that are handled and
/// answered once more. No report is left out of the count of fills.
pub proof fn snapshots_are_played_in_order(play: Play, market: MarketSnapshot, now: Millis)
    ensures
        ({
            let reported = play.venue.moved(market);
            let desk1 = absorbed(play.desk, reported.outbox, now);
            let venue1 = all_obeyed(
                Venue { outbox: Seq::empty(), ..reported },
                responses(play.desk, reported.outbox, now),
            );
            let seen = ExchangeEvent::BookUpdate(market);
            let desk2 = desk1.handled(seen, now);
            let venue2 = all_obeyed(venue1, desk1.answer(seen, now));
            let after = play.ticked(market, now);
            &&& after.desk == absorbed(desk2, venue2.outbox, now)
            &&& after.venue == all_obeyed(
                Venue { outbox: Seq::empty(), ..venue2 },
                responses(desk2, venue2.outbox, now),
            )
            &&& after.fills == play.fills + fill_count(reported.outbox) + fill_count(venue2.outbox)
        }),
{
    reveal(Play::ticked);
}

/// A match is played snapshot by snapshot, one per second, the first at the first second,
/// from an engine and an exchange without orders.
pub proof fn matches_are_played_second_by_second(
    cfg: EngineConfig,
    fee: FeeModel,
    snapshots: Seq<MarketSnapshot>,
    market: MarketSnapshot,
)
    requires
        (snapshots.len() + 1) * 1000 <= u64::MAX,
    ensures
        ({
            let start = Play::start(cfg, fee);
            &&& start.played(Seq::empty()) == start
            &&& start.played(snapshots.push(market)) == start.played(snapshots).ticked(
                market,
                ((snapshots.len() + 1) * 1000) as u64,
            )
            &&& start.fills == 0
            &&& start.desk == Desk::opened(cfg)
            &&& start.venue.resting.len() == 0
            &&& start.venue.outbox.len() == 0
            &&& start.venue.market is None
            &&& start.venue.fee == fee
        }),
{
    assert(snapshots.push(market).drop_last() =~= snapshots);
}

/// The result of a match tells what was realized and what is held: the winner pays a dollar
/// per share, less what both sides cost; the profit is both together; each side's shares
/// are its own; and the averages are added up only where both sides are held.
pub proof fn results_tell_what_is_held(desk: Desk, fills: u32, winner: Side)
    ensures
        ({
            let r = result_of(desk, fills, winner);
            let up = lots_qty(desk.holdings.up);
            let down = lots_qty(desk.holdings.down);
            let cost = lots_cost(desk.holdings.up) + lots_cost(desk.holdings.down);
            &&& r.up_net_qty == up
            &&& r.dn_net_qty == down
            &&& r.winner == winner
            &&& r.fills == fills
            &&& r.final_phase == desk.phase
            &&& r.net_invested == desk.holdings.cash_out - desk.holdings.cash_in
            &&& r.realized_pnl == desk.holdings.realized
            &&& winner == Side::Up ==> r.settle_pnl == up - cost
            &&& winner == Side::Down ==> r.settle_pnl == down - cost
            &&& r.pnl == r.realized_pnl + r.settle_pnl
            &&& up@ > 0real && down@ > 0real ==> r.sum_avg == lots_cost(desk.holdings.up) / up
                + lots_cost(desk.holdings.down) / down
            &&& up@ <= 0real || down@ <= 0real ==> r.sum_avg == dec(0, 0)
        }),
{
}

/// The report of a session tells what the ledger holds: the winner pays a dollar per share,
/// less what both sides cost.
pub proof fn reports_tell_what_the_ledger_holds(
    ledger: Ledger,
    winner: Side,
    fills: usize,
    state: RobotState,
)
    ensures
        ({
            let r = report_of(ledger, winner, fills, state);
            let cost = ledger.book(Side::Up).cost + ledger.book(Side::Down).cost;
            &&& r.winner == winner
            &&& r.fill_count == fills
            &&& r.final_state == state
            &&& r.total_cost == cost
            &&& winner == Side::Up ==> r.winner_qty == ledger.book(Side::Up).qty
            &&& winner == Side::Down ==> r.winner_qty == ledger.book(Side::Down).qty
            &&& r.final_pnl == r.winner_qty - r.total_cost
        }),
{
}

/// In a session the engine sees a snapshot before the market moves at the exchange, so that
/// what it sends upon it can still be filled by it; the first snapshot only shows itself.
/// Then reports are handled until there are none.
pub proof fn sessions_show_before_they_move(
    session: Session,
    market: MarketSnapshot,
    now: Millis,
    tte: Millis,
    n: nat,
)
    ensures
        ({
            let seen = ExchangeEvent::BookUpdate(market);
            let shown = Session {
                robot: session.robot.handled(seen, now, tte),
                venue: all_obeyed(session.venue, session.robot.answer(seen, now, tte)),
                fills: session.fills,
            };
            let moved = Session { venue: shown.venue.moved(market), ..shown };
            &&& shown.quiet_after(now, tte, n) ==> session.stepped(market, true, now, tte)
                == shown.reports(now, tte, n)
            &&& moved.quiet_after(now, tte, n) ==> session.stepped(market, false, now, tte)
                == moved.reports(now, tte, n)
        }),
{
    reveal(Session::stepped);
    let seen = ExchangeEvent::BookUpdate(market);
    let shown = session.told(seen, now, tte);
    let moved = shown.moved(market);
    if shown.quiet_after(now, tte, n) {
        lemma_same_rest(shown, now, tte, n);
    }
    if moved.quiet_after(now, tte, n) {
        lemma_same_rest(moved, now, tte, n);
    }
}

/// A report is taken off the exchange, counted if it is a fill, and handled, and what that
/// sends is obeyed, before the next one is taken.
pub proof fn session_reports_are_taken_one_by_one(session: Session, now: Millis, tte: Millis, n: nat)
    ensures
        session.reports(now, tte, 0) == session,
        ({
            let before = session.reports(now, tte, n);
            let after = session.reports(now, tte, n + 1);
            let event = before.venue.outbox[0];
            &&& before.venue.outbox.len() == 0 ==> after == before
            &&& before.venue.outbox.len() > 0 ==> {
                &&& after.robot == before.robot.handled(event, now, tte)
                &&& after.venue == all_obeyed(
                    Venue { outbox: before.venue.outbox.remove(0), ..before.venue },
                    before.robot.answer(event, now, tte),
                )
                &&& after.fills == before.fills + (if event is Filled {
                    1nat
                } else {
                    0nat
                })
            }
        }),
{
}

/// A session goes snapshot by snapshot, one per second from the start, and knows how many
/// seconds are left; only the first snapshot is the first. Its report is that of its end.
pub proof fn sessions_go_second_by_second(
    market: Market,
    config: BacktestConfig,
    fee: FeeModel,
    n: nat,
)
    requires
        n < market.snapshots@.len(),
        market.snapshots@.len() * 1000 <= u64::MAX,
    ensures
        ({
            let start = Session::start(config.engine_config, fee);
            let end = start.played(market.snapshots@, market.snapshots@.len());
            &&& start.fills == 0
            &&& start.venue.resting.len() == 0
            &&& start.venue.outbox.len() == 0
            &&& start.played(market.snapshots@, 0) == start
            &&& start.played(market.snapshots@, n + 1) == start.played(
                market.snapshots@,
                n,
            ).stepped(
                market.snapshots@[n as int],
                n == 0,
                (n * 1000) as u64,
                ((market.snapshots@.len() - n - 1) * 1000) as u64,
            )
            &&& session_report(market, config, fee) == report_of(
                end.robot.ledger,
                market.winner,
                end.fills as usize,
                end.robot.round.state,
            )
        }),
{
}

/// The statistics of some results: their number, how many of them are profits, their
/// average, which times their number is their sum as long as it is not rounded, and the
/// worst and the best of them, which are among them.
pub proof fn statistics_tell_of_the_results(label: &'static str, pnls: Seq<Money>)
    requires
        0 < pnls.len() <= usize::MAX,
        forall|i: int| 0 <= i < pnls.len() ==> (#[trigger] pnls[i]).wf(),
    ensures
        ({
            let stats = stats_of(label, pnls);
            let n = dec(pnls.len() as int, 0);
            &&& stats.label == label
            &&& stats.sessions == pnls.len()
            &&& stats.average_pnl == pnl_sum(pnls) / n
            &&& stats.average_pnl@ == pnl_sum(pnls)@ / n@ && n@ != 0real ==> stats.average_pnl@
                * n@ == pnl_sum(pnls)@
            &&& forall|i: int|
                0 <= i < pnls.len() ==> stats.min_pnl@ <= (#[trigger] pnls[i])@ <= stats.max_pnl@
            &&& exists|i: int| 0 <= i < pnls.len() && (#[trigger] pnls[i])@ == stats.min_pnl@
            &&& exists|i: int| 0 <= i < pnls.len() && (#[trigger] pnls[i])@ == stats.max_pnl@
        }),
{
    let stats = stats_of(label, pnls);
    let n = dec(pnls.len() as int, 0)@;
    let s = pnl_sum(pnls)@;
    crate::backtest::batch::statistics_are_consistent(pnls);
    lemma_attained(pnls);
    if n != 0real {
        assert((s / n) * n == s) by (nonlinear_arith)
            requires
                n != 0real,
        ;
    }
}

/// Profits are counted and results added up one by one; and without any results all is 0.
pub proof fn results_are_counted_one_by_one(label: &'static str, pnls: Seq<Money>, pnl: Money)
    ensures
        profits(Seq::empty()) == 0,
        pnl_sum(Seq::empty()) == dec(0, 0),
        profits(pnls.push(pnl)) == profits(pnls) + (if pnl@ > 0real {
            1nat
        } else {
            0nat
        }),
        pnl_sum(pnls.push(pnl)) == pnl_sum(pnls) + pnl,
        pnls.len() <= usize::MAX && profits(pnls) <= usize::MAX ==> stats_of(
            label,
            pnls,
        ).winning_sessions == profits(pnls),
        ({
            let none = stats_of(label, Seq::empty());
            &&& none.sessions == 0
            &&& none.winning_sessions == 0
            &&& none.average_pnl == dec(0, 0)
            &&& none.min_pnl == dec(0, 0)
            &&& none.max_pnl == dec(0, 0)
        }),
{
    assert(pnls.push(pnl).drop_last() =~= pnls);
}

/// The share of sessions that made a profit is their number over that of all sessions, and
/// 0 without any.
pub proof fn win_rates_are_shares(stats: BatchStats)
    ensures
        stats.sessions == 0 ==> stats.rate() == dec(0, 0),
        stats.sessions > 0 ==> stats.rate() == dec(stats.winning_sessions as int, 0) / dec(
            stats.sessions as int,
            0,
        ),
{
}

proof fn lemma_same_rest(session: Session, now: Millis, tte: Millis, n: nat)
    requires
        session.quiet_after(now, tte, n),
    ensures
        session.rested(now, tte) == session.reports(now, tte, n),
{
    let m = choose|m: nat| session.quiet_after(now, tte, m);
    if m <= n {
        crate::backtest::session::rest_lasts(session, now, tte, m, n);
    } else {
        crate::backtest::session::rest_lasts(session, now, tte, n, m);
    }
}

proof fn lemma_attained(pnls: Seq<Money>)
    requires
        pnls.len() > 0,
        forall|i: int| 0 <= i < pnls.len() ==> (#[trigger] pnls[i]).wf(),
    ensures
        exists|i: int| 0 <= i < pnls.len() && (#[trigger] pnls[i])@ == worst(pnls)@,
        exists|i: int| 0 <= i < pnls.len() && (#[trigger] pnls[i])@ == best(pnls)@,
    decreases pnls.len(),
{
    let init = pnls.drop_last();
    let last = pnls.len() - 1;
    assert(pnls[last] == pnls.last());
    crate::decimal::laws::numbers_are_bounded(pnls[last]);
    if init.len() > 0 {
        assert forall|i: int| 0 <= i < init.len() implies (#[trigger] init[i]).wf() by {
            assert(pnls[i] == init[i]);
        }
        lemma_attained(init);
        let a = choose|i: int| 0 <= i < init.len() && (#[trigger] init[i])@ == worst(init)@;
        let b = choose|i: int| 0 <= i < init.len() && (#[trigger] init[i])@ == best(init)@;
        assert(pnls[a] == init[a]);
        assert(pnls[b] == init[b]);
        if worst(pnls)@ == pnls.last()@ {
            assert(pnls[last]@ == worst(pnls)@);
        } else {
            assert(pnls[a]@ == worst(pnls)@);
        }
        if best(pnls)@ == pnls.last()@ {
            assert(pnls[last]@ == best(pnls)@);
        } else {
            assert(pnls[b]@ == best(pnls)@);
        }
    } else {
        assert(worst(init) == dec(crate::decimal::model::MANTISSA_LIMIT - 1, 0));
        assert(best(init) == dec(1 - crate::decimal::model::MANTISSA_LIMIT, 0));
        assert(pnls[last]@ == worst(pnls)@);
        assert(pnls[last]@ == best(pnls)@);
    }
}

} // verus!
