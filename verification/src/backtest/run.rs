//! Replays one match and settles it.

use crate::backtest::market::Market;
use crate::backtest::replay::{
    absorbed, absorbed_fits, all_obeyed, all_obeyed_fits, fill_count, final_sum_avg, held_profit,
    obeyed, obeyed_fits, responses, settling_fits, total_profit, Play,
};
use crate::decimal::laws::zero_value;
use crate::decimal::Decimal;
use crate::domain::command::Command;
use crate::domain::fee::FeeModel;
use crate::domain::market::MarketSnapshot;
use crate::domain::phase::Phase;
use crate::domain::types::{Money, Side};
use crate::engine::config::EngineConfig;
use crate::engine::model::Desk;
use crate::engine::Engine;
use crate::exchange::backend::ExchangeBackend;
use crate::exchange::clock::Millis;
use crate::exchange::event::ExchangeEvent;
use crate::exchange::model::Venue;
use crate::exchange::simulator::Simulator;
use vstd::prelude::*;

verus! {

/// The result of a replay.
#[derive(Debug, Clone, Copy, PartialEq, Eq, Structural)]
pub struct MatchResult {
    /// Realized profit plus profit at settlement.
    pub pnl: Money,
    /// The profit of all that was sold during the match.
    pub realized_pnl: Money,
    /// The profit of what was held at the end.
    pub settle_pnl: Money,
    pub net_invested: Money,
    pub final_phase: Phase,
    pub winner: Side,
    /// The number of fills.
    pub fills: u32,
    pub up_net_qty: Money,
    pub dn_net_qty: Money,
    /// The sum of the averages, 0 unless both sides were held.
    pub sum_avg: Money,
}

/// The time between two snapshots.
pub const TICK_MS: Millis = 1_000;

/// The result of a replay that left the engine as `desk` after a number of fills.
pub open spec fn result_of(desk: Desk, fills: u32, winner: Side) -> MatchResult {
    MatchResult {
        pnl: total_profit(desk.holdings, winner),
        realized_pnl: desk.holdings.realized,
        settle_pnl: held_profit(desk.holdings, winner),
        net_invested: desk.holdings.invested(),
        final_phase: desk.phase,
        winner,
        fills,
        up_net_qty: desk.holdings.position().up_qty,
        dn_net_qty: desk.holdings.position().down_qty,
        sum_avg: final_sum_avg(desk.holdings),
    }
}

/// Replays a match and settles it.
pub fn run_match(market: &Market, cfg: EngineConfig, fee: FeeModel) -> (r: MatchResult)
    requires
        Play::start(cfg, fee).played_fits(market.snapshots@),
        settling_fits(
            Play::start(cfg, fee).played(market.snapshots@).desk.holdings,
            market.winner,
        ),
    ensures
        ({
            let play = Play::start(cfg, fee).played(market.snapshots@);
            r == result_of(play.desk, play.fills as u32, market.winner)
        }),
{
    let mut engine = Engine::new(cfg);
    let mut sim = Simulator::new(fee);
    let mut fills: u32 = 0;
    let mut i: usize = 0;
    let ghost start = Play::start(cfg, fee);
    proof {
        assert(market.snapshots@.take(0) =~= Seq::<MarketSnapshot>::empty());
    }
    while i < market.snapshots.len()
        invariant
            i <= market.snapshots@.len(),
            start.played_fits(market.snapshots@),
            (Play { desk: engine@, venue: sim@, fills: fills as nat }) == start.played(
                market.snapshots@.take(i as int),
            ),
        decreases market.snapshots@.len() - i,
    {
        proof {
            lemma_played_prefix(start, market.snapshots@, i as int + 1);
            assert(market.snapshots@.take(i as int + 1).drop_last() =~= market.snapshots@.take(
                i as int,
            ));
        }
        let now: Millis = (i as u64 + 1) * TICK_MS;
        tick(&mut engine, &mut sim, &mut fills, &market.snapshots[i], now);
        i += 1;
    }
    proof {
        assert(market.snapshots@.take(market.snapshots@.len() as int) =~= market.snapshots@);
    }
    settle(&engine, market.winner, fills)
}

/// Settles a match.
fn settle(engine: &Engine, winner: Side, fills: u32) -> (r: MatchResult)
    requires
        settling_fits(engine@.holdings, winner),
    ensures
        r == result_of(engine@, fills, winner),
{
    proof {
        zero_value();
    }
    let inventory = engine.inventory();
    let position = inventory.snapshot();
    let realized_pnl = inventory.realized_pnl();
    let settle_pnl = position.settle_pnl(winner);
    MatchResult {
        pnl: realized_pnl.plus(settle_pnl),
        realized_pnl,
        settle_pnl,
        net_invested: inventory.net_invested(),
        final_phase: engine.phase(),
        winner,
        fills,
        up_net_qty: position.up_qty,
        dn_net_qty: position.down_qty,
        sum_avg: if position.up_qty.gt(Decimal::zero()) && position.down_qty.gt(Decimal::zero()) {
            inventory.sum_avg()
        } else {
            Decimal::zero()
        },
    }
}

/// Replays one snapshot.
fn tick(
    engine: &mut Engine,
    sim: &mut Simulator,
    fills: &mut u32,
    snapshot: &MarketSnapshot,
    now: Millis,
)
    requires
        (Play { desk: old(engine)@, venue: old(sim)@, fills: *old(fills) as nat }).ticked_fits(
            *snapshot,
            now,
        ),
    ensures
        (Play { desk: final(engine)@, venue: final(sim)@, fills: *final(fills) as nat }) == (
        Play { desk: old(engine)@, venue: old(sim)@, fills: *old(fills) as nat }).ticked(
            *snapshot,
            now,
        ),
{
    proof {
        reveal(Play::ticked);
        reveal(Play::ticked_fits);
    }
    sim.on_market(snapshot);
    exchange_reports(engine, sim, fills, now);
    let commands = engine.handle_event(&ExchangeEvent::BookUpdate(*snapshot), now);
    dispatch_all(sim, &commands);
    exchange_reports(engine, sim, fills, now);
}

/// Hands all reports to the engine, and then all its answers to the exchange.
fn exchange_reports(engine: &mut Engine, sim: &mut Simulator, fills: &mut u32, now: Millis)
    requires
        (Play { desk: old(engine)@, venue: old(sim)@, fills: *old(fills) as nat }).exchanged_fits(
            now,
        ),
    ensures
        (Play { desk: final(engine)@, venue: final(sim)@, fills: *final(fills) as nat }) == (
        Play { desk: old(engine)@, venue: old(sim)@, fills: *old(fills) as nat }).exchanged(now),
{
    let mut pending: Vec<Command> = Vec::new();
    let ghost events = sim@.outbox;
    let ghost desk = engine@;
    let ghost counted = *fills as nat;
    let ghost venue = sim@;
    let ghost mut i: int = 0;
    proof {
        assert(events.take(0) =~= Seq::<ExchangeEvent>::empty());
        assert(events.skip(0) =~= events);
    }
    loop
        invariant
            0 <= i <= events.len(),
            absorbed_fits(desk, events, now),
            counted + fill_count(events) <= u32::MAX,
            sim@ == (Venue { outbox: events.skip(i), ..venue }),
            engine@ == absorbed(desk, events.take(i), now),
            pending@ == responses(desk, events.take(i), now),
            *fills == counted + fill_count(events.take(i)),
        ensures
            i == events.len(),
        decreases events.len() - i,
    {
        let event = match sim.try_recv() {
            Some(event) => event,
            None => {
                break ;
            },
        };
        proof {
            lemma_absorbed_prefix(desk, events, now, i + 1);
            assert(events.take(i + 1).drop_last() =~= events.take(i));
            assert(events.skip(i).remove(0) =~= events.skip(i + 1));
            lemma_fill_count_prefix(events, i + 1);
        }
        if let ExchangeEvent::Filled(_) = event {
            *fills = *fills + 1;
        }
        let mut commands = engine.handle_event(&event, now);
        pending.append(&mut commands);
        proof {
            i = i + 1;
        }
    }
    proof {
        assert(events.take(i) =~= events);
        assert(events.skip(i) =~= Seq::<ExchangeEvent>::empty());
    }
    dispatch_all(sim, &pending);
}

/// Hands several commands to the exchange.
pub(crate) fn dispatch_all(sim: &mut Simulator, commands: &Vec<Command>)
    requires
        all_obeyed_fits(old(sim)@, commands@),
    ensures
        final(sim)@ == all_obeyed(old(sim)@, commands@),
{
    let mut i: usize = 0;
    proof {
        assert(commands@.take(0) =~= Seq::<Command>::empty());
    }
    while i < commands.len()
        invariant
            i <= commands@.len(),
            all_obeyed_fits(old(sim)@, commands@),
            sim@ == all_obeyed(old(sim)@, commands@.take(i as int)),
        decreases commands@.len() - i,
    {
        proof {
            lemma_obeyed_prefix(old(sim)@, commands@, i as int + 1);
            assert(commands@.take(i as int + 1).drop_last() =~= commands@.take(i as int));
        }
        dispatch(sim, &commands[i]);
        i += 1;
    }
    proof {
        assert(commands@.take(commands@.len() as int) =~= commands@);
    }
}

/// Hands a command to the exchange.
pub fn dispatch(sim: &mut Simulator, command: &Command)
    requires
        obeyed_fits(old(sim)@, *command),
    ensures
        final(sim)@ == obeyed(old(sim)@, *command),
{
    match command {
        Command::SubmitOrder(order) => sim.submit_order(*order),
        Command::CancelOrder(order_id) => sim.cancel_order(*order_id),
        Command::CancelSide(side) => sim.cancel_side(*side),
        Command::CancelAll => sim.cancel_all(),
    }
}

proof fn lemma_played_prefix(play: Play, snapshots: Seq<MarketSnapshot>, n: int)
    requires
        0 <= n <= snapshots.len(),
        play.played_fits(snapshots),
    ensures
        play.played_fits(snapshots.take(n)),
    decreases snapshots.len(),
{
    if n < snapshots.len() {
        lemma_played_prefix(play, snapshots.drop_last(), n);
        assert(snapshots.drop_last().take(n) =~= snapshots.take(n));
    } else {
        assert(snapshots.take(n) =~= snapshots);
    }
}

proof fn lemma_absorbed_prefix(desk: Desk, events: Seq<ExchangeEvent>, now: Millis, n: int)
    requires
        0 <= n <= events.len(),
        absorbed_fits(desk, events, now),
    ensures
        absorbed_fits(desk, events.take(n), now),
    decreases events.len(),
{
    if n < events.len() {
        lemma_absorbed_prefix(desk, events.drop_last(), now, n);
        assert(events.drop_last().take(n) =~= events.take(n));
    } else {
        assert(events.take(n) =~= events);
    }
}

proof fn lemma_fill_count_prefix(events: Seq<ExchangeEvent>, n: int)
    requires
        0 <= n <= events.len(),
    ensures
        fill_count(events.take(n)) <= fill_count(events),
    decreases events.len(),
{
    if n < events.len() {
        lemma_fill_count_prefix(events.drop_last(), n);
        assert(events.drop_last().take(n) =~= events.take(n));
    } else {
        assert(events.take(n) =~= events);
    }
}

proof fn lemma_obeyed_prefix(venue: Venue, commands: Seq<Command>, n: int)
    requires
        0 <= n <= commands.len(),
        all_obeyed_fits(venue, commands),
    ensures
        all_obeyed_fits(venue, commands.take(n)),
    decreases commands.len(),
{
    if n < commands.len() {
        lemma_obeyed_prefix(venue, commands.drop_last(), n);
        assert(commands.drop_last().take(n) =~= commands.take(n));
    } else {
        assert(commands.take(n) =~= commands);
    }
}

} // verus!
