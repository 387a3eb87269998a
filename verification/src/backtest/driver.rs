//! Runs the hedging engine over a recorded market and settles the session.

use crate::backtest::market::Market;
use crate::backtest::run::dispatch_all;
use crate::backtest::session::{rest_lasts, Session};
use crate::domain::fee::FeeModel;
use crate::domain::market::MarketSnapshot;
use crate::domain::state::RobotState;
use crate::domain::types::{Money, Side};
use crate::exchange::clock::Millis;
use crate::exchange::event::ExchangeEvent;
use crate::exchange::simulator::Simulator;
use crate::hedging::engine::config::EngineConfig;
use crate::hedging::engine::Engine;
use crate::ledger::Ledger;
use vstd::prelude::*;

verus! {

/// The parameters of a session.
#[derive(Debug, Clone, Copy)]
pub struct BacktestConfig {
    pub engine_config: EngineConfig,
}

/// The result of a session.
#[derive(Debug, Clone, Copy, PartialEq, Eq, Structural)]
pub struct BacktestReport {
    pub winner: Side,
    /// The shares held of the winner.
    pub winner_qty: Money,
    /// What both sides cost.
    pub total_cost: Money,
    /// A dollar per winning share, less the cost.
    pub final_pnl: Money,
    /// The number of fills.
    pub fill_count: usize,
    /// The state at the end.
    pub final_state: RobotState,
}

/// The report of a session that ended like this.
pub open spec fn report_of(
    ledger: Ledger,
    winner: Side,
    fill_count: usize,
    final_state: RobotState,
) -> BacktestReport {
    let total_cost = ledger.book(Side::Up).cost + ledger.book(Side::Down).cost;
    BacktestReport {
        winner,
        winner_qty: ledger.book(winner).qty,
        total_cost,
        final_pnl: ledger.book(winner).qty - total_cost,
        fill_count,
        final_state,
    }
}

/// Whether the report can be computed.
pub open spec fn report_fits(ledger: Ledger, winner: Side) -> bool {
    let up = ledger.book(Side::Up).cost;
    let down = ledger.book(Side::Down).cost;
    up.add_fits(down) && ledger.book(winner).qty.sub_fits(up + down)
}

/// A session over a recorded market, at its end.
pub open spec fn session_end(market: Market, config: BacktestConfig, fee: FeeModel) -> Session {
    Session::start(config.engine_config, fee).played(market.snapshots@, market.snapshots@.len())
}

/// The report of a session over a recorded market.
pub open spec fn session_report(
    market: Market,
    config: BacktestConfig,
    fee: FeeModel,
) -> BacktestReport {
    let end = session_end(market, config, fee);
    report_of(end.robot.ledger, market.winner, end.fills as usize, end.robot.round.state)
}

/// Whether a session can be run and settled.
pub open spec fn run_fits(market: Market, config: BacktestConfig, fee: FeeModel) -> bool {
    let cfg = config.engine_config;
    &&& cfg.cash_guard_ratio@ >= cfg.pools.shares().reserve@
    &&& market.snapshots@.len() * 1000 <= u64::MAX
    &&& Session::start(cfg, fee).played_fits(market.snapshots@, market.snapshots@.len())
    &&& report_fits(session_end(market, config, fee).robot.ledger, market.winner)
}

/// Runs a session over a recorded market and settles it.
pub fn run(market: &Market, config: &BacktestConfig, fee_model: FeeModel) -> (r: BacktestReport)
    requires
        run_fits(*market, *config, fee_model),
    ensures
        r == session_report(*market, *config, fee_model),
{
    let mut engine = Engine::new(config.engine_config);
    let mut simulator = Simulator::new(fee_model);
    let mut fill_count: usize = 0;
    let ghost snapshots = market.snapshots@;
    let ghost start = Session::start(config.engine_config, fee_model);
    let count: usize = market.snapshots.len();
    let mut i: usize = 0;
    while i < count
        invariant
            i <= count,
            count == snapshots.len(),
            snapshots == market.snapshots@,
            snapshots.len() * 1000 <= u64::MAX,
            start.played_fits(snapshots, snapshots.len()),
            (Session { robot: engine@, venue: simulator@, fills: fill_count as nat })
                == start.played(snapshots, i as nat),
        decreases count - i,
    {
        proof {
            lemma_played_prefix(start, snapshots, (i + 1) as nat, snapshots.len());
        }
        let now: Millis = i as u64 * 1000;
        let tte: Millis = (count - i - 1) as u64 * 1000;
        step(&mut engine, &mut simulator, &mut fill_count, &market.snapshots[i], i == 0, now, tte);
        i += 1;
    }
    settle(engine.ledger(), market.winner, fill_count, engine.state())
}

/// Handles one snapshot.
fn step(
    engine: &mut Engine,
    simulator: &mut Simulator,
    fill_count: &mut usize,
    snapshot: &MarketSnapshot,
    is_first: bool,
    now: Millis,
    tte: Millis,
)
    requires
        (Session {
            robot: old(engine)@,
            venue: old(simulator)@,
            fills: *old(fill_count) as nat,
        }).stepped_fits(*snapshot, is_first, now, tte),
    ensures
        (Session {
            robot: final(engine)@,
            venue: final(simulator)@,
            fills: *final(fill_count) as nat,
        }) == (Session {
            robot: old(engine)@,
            venue: old(simulator)@,
            fills: *old(fill_count) as nat,
        }).stepped(*snapshot, is_first, now, tte),
{
    proof {
        reveal(Session::stepped);
        reveal(Session::stepped_fits);
    }
    let commands = engine.handle_event(ExchangeEvent::BookUpdate(*snapshot), now, tte);
    dispatch_all(simulator, &commands);
    if !is_first {
        simulator.on_market(snapshot);
    }
    drain_events(simulator, engine, fill_count, now, tte);
}

/// Exchanges reports and answers until there are none.
fn drain_events(
    simulator: &mut Simulator,
    engine: &mut Engine,
    fill_count: &mut usize,
    now: Millis,
    tte: Millis,
)
    requires
        (Session {
            robot: old(engine)@,
            venue: old(simulator)@,
            fills: *old(fill_count) as nat,
        }).comes_to_rest(now, tte),
    ensures
        (Session {
            robot: final(engine)@,
            venue: final(simulator)@,
            fills: *final(fill_count) as nat,
        }) == (Session {
            robot: old(engine)@,
            venue: old(simulator)@,
            fills: *old(fill_count) as nat,
        }).rested(now, tte),
{
    let ghost start = Session {
        robot: engine@,
        venue: simulator@,
        fills: *fill_count as nat,
    };
    let ghost n: nat = choose|n: nat| start.quiet_after(now, tte, n);
    let ghost mut i: nat = 0;
    loop
        invariant
            i <= n,
            start.quiet_after(now, tte, n),
            (Session { robot: engine@, venue: simulator@, fills: *fill_count as nat })
                == start.reports(now, tte, i),
        ensures
            i <= n,
            (Session { robot: engine@, venue: simulator@, fills: *fill_count as nat })
                == start.reports(now, tte, i),
            simulator@.outbox.len() == 0,
        decreases n - i,
    {
        let event = match simulator.try_recv() {
            Some(event) => event,
            None => {
                break ;
            },
        };
        proof {
            assert(i < n);
            lemma_reports_prefix(start, now, tte, (i + 1) as nat, n);
        }
        if let ExchangeEvent::Filled(_) = event {
            *fill_count = *fill_count + 1;
        }
        let commands = engine.handle_event(event, now, tte);
        dispatch_all(simulator, &commands);
        proof {
            i = (i + 1) as nat;
        }
    }
    proof {
        rest_lasts(start, now, tte, i, n);
    }
}

/// Settles a session.
fn settle(ledger: &Ledger, winner: Side, fill_count: usize, final_state: RobotState) -> (r:
    BacktestReport)
    requires
        report_fits(*ledger, winner),
    ensures
        r == report_of(*ledger, winner, fill_count, final_state),
{
    let winner_qty = ledger.qty(winner);
    let total_cost = ledger.total_cost();
    BacktestReport {
        winner,
        winner_qty,
        total_cost,
        final_pnl: winner_qty.minus(total_cost),
        fill_count,
        final_state,
    }
}

proof fn lemma_played_prefix(session: Session, snapshots: Seq<MarketSnapshot>, n: nat, m: nat)
    requires
        n <= m,
        session.played_fits(snapshots, m),
    ensures
        session.played_fits(snapshots, n),
    decreases m,
{
    if n < m {
        lemma_played_prefix(session, snapshots, n, (m - 1) as nat);
    }
}

proof fn lemma_reports_prefix(session: Session, now: Millis, tte: Millis, n: nat, m: nat)
    requires
        n <= m,
        session.reports_fit(now, tte, m),
    ensures
        session.reports_fit(now, tte, n),
    decreases m,
{
    if n < m {
        lemma_reports_prefix(session, now, tte, n, (m - 1) as nat);
    }
}

} // verus!
