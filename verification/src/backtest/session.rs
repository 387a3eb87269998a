//! The mathematical model of a session of the hedging engine.

use crate::backtest::replay::{all_obeyed, all_obeyed_fits};
use crate::domain::fee::FeeModel;
use crate::domain::market::MarketSnapshot;
use crate::exchange::clock::Millis;
use crate::exchange::event::ExchangeEvent;
use crate::exchange::model::Venue;
use crate::hedging::engine::config::EngineConfig;
use crate::hedging::engine::model::Robot;
use vstd::prelude::*;

verus! {

/// A hedging engine and an exchange in the middle of a session.
pub struct Session {
    pub robot: Robot,
    pub venue: Venue,
    pub fills: nat,
}

impl Session {
    /// At the start of a session.
    pub open spec fn start(cfg: EngineConfig, fee: FeeModel) -> Session {
        Session { robot: Robot::opened(cfg), venue: Venue::opened(fee), fills: 0 }
    }

    /// After the engine handled an event and the exchange took its answer.
    pub open spec fn told(self, event: ExchangeEvent, now: Millis, tte: Millis) -> Session {
        Session {
            robot: self.robot.handled(event, now, tte),
            venue: all_obeyed(self.venue, self.robot.answer(event, now, tte)),
            ..self
        }
    }

    /// Whether the engine can be told of an event.
    pub open spec fn told_fits(self, event: ExchangeEvent, now: Millis, tte: Millis) -> bool {
        &&& self.robot.handled_fits(event, now, tte)
        &&& all_obeyed_fits(self.venue, self.robot.answer(event, now, tte))
    }

    /// With the oldest report taken from the exchange.
    pub open spec fn taken(self) -> Session {
        Session {
            venue: Venue { outbox: self.venue.outbox.remove(0), ..self.venue },
            fills: self.fills + if self.venue.outbox[0] is Filled {
                1nat
            } else {
                0nat
            },
            ..self
        }
    }

    /// After the engine was told of the oldest report, if there is one.
    pub open spec fn one_report(self, now: Millis, tte: Millis) -> Session {
        if self.venue.outbox.len() == 0 {
            self
        } else {
            self.taken().told(self.venue.outbox[0], now, tte)
        }
    }

    /// Whether that can be handled.
    pub open spec fn one_report_fits(self, now: Millis, tte: Millis) -> bool {
        self.venue.outbox.len() > 0 ==> {
            &&& self.fills < usize::MAX
            &&& self.taken().told_fits(self.venue.outbox[0], now, tte)
        }
    }

    /// After `n` reports, each with what it brings about.
    pub open spec fn reports(self, now: Millis, tte: Millis, n: nat) -> Session
        decreases n,
    {
        if n == 0 {
            self
        } else {
            self.reports(now, tte, (n - 1) as nat).one_report(now, tte)
        }
    }

    /// Whether `n` reports can be handled.
    pub open spec fn reports_fit(self, now: Millis, tte: Millis, n: nat) -> bool
        decreases n,
    {
        n > 0 ==> {
            &&& self.reports_fit(now, tte, (n - 1) as nat)
            &&& self.reports(now, tte, (n - 1) as nat).one_report_fits(now, tte)
        }
    }

    /// Whether `n` reports can be handled and none is left after them.
    pub open spec fn quiet_after(self, now: Millis, tte: Millis, n: nat) -> bool {
        self.reports_fit(now, tte, n) && self.reports(now, tte, n).venue.outbox.len() == 0
    }

    /// Whether the exchange of reports and answers comes to an end.
    pub open spec fn comes_to_rest(self, now: Millis, tte: Millis) -> bool {
        exists|n: nat| self.quiet_after(now, tte, n)
    }

    /// After the exchange of reports and answers came to its end.
    pub open spec fn rested(self, now: Millis, tte: Millis) -> Session {
        self.reports(now, tte, choose|n: nat| self.quiet_after(now, tte, n))
    }

    /// After the market moved at the exchange.
    pub open spec fn moved(self, market: MarketSnapshot) -> Session {
        Session { venue: self.venue.moved(market), ..self }
    }

    /// After one snapshot: the engine sees the market, then, but for the first snapshot,
    /// the market moves at the exchange, and reports and answers are exchanged until
    /// there are none.
    #[verifier::opaque]
    pub open spec fn stepped(
        self,
        market: MarketSnapshot,
        is_first: bool,
        now: Millis,
        tte: Millis,
    ) -> Session {
        let told = self.told(ExchangeEvent::BookUpdate(market), now, tte);
        if is_first {
            told.rested(now, tte)
        } else {
            told.moved(market).rested(now, tte)
        }
    }

    /// Whether one snapshot can be handled.
    #[verifier::opaque]
    pub open spec fn stepped_fits(
        self,
        market: MarketSnapshot,
        is_first: bool,
        now: Millis,
        tte: Millis,
    ) -> bool {
        let told = self.told(ExchangeEvent::BookUpdate(market), now, tte);
        &&& self.told_fits(ExchangeEvent::BookUpdate(market), now, tte)
        &&& if is_first {
            told.comes_to_rest(now, tte)
        } else {
            told.venue.moved_fits(market) && told.moved(market).comes_to_rest(now, tte)
        }
    }

    /// After the first `n` of some snapshots, one per second.
    pub open spec fn played(self, snapshots: Seq<MarketSnapshot>, n: nat) -> Session
        decreases n,
    {
        if n == 0 {
            self
        } else {
            self.played(snapshots, (n - 1) as nat).stepped(
                snapshots[n - 1],
                n == 1,
                ((n - 1) * 1000) as u64,
                ((snapshots.len() - n) * 1000) as u64,
            )
        }
    }

    /// Whether the first `n` of some snapshots can be handled.
    pub open spec fn played_fits(self, snapshots: Seq<MarketSnapshot>, n: nat) -> bool
        decreases n,
    {
        n > 0 ==> {
            &&& self.played_fits(snapshots, (n - 1) as nat)
            &&& self.played(snapshots, (n - 1) as nat).stepped_fits(
                snapshots[n - 1],
                n == 1,
                ((n - 1) * 1000) as u64,
                ((snapshots.len() - n) * 1000) as u64,
            )
        }
    }
}

/// Once there are no reports left, nothing changes any more.
pub proof fn rest_lasts(session: Session, now: Millis, tte: Millis, n: nat, m: nat)
    requires
        n <= m,
        session.reports(now, tte, n).venue.outbox.len() == 0,
    ensures
        session.reports(now, tte, m) == session.reports(now, tte, n),
    decreases m,
{
    if n < m {
        rest_lasts(session, now, tte, n, (m - 1) as nat);
    }
}

} // verus!
