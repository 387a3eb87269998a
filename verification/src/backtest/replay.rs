//! The mathematical model of a replay.

use crate::decimal::dec;
use crate::domain::command::Command;
use crate::domain::fee::FeeModel;
use crate::domain::market::MarketSnapshot;
use crate::domain::types::{Money, Side};
use crate::engine::config::EngineConfig;
use crate::engine::model::Desk;
use crate::exchange::clock::Millis;
use crate::exchange::event::ExchangeEvent;
use crate::exchange::model::Venue;
use crate::inventory::model::Holdings;
use vstd::prelude::*;

verus! {

/// The engine after it handled several events at one moment.
pub open spec fn absorbed(desk: Desk, events: Seq<ExchangeEvent>, now: Millis) -> Desk
    decreases events.len(),
{
    if events.len() == 0 {
        desk
    } else {
        absorbed(desk, events.drop_last(), now).handled(events.last(), now)
    }
}

/// What the engine sends upon several events.
pub open spec fn responses(desk: Desk, events: Seq<ExchangeEvent>, now: Millis) -> Seq<Command>
    decreases events.len(),
{
    if events.len() == 0 {
        Seq::empty()
    } else {
        responses(desk, events.drop_last(), now) + absorbed(desk, events.drop_last(), now).answer(
            events.last(),
            now,
        )
    }
}

/// Whether several events can be handled.
pub open spec fn absorbed_fits(desk: Desk, events: Seq<ExchangeEvent>, now: Millis) -> bool
    decreases events.len(),
{
    events.len() > 0 ==> {
        &&& absorbed_fits(desk, events.drop_last(), now)
        &&& absorbed(desk, events.drop_last(), now).handled_fits(events.last(), now)
    }
}

/// How many of several events are fills.
pub open spec fn fill_count(events: Seq<ExchangeEvent>) -> nat
    decreases events.len(),
{
    if events.len() == 0 {
        0
    } else {
        fill_count(events.drop_last()) + if events.last() is Filled {
            1nat
        } else {
            0nat
        }
    }
}

/// The exchange after a command.
pub open spec fn obeyed(venue: Venue, command: Command) -> Venue {
    match command {
        Command::SubmitOrder(order) => venue.submitted(order),
        Command::CancelOrder(order_id) => venue.cancelled_one(order_id),
        Command::CancelSide(side) => venue.cancelled(Some(side)),
        Command::CancelAll => venue.cancelled(None),
    }
}

/// Whether the exchange can handle a command.
pub open spec fn obeyed_fits(venue: Venue, command: Command) -> bool {
    command matches Command::SubmitOrder(order) ==> venue.submitted_fits(order)
}

/// The exchange after several commands.
pub open spec fn all_obeyed(venue: Venue, commands: Seq<Command>) -> Venue
    decreases commands.len(),
{
    if commands.len() == 0 {
        venue
    } else {
        obeyed(all_obeyed(venue, commands.drop_last()), commands.last())
    }
}

/// Whether the exchange can handle several commands.
pub open spec fn all_obeyed_fits(venue: Venue, commands: Seq<Command>) -> bool
    decreases commands.len(),
{
    commands.len() > 0 ==> {
        &&& all_obeyed_fits(venue, commands.drop_last())
        &&& obeyed_fits(all_obeyed(venue, commands.drop_last()), commands.last())
    }
}

/// The exchange once its reports were taken.
pub open spec fn emptied(venue: Venue) -> Venue {
    Venue { outbox: Seq::empty(), ..venue }
}

/// An engine and an exchange in the middle of a replay.
pub struct Play {
    pub desk: Desk,
    pub venue: Venue,
    pub fills: nat,
}

impl Play {
    /// At the start of a replay.
    pub open spec fn start(cfg: EngineConfig, fee: FeeModel) -> Play {
        Play { desk: Desk::opened(cfg), venue: Venue::opened(fee), fills: 0 }
    }

    /// After the engine took all reports and the exchange all its answers.
    pub open spec fn exchanged(self, now: Millis) -> Play {
        let events = self.venue.outbox;
        Play {
            desk: absorbed(self.desk, events, now),
            venue: all_obeyed(emptied(self.venue), responses(self.desk, events, now)),
            fills: self.fills + fill_count(events),
        }
    }

    /// Whether the exchange of reports and answers can be handled.
    pub open spec fn exchanged_fits(self, now: Millis) -> bool {
        let events = self.venue.outbox;
        &&& absorbed_fits(self.desk, events, now)
        &&& all_obeyed_fits(emptied(self.venue), responses(self.desk, events, now))
        &&& self.fills + fill_count(events) <= u32::MAX
    }

    /// After the engine saw the market and the exchange took its answer.
    pub open spec fn shown(self, market: MarketSnapshot, now: Millis) -> Play {
        let event = ExchangeEvent::BookUpdate(market);
        Play {
            desk: self.desk.handled(event, now),
            venue: all_obeyed(self.venue, self.desk.answer(event, now)),
            ..self
        }
    }

    /// Whether the market can be shown to the engine.
    pub open spec fn shown_fits(self, market: MarketSnapshot, now: Millis) -> bool {
        let event = ExchangeEvent::BookUpdate(market);
        &&& self.desk.handled_fits(event, now)
        &&& all_obeyed_fits(self.venue, self.desk.answer(event, now))
    }

    /// After the market moved at the exchange.
    pub open spec fn moved(self, market: MarketSnapshot) -> Play {
        Play { venue: self.venue.moved(market), ..self }
    }

    /// After one snapshot: the market moves at the exchange, reports and answers are
    /// exchanged, the engine sees the market, and reports and answers are exchanged
    /// once more.
    #[verifier::opaque]
    pub open spec fn ticked(self, market: MarketSnapshot, now: Millis) -> Play {
        self.moved(market).exchanged(now).shown(market, now).exchanged(now)
    }

    /// Whether one snapshot can be replayed.
    #[verifier::opaque]
    pub open spec fn ticked_fits(self, market: MarketSnapshot, now: Millis) -> bool {
        &&& self.venue.moved_fits(market)
        &&& self.moved(market).exchanged_fits(now)
        &&& self.moved(market).exchanged(now).shown_fits(market, now)
        &&& self.moved(market).exchanged(now).shown(market, now).exchanged_fits(now)
    }

    /// After several snapshots, one per second, the first at the first second.
    pub open spec fn played(self, snapshots: Seq<MarketSnapshot>) -> Play
        decreases snapshots.len(),
    {
        if snapshots.len() == 0 {
            self
        } else {
            self.played(snapshots.drop_last()).ticked(
                snapshots.last(),
                (snapshots.len() * 1000) as u64,
            )
        }
    }

    /// Whether several snapshots can be replayed.
    pub open spec fn played_fits(self, snapshots: Seq<MarketSnapshot>) -> bool
        decreases snapshots.len(),
    {
        snapshots.len() > 0 ==> {
            &&& self.played_fits(snapshots.drop_last())
            &&& snapshots.len() * 1000 <= u64::MAX
            &&& self.played(snapshots.drop_last()).ticked_fits(
                snapshots.last(),
                (snapshots.len() * 1000) as u64,
            )
        }
    }
}

/// The profit of what is held at the end of a match.
pub open spec fn held_profit(holdings: Holdings, winner: Side) -> Money {
    holdings.position().settled(winner)
}

/// The profit of a match: what was realized and what is held.
pub open spec fn total_profit(holdings: Holdings, winner: Side) -> Money {
    holdings.realized + held_profit(holdings, winner)
}

/// Whether both sides are held.
pub open spec fn holds_both(holdings: Holdings) -> bool {
    holdings.position().up_qty@ > 0real && holdings.position().down_qty@ > 0real
}

/// The sum of the averages, 0 unless both sides are held.
pub open spec fn final_sum_avg(holdings: Holdings) -> Money {
    if holds_both(holdings) {
        holdings.averages_sum()
    } else {
        dec(0, 0)
    }
}

/// Whether a match can be settled.
pub open spec fn settling_fits(holdings: Holdings, winner: Side) -> bool {
    &&& holdings.position_fits()
    &&& holdings.position().settled_fits(winner)
    &&& holdings.realized.add_fits(held_profit(holdings, winner))
    &&& holdings.cash_out.sub_fits(holdings.cash_in)
    &&& holds_both(holdings) ==> holdings.averages_sum_fits()
}

} // verus!
