//! Many sessions and their statistics.

use crate::backtest::driver::{run, run_fits, session_report, BacktestConfig};
use crate::backtest::market::Market;
use crate::decimal::laws::{quotient_fits, short_numbers_are_narrow, whole_value, zero_value};
use crate::decimal::model::MANTISSA_LIMIT;
use crate::decimal::{dec, Decimal};
use crate::domain::fee::FeeModel;
use crate::domain::types::Money;
use vstd::prelude::*;

verus! {

/// The markets of one kind, under a name.
pub struct Scenario {
    pub label: &'static str,
    pub markets: Vec<Market>,
}

/// The statistics of the sessions of one scenario.
#[derive(Debug, Clone, Copy, PartialEq, Eq)]
pub struct BatchStats {
    pub label: &'static str,
    /// The number of sessions.
    pub sessions: usize,
    /// The number of sessions that made a profit.
    pub winning_sessions: usize,
    pub average_pnl: Money,
    /// The worst session.
    pub min_pnl: Money,
    /// The best session.
    pub max_pnl: Money,
}

impl BatchStats {
    /// The share of sessions that made a profit, 0 without sessions.
    pub open spec fn rate(self) -> Decimal {
        if self.sessions == 0 {
            dec(0, 0)
        } else {
            dec(self.winning_sessions as int, 0) / dec(self.sessions as int, 0)
        }
    }

    /// Tells the share of sessions that made a profit.
    pub fn win_rate(&self) -> (r: Decimal)
        ensures
            r == self.rate(),
    {
        if self.sessions == 0 {
            Decimal::zero()
        } else {
            let won = Decimal::whole(self.winning_sessions as u64);
            let all = Decimal::whole(self.sessions as u64);
            proof {
                whole_value(self.winning_sessions as int);
                whole_value(self.sessions as int);
                short_numbers_are_narrow(self.sessions as int, 0);
                quotient_fits(won, all);
            }
            won.over(all)
        }
    }
}

/// How many of some results are profits.
pub open spec fn profits(pnls: Seq<Money>) -> nat
    decreases pnls.len(),
{
    if pnls.len() == 0 {
        0
    } else {
        profits(pnls.drop_last()) + if pnls.last()@ > 0real {
            1nat
        } else {
            0nat
        }
    }
}

/// The sum of some results, added up in order.
pub open spec fn pnl_sum(pnls: Seq<Money>) -> Money
    decreases pnls.len(),
{
    if pnls.len() == 0 {
        dec(0, 0)
    } else {
        pnl_sum(pnls.drop_last()) + pnls.last()
    }
}

/// Whether some results can be added up.
pub open spec fn pnl_sum_fits(pnls: Seq<Money>) -> bool
    decreases pnls.len(),
{
    pnls.len() > 0 ==> {
        &&& pnl_sum_fits(pnls.drop_last())
        &&& pnl_sum(pnls.drop_last()).add_fits(pnls.last())
    }
}

/// The smallest of some results; the largest number without any.
pub open spec fn worst(pnls: Seq<Money>) -> Money
    decreases pnls.len(),
{
    if pnls.len() == 0 {
        dec(MANTISSA_LIMIT - 1, 0)
    } else {
        worst(pnls.drop_last()).smaller(pnls.last())
    }
}

/// The largest of some results; the smallest number without any.
pub open spec fn best(pnls: Seq<Money>) -> Money
    decreases pnls.len(),
{
    if pnls.len() == 0 {
        dec(1 - MANTISSA_LIMIT, 0)
    } else {
        best(pnls.drop_last()).larger(pnls.last())
    }
}

/// The statistics of some results; all 0 without any.
pub open spec fn stats_of(label: &'static str, pnls: Seq<Money>) -> BatchStats {
    let none = pnls.len() == 0;
    BatchStats {
        label,
        sessions: pnls.len() as usize,
        winning_sessions: profits(pnls) as usize,
        average_pnl: if none {
            dec(0, 0)
        } else {
            pnl_sum(pnls) / dec(pnls.len() as int, 0)
        },
        min_pnl: if none {
            dec(0, 0)
        } else {
            worst(pnls)
        },
        max_pnl: if none {
            dec(0, 0)
        } else {
            best(pnls)
        },
    }
}

/// Whether the statistics can be computed.
pub open spec fn stats_fits(pnls: Seq<Money>) -> bool {
    &&& pnl_sum_fits(pnls)
    &&& pnls.len() > 0 ==> pnl_sum(pnls).div_fits(dec(pnls.len() as int, 0))
}

/// The results of the sessions over some markets.
pub open spec fn session_pnls(
    markets: Seq<Market>,
    config: BacktestConfig,
    fee: FeeModel,
) -> Seq<Money> {
    Seq::new(markets.len(), |i: int| session_report(markets[i], config, fee).final_pnl)
}

/// Whether the sessions of a scenario can be run.
pub open spec fn scenario_fits(
    scenario: Scenario,
    config: BacktestConfig,
    fee: FeeModel,
) -> bool {
    &&& forall|i: int|
        0 <= i < scenario.markets@.len() ==> run_fits(
            #[trigger] scenario.markets@[i],
            config,
            fee,
        )
    &&& stats_fits(session_pnls(scenario.markets@, config, fee))
}

/// Computes the statistics of some results.
pub fn summarize(label: &'static str, pnls: &Vec<Money>) -> (r: BatchStats)
    requires
        stats_fits(pnls@),
    ensures
        r == stats_of(label, pnls@),
{
    let mut winning_sessions: usize = 0;
    let mut total_pnl = Decimal::zero();
    let mut min_pnl = Decimal::largest();
    let mut max_pnl = Decimal::smallest();
    let mut i: usize = 0;
    proof {
        zero_value();
        assert(pnls@.take(0) =~= Seq::<Money>::empty());
    }
    while i < pnls.len()
        invariant
            i <= pnls@.len(),
            dec(0, 0)@ == 0real,
            pnl_sum_fits(pnls@),
            winning_sessions == profits(pnls@.take(i as int)),
            winning_sessions <= i,
            total_pnl == pnl_sum(pnls@.take(i as int)),
            min_pnl == worst(pnls@.take(i as int)),
            max_pnl == best(pnls@.take(i as int)),
        decreases pnls@.len() - i,
    {
        proof {
            lemma_sum_fits_prefix(pnls@, i as int + 1);
            assert(pnls@.take(i as int + 1).drop_last() =~= pnls@.take(i as int));
        }
        let pnl = pnls[i];
        if pnl.gt(Decimal::zero()) {
            winning_sessions += 1;
        }
        total_pnl = total_pnl.plus(pnl);
        min_pnl = min_pnl.min(pnl);
        max_pnl = max_pnl.max(pnl);
        i += 1;
    }
    proof {
        assert(pnls@.take(pnls@.len() as int) =~= pnls@);
    }
    let sessions: usize = pnls.len();
    if sessions == 0 {
        return BatchStats {
            label,
            sessions,
            winning_sessions,
            average_pnl: Decimal::zero(),
            min_pnl: Decimal::zero(),
            max_pnl: Decimal::zero(),
        };
    }
    BatchStats {
        label,
        sessions,
        winning_sessions,
        average_pnl: total_pnl.over(Decimal::whole(sessions as u64)),
        min_pnl,
        max_pnl,
    }
}

/// Runs the sessions of a scenario and computes their statistics.
pub fn run_scenario(scenario: &Scenario, config: &BacktestConfig, fee_model: FeeModel) -> (r:
    BatchStats)
    requires
        scenario_fits(*scenario, *config, fee_model),
    ensures
        r == stats_of(
            scenario.label,
            session_pnls(scenario.markets@, *config, fee_model),
        ),
{
    let mut pnls: Vec<Money> = Vec::new();
    let mut i: usize = 0;
    while i < scenario.markets.len()
        invariant
            i <= scenario.markets@.len(),
            scenario_fits(*scenario, *config, fee_model),
            pnls@.len() == i,
            forall|k: int|
                0 <= k < i ==> pnls@[k] == session_pnls(
                    scenario.markets@,
                    *config,
                    fee_model,
                )[k],
        decreases scenario.markets@.len() - i,
    {
        assert(run_fits(scenario.markets@[i as int], *config, fee_model));
        let report = run(&scenario.markets[i], config, fee_model);
        pnls.push(report.final_pnl);
        i += 1;
    }
    assert(pnls@ =~= session_pnls(scenario.markets@, *config, fee_model));
    summarize(scenario.label, &pnls)
}

/// Runs several scenarios.
pub fn run_scenarios(scenarios: &Vec<Scenario>, config: &BacktestConfig, fee_model: FeeModel) -> (r:
    Vec<BatchStats>)
    requires
        forall|i: int|
            0 <= i < scenarios@.len() ==> scenario_fits(
                #[trigger] scenarios@[i],
                *config,
                fee_model,
            ),
    ensures
        r@.len() == scenarios@.len(),
        forall|i: int|
            0 <= i < scenarios@.len() ==> (#[trigger] r@[i]) == stats_of(
                scenarios@[i].label,
                session_pnls(scenarios@[i].markets@, *config, fee_model),
            ),
{
    let mut r: Vec<BatchStats> = Vec::new();
    let mut i: usize = 0;
    while i < scenarios.len()
        invariant
            i <= scenarios@.len(),
            forall|k: int|
                0 <= k < scenarios@.len() ==> scenario_fits(
                    #[trigger] scenarios@[k],
                    *config,
                    fee_model,
                ),
            r@.len() == i,
            forall|k: int|
                0 <= k < i ==> (#[trigger] r@[k]) == stats_of(
                    scenarios@[k].label,
                    session_pnls(scenarios@[k].markets@, *config, fee_model),
                ),
        decreases scenarios@.len() - i,
    {
        assert(scenario_fits(scenarios@[i as int], *config, fee_model));
        r.push(run_scenario(&scenarios[i], config, fee_model));
        i += 1;
    }
    r
}

/// The worst session is no better than the best one, every session lies between them,
/// and no more sessions won than there were.
pub proof fn statistics_are_consistent(pnls: Seq<Money>)
    requires
        pnls.len() > 0,
    ensures
        worst(pnls)@ <= best(pnls)@,
        forall|i: int| 0 <= i < pnls.len() ==> worst(pnls)@ <= (#[trigger] pnls[i])@ <= best(pnls)@,
        profits(pnls) <= pnls.len(),
    decreases pnls.len(),
{
    let init = pnls.drop_last();
    assert(pnls[pnls.len() - 1] == pnls.last());
    if init.len() > 0 {
        statistics_are_consistent(init);
        assert forall|i: int| 0 <= i < pnls.len() implies worst(pnls)@ <= (#[trigger] pnls[i])@
            <= best(pnls)@ by {
            if i < init.len() {
                assert(init[i] == pnls[i]);
            }
        }
    }
    lemma_wins_bounded(pnls);
}

proof fn lemma_wins_bounded(pnls: Seq<Money>)
    ensures
        profits(pnls) <= pnls.len(),
    decreases pnls.len(),
{
    if pnls.len() > 0 {
        lemma_wins_bounded(pnls.drop_last());
    }
}

proof fn lemma_sum_fits_prefix(pnls: Seq<Money>, n: int)
    requires
        0 <= n <= pnls.len(),
        pnl_sum_fits(pnls),
    ensures
        pnl_sum_fits(pnls.take(n)),
    decreases pnls.len(),
{
    if n < pnls.len() {
        lemma_sum_fits_prefix(pnls.drop_last(), n);
        assert(pnls.drop_last().take(n) =~= pnls.take(n));
    } else {
        assert(pnls.take(n) =~= pnls);
    }
}

} // verus!
