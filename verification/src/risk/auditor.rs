//! The cash guard: below the red line nothing new is opened.

use crate::decimal::Decimal;
use crate::domain::order::Order;
use crate::domain::types::Money;
use crate::risk::pool::CapitalPools;
use vstd::prelude::*;

verus! {

/// Why an order is refused.
#[derive(Debug, Clone, Copy, PartialEq, Eq, Structural)]
pub enum RejectReason {
    /// The cash is below the red line.
    CashGuardBlocked,
    /// One side would be exposed too much.
    MaxExposureExceeded,
}

/// The outcome of an audit.
#[derive(Debug, Clone, Copy, PartialEq, Eq, Structural)]
pub enum Approval {
    Approved,
    Rejected(RejectReason),
}

impl Approval {
    /// Tells whether the order may be sent.
    pub fn is_approved(self) -> (r: bool)
        ensures
            r == (self == Approval::Approved),
    {
        matches!(self, Approval::Approved)
    }
}

/// Audits orders before they are sent.
#[derive(Debug, Clone, Copy)]
pub struct RiskAuditor {
    pools: CapitalPools,
    cash_guard_ratio: Decimal,
}

impl RiskAuditor {
    /// The auditor that guards these pools with this red line.
    pub closed spec fn guarding(pools: CapitalPools, ratio: Decimal) -> RiskAuditor {
        RiskAuditor { pools, cash_guard_ratio: ratio }
    }

    /// The pools that are guarded.
    pub closed spec fn guarded(self) -> CapitalPools {
        self.pools
    }

    /// The red line as a share of the capital.
    pub closed spec fn ratio(self) -> Decimal {
        self.cash_guard_ratio
    }

    /// The red line in money.
    pub open spec fn red_line(self) -> Money {
        self.guarded().capital() * self.ratio()
    }

    /// The outcome of the audit of an order while `free_cash` is at hand.
    pub open spec fn verdict(self, free_cash: Money) -> Approval {
        if free_cash@ < self.red_line()@ {
            Approval::Rejected(RejectReason::CashGuardBlocked)
        } else {
            Approval::Approved
        }
    }

    /// The outcome of the audit of an exposure of one side.
    pub open spec fn exposure_verdict(self, exposure: Money) -> Approval {
        if exposure@ > self.guarded().exposure_limit()@ {
            Approval::Rejected(RejectReason::MaxExposureExceeded)
        } else {
            Approval::Approved
        }
    }

    /// Guards pools with a red line that is no lower than their reserve.
    pub fn new(pools: CapitalPools, cash_guard_ratio: Decimal) -> (r: Self)
        requires
            cash_guard_ratio@ >= pools.shares().reserve@,
        ensures
            r == RiskAuditor::guarding(pools, cash_guard_ratio),
    {
        Self { pools, cash_guard_ratio }
    }

    /// Guards pools with their reserve as the red line.
    pub fn with_default_guard(pools: CapitalPools) -> (r: Self)
        ensures
            r == RiskAuditor::guarding(pools, pools.shares().reserve),
    {
        let reserve = pools.ratios().reserve;
        Self::new(pools, reserve)
    }

    /// The red line in money.
    pub fn cash_guard(&self) -> (r: Money)
        requires
            self.guarded().capital().mul_fits(self.ratio()),
        ensures
            r == self.red_line(),
    {
        self.pools.total_capital().times(self.cash_guard_ratio)
    }

    /// Audits an order: it is refused while the cash is below the red line.
    pub fn approve(&self, _order: &Order, free_cash: Money) -> (r: Approval)
        requires
            self.guarded().capital().mul_fits(self.ratio()),
        ensures
            r == self.verdict(free_cash),
    {
        if free_cash.lt(self.cash_guard()) {
            Approval::Rejected(RejectReason::CashGuardBlocked)
        } else {
            Approval::Approved
        }
    }

    /// The most that one side may be exposed.
    pub fn max_exposure(&self) -> (r: Money)
        requires
            self.guarded().exposure_limit_fits(),
        ensures
            r == self.guarded().exposure_limit(),
    {
        self.pools.max_exposure()
    }

    /// Audits an exposure: it is refused above the limit.
    pub fn check_exposure(&self, projected_exposure: Money) -> (r: Approval)
        requires
            self.guarded().exposure_limit_fits(),
        ensures
            r == (if projected_exposure@ > self.guarded().exposure_limit()@ {
                Approval::Rejected(RejectReason::MaxExposureExceeded)
            } else {
                Approval::Approved
            }),
            r == self.exposure_verdict(projected_exposure),
    {
        if projected_exposure.gt(self.max_exposure()) {
            Approval::Rejected(RejectReason::MaxExposureExceeded)
        } else {
            Approval::Approved
        }
    }
}

/// An auditor guards what it was made for.
pub proof fn auditor_guards_its_pools(pools: CapitalPools, ratio: Decimal)
    ensures
        RiskAuditor::guarding(pools, ratio).guarded() == pools,
        RiskAuditor::guarding(pools, ratio).ratio() == ratio,
{
}

/// More cash never turns an approval into a refusal.
pub proof fn approval_is_monotone(auditor: RiskAuditor, less: Money, more: Money)
    requires
        less@ <= more@,
        auditor.verdict(less) == Approval::Approved,
    ensures
        auditor.verdict(more) == Approval::Approved,
{
}

/// An order is approved if and only if the free cash is no less than the auditor's share of
/// the capital; the reason of a refusal is the cash guard.
pub proof fn cash_is_guarded(pools: CapitalPools, ratio: Decimal, free_cash: Money)
    ensures
        ({
            let verdict = RiskAuditor::guarding(pools, ratio).verdict(free_cash);
            &&& free_cash@ >= (pools.capital() * ratio)@ ==> verdict == Approval::Approved
            &&& free_cash@ < (pools.capital() * ratio)@ ==> verdict == Approval::Rejected(
                RejectReason::CashGuardBlocked,
            )
        }),
{
}

/// An exposure is approved if and only if it is no more than half of the dynamic pool; the
/// reason of a refusal is the exposure.
pub proof fn exposure_is_guarded(pools: CapitalPools, ratio: Decimal, exposure: Money)
    ensures
        ({
            let verdict = RiskAuditor::guarding(pools, ratio).exposure_verdict(exposure);
            let limit = pools.capital() * pools.shares().dynamic * crate::decimal::dec(5, 1);
            &&& exposure@ <= limit@ ==> verdict == Approval::Approved
            &&& exposure@ > limit@ ==> verdict == Approval::Rejected(
                RejectReason::MaxExposureExceeded,
            )
        }),
{
}

} // verus!
