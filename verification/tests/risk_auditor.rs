use hft_bot::decimal::Decimal;
use hft_bot::domain::order::{Generation, Order, OrderDirection, OrderId, TimeInForce};
use hft_bot::domain::types::{OrderRole, Side};
use hft_bot::risk::auditor::{Approval, RejectReason, RiskAuditor};
use hft_bot::risk::pool::CapitalPools;

fn sample_order() -> Order {
    Order {
        order_id: OrderId(1),
        side: Side::Up,
        direction: OrderDirection::Buy,
        price: Decimal::new(4, 1),
        qty: Decimal::new(100, 0),
        role: OrderRole::Maker,
        time_in_force: TimeInForce::Gtc,
        generation: Generation::new(),
    }
}

fn auditor() -> RiskAuditor {
    RiskAuditor::with_default_guard(CapitalPools::with_default_ratios(Decimal::new(1000, 0)))
}

#[test]
fn cash_guard_is_ratio_times_capital() {
    assert_eq!(auditor().cash_guard(), Decimal::new(250, 0));
}

#[test]
fn approves_when_cash_above_floor() {
    let approval = auditor().approve(&sample_order(), Decimal::new(300, 0));
    assert_eq!(approval, Approval::Approved);
    assert!(approval.is_approved());
}

#[test]
fn rejects_when_cash_below_floor() {
    let approval = auditor().approve(&sample_order(), Decimal::new(200, 0));
    assert_eq!(approval, Approval::Rejected(RejectReason::CashGuardBlocked));
    assert!(!approval.is_approved());
}

#[test]
fn approves_when_cash_exactly_at_floor() {
    let approval = auditor().approve(&sample_order(), Decimal::new(250, 0));
    assert_eq!(approval, Approval::Approved);
}


#[test]
fn max_exposure_is_eleven_point_two_five_percent() {
    assert_eq!(auditor().max_exposure(), Decimal::new(1125, 1));
}

#[test]
fn exposure_approved_below_limit() {
    assert_eq!(auditor().check_exposure(Decimal::new(100, 0)), Approval::Approved);
}

#[test]
fn exposure_approved_at_limit() {
    assert_eq!(auditor().check_exposure(Decimal::new(1125, 1)), Approval::Approved);
}

#[test]
fn exposure_rejected_above_limit() {
    assert_eq!(
        auditor().check_exposure(Decimal::new(120, 0)),
        Approval::Rejected(RejectReason::MaxExposureExceeded)
    );
}
