use hft_bot::domain::state::RobotState;

#[test]
fn state_default_is_building() {
    assert_eq!(RobotState::default(), RobotState::Building);
}

#[test]
fn double_negative_count_extracted_from_dynamic_hedge() {
    assert_eq!(
        RobotState::DynamicHedge {
            double_negative_count: 1
        }
        .double_negative_count(),
        1
    );
    assert_eq!(RobotState::Building.double_negative_count(), 0);
    assert_eq!(RobotState::EvHedge.double_negative_count(), 0);
}

#[test]
fn only_settlement_wait_is_terminal() {
    assert!(RobotState::SettlementWait.is_terminal());
    assert!(!RobotState::Building.is_terminal());
    assert!(!RobotState::EvHedge.is_terminal());
    assert!(!RobotState::CircuitBreaker.is_terminal());
}
