use hft_bot::domain::state::RobotState;
use hft_bot::fsm::{is_legal_transition, StateMachine};

fn dynamic(n: u8) -> RobotState {
    RobotState::DynamicHedge {
        double_negative_count: n,
    }
}

#[test]
fn lib_starts_in_building() {
    assert_eq!(StateMachine::new().state(), RobotState::Building);
}

#[test]
fn same_state_is_always_legal() {
    assert!(is_legal_transition(RobotState::Building, RobotState::Building));
    assert!(is_legal_transition(RobotState::EvHedge, RobotState::EvHedge));
    assert!(is_legal_transition(RobotState::SettlementWait, RobotState::SettlementWait));
}

#[test]
fn settlement_wait_is_terminal_no_exit() {
    assert!(!is_legal_transition(RobotState::SettlementWait, RobotState::Building));
    assert!(!is_legal_transition(RobotState::SettlementWait, RobotState::EvHedge));
    assert!(!is_legal_transition(RobotState::SettlementWait, RobotState::CircuitBreaker));
}

#[test]
fn time_red_line_reaches_settlement_from_any_phase() {
    for from in [RobotState::Building, RobotState::Pairing, dynamic(0), RobotState::EvHedge, RobotState::CircuitBreaker] {
        assert!(
            is_legal_transition(from, RobotState::SettlementWait)
        );
    }
}

#[test]
fn circuit_breaker_reachable_from_any_phase_except_itself() {
    for from in [RobotState::Building, RobotState::Pairing, dynamic(0), RobotState::EvHedge] {
        assert!(
            is_legal_transition(from, RobotState::CircuitBreaker)
        );
    }
}

#[test]
fn normal_phase_progression_is_legal() {
    assert!(is_legal_transition(RobotState::Building, RobotState::Pairing));
    assert!(is_legal_transition(RobotState::Pairing, dynamic(0)));
    assert!(is_legal_transition(dynamic(1), RobotState::EvHedge));
    assert!(is_legal_transition(RobotState::Pairing, RobotState::EvHedge));
}

#[test]
fn circuit_breaker_recovery_reaches_any_phase() {
    for to in [RobotState::Building, RobotState::Pairing, dynamic(0), RobotState::EvHedge] {
        assert!(
            is_legal_transition(RobotState::CircuitBreaker, to)
        );
    }
}

#[test]
fn illegal_skips_are_rejected() {
    assert!(!is_legal_transition(RobotState::Building, dynamic(0)));
    assert!(!is_legal_transition(RobotState::Building, RobotState::EvHedge));
    assert!(!is_legal_transition(RobotState::EvHedge, dynamic(0)));
    assert!(!is_legal_transition(RobotState::Pairing, RobotState::Building));
}

#[test]
fn transition_to_applies_only_legal_moves() {
    let mut machine = StateMachine::new();
    assert!(machine.transition_to(RobotState::Pairing));
    assert_eq!(machine.state(), RobotState::Pairing);
    assert!(!machine.transition_to(RobotState::Building));
    assert_eq!(machine.state(), RobotState::Pairing);
    assert!(machine.transition_to(dynamic(0)));
    assert_eq!(machine.state(), dynamic(0));
}
