use hft_bot::domain::phase::Phase;

#[test]
fn phase_default_is_building() {
    assert_eq!(Phase::default(), Phase::Building);
}

#[test]
fn only_settled_is_terminal() {
    assert!(Phase::Settled.is_terminal());
    assert!(!Phase::Building.is_terminal());
    assert!(!Phase::Cycling.is_terminal());
    assert!(!Phase::Harvesting.is_terminal());
}

#[test]
fn forward_transitions_are_legal() {
    assert!(Phase::Building.can_transition_to(Phase::Cycling));
    assert!(Phase::Cycling.can_transition_to(Phase::Harvesting));
    assert!(Phase::Harvesting.can_transition_to(Phase::Settled));
}

#[test]
fn skipping_forward_is_legal() {
    assert!(Phase::Building.can_transition_to(Phase::Harvesting));
    assert!(Phase::Building.can_transition_to(Phase::Settled));
    assert!(Phase::Cycling.can_transition_to(Phase::Settled));
}

#[test]
fn staying_in_place_is_legal() {
    assert!(Phase::Cycling.can_transition_to(Phase::Cycling));
}

#[test]
fn backward_transitions_are_illegal() {
    assert!(!Phase::Cycling.can_transition_to(Phase::Building));
    assert!(!Phase::Harvesting.can_transition_to(Phase::Cycling));
    assert!(!Phase::Settled.can_transition_to(Phase::Harvesting));
}
