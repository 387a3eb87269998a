use hft_bot::domain::round_state::RoundState;
use hft_bot::domain::state::RobotState;
use hft_bot::domain::types::Side;

#[test]
fn new_starts_in_building_with_empty_state() {
    let s = RoundState::new();
    assert_eq!(s.state, RobotState::Building);
    assert_eq!(s.main_field, None);
    assert!(!s.main_field_frozen);
    assert_eq!(s.last_hedge_at, None);
    assert!(!s.funds_exhausted);
    assert_eq!(s.double_negative_count, 0);
    assert!(!s.was_double_negative);
    assert_eq!(s.calm_since, None);
}

#[test]
fn lock_main_field_only_once() {
    let mut s = RoundState::new();
    s.lock_main_field(Side::Up);
    assert_eq!(s.main_field, Some(Side::Up));
    s.lock_main_field(Side::Down);
    assert_eq!(s.main_field, Some(Side::Up));
}

#[test]
fn update_double_negative_writes_both() {
    let mut s = RoundState::new();
    s.update_double_negative(2, true);
    assert_eq!(s.double_negative_count, 2);
    assert!(s.was_double_negative);
}

#[test]
fn update_calm_records_start_then_holds() {
    let mut s = RoundState::new();
    s.update_calm(true, 1000);
    assert_eq!(s.calm_since, Some(1000));
    s.update_calm(true, 2000);
    assert_eq!(s.calm_since, Some(1000));
    s.update_calm(false, 3000);
    assert_eq!(s.calm_since, None);
}
