use hft_bot::exchange::clock::{Clock, VirtualClock};

#[test]
fn virtual_clock_starts_at_zero() {
    assert_eq!(VirtualClock::new().now(), 0);
}

#[test]
fn set_jumps_to_timestamp() {
    let mut clock = VirtualClock::new();
    clock.set(5000);
    assert_eq!(clock.now(), 5000);
}

#[test]
fn advance_adds_delta() {
    let mut clock = VirtualClock::new();
    clock.advance(1000);
    clock.advance(500);
    assert_eq!(clock.now(), 1500);
}

