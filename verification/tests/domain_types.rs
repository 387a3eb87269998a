use hft_bot::domain::types::Side;

#[test]
fn opposite_side_is_symmetric() {
    assert_eq!(Side::Up.opposite(), Side::Down);
    assert_eq!(Side::Down.opposite(), Side::Up);
    assert_eq!(Side::Up.opposite().opposite(), Side::Up);
}
