use hft_bot::decimal::Decimal;

fn d(mantissa: i64, scale: u32) -> Decimal {
    Decimal::new(mantissa, scale)
}

#[test]
fn trailing_zeros_do_not_count() {
    assert_eq!(d(4500, 4), d(45, 2));
    assert_eq!(d(0, 5), Decimal::zero());
    assert_eq!(d(4500, 4).parts(), (45, 2));
    assert_eq!(d(-120, 1).parts(), (-12, 0));
}

#[test]
fn arithmetic_is_exact_where_it_can_be() {
    assert_eq!(d(1, 1).plus(d(2, 1)), d(3, 1));
    assert_eq!(d(1, 0).minus(d(1, 28)).plus(d(1, 28)), d(1, 0));
    assert_eq!(d(15, 1).times(d(-4, 1)), d(-6, 1));
    assert_eq!(d(1, 0).over(d(8, 0)), d(125, 3));
}

#[test]
fn quotients_keep_twenty_eight_digits_and_round_to_even() {
    let third = d(1, 0).over(d(3, 0));
    assert_eq!(third.parts(), (3333333333333333333333333333, 28));
    let two_thirds = d(2, 0).over(d(3, 0));
    assert_eq!(two_thirds.parts(), (6666666666666666666666666667, 28));
    assert_eq!(third.plus(two_thirds), Decimal::one());
    let tie = Decimal::from_parts(25, 28).unwrap().times(d(1, 1));
    assert_eq!(tie.parts(), (2, 28));
    let other_tie = Decimal::from_parts(35, 28).unwrap().times(d(1, 1));
    assert_eq!(other_tie.parts(), (4, 28));
}

#[test]
fn large_numbers_give_up_digits() {
    let large = Decimal::largest();
    assert_eq!(large.minus(d(5, 1)).parts().0, large.parts().0 - 1);
    assert_eq!(large.over(d(10, 0)).parts(), (79228162514264337593543950335, 1));
    let carried = Decimal::from_parts(79228162514264337593543950335, 1).unwrap().plus(d(9, 2));
    assert_eq!(carried.parts(), (7922816251426433759354395034, 0));
}

#[test]
fn parts_outside_the_format_are_refused() {
    assert!(Decimal::from_parts(79228162514264337593543950335, 28).is_some());
    assert!(Decimal::from_parts(79228162514264337593543950336, 0).is_none());
    assert!(Decimal::from_parts(1, 29).is_none());
    assert_eq!(Decimal::from_parts(-500, 2), Some(d(-5, 0)));
}

#[test]
fn order_goes_by_value() {
    assert!(d(5, 1).lt(d(51, 2)));
    assert!(!d(50, 2).lt(d(5, 1)));
    assert!(d(50, 2).le(d(5, 1)) && d(50, 2).ge(d(5, 1)));
    assert!(d(-1, 0).lt(Decimal::zero()) && Decimal::one().gt(d(-1, 0)));
    assert_eq!(d(3, 0).min(d(2, 0)), d(2, 0));
    assert_eq!(d(3, 0).max(d(2, 0)), d(3, 0));
    assert_eq!(d(-3, 1).abs(), d(3, 1));
    assert!(Decimal::smallest().lt(Decimal::largest()));
}

#[test]
fn rounding_goes_toward_or_away_from_zero() {
    assert_eq!(d(4567, 4).round_to_zero(2), d(45, 2));
    assert_eq!(d(-4567, 4).round_to_zero(2), d(-45, 2));
    assert_eq!(d(4501, 4).round_away_from_zero(2), d(46, 2));
    assert_eq!(d(-4501, 4).round_away_from_zero(2), d(-46, 2));
    assert_eq!(d(45, 2).round_to_zero(4), d(45, 2));
    assert_eq!(d(45, 2).round_away_from_zero(2), d(45, 2));
    assert_eq!(d(45, 2).round_to_zero(100), d(45, 2));
}

#[test]
fn texts_are_read_as_numbers() {
    assert_eq!(Decimal::parse("0.4500"), Some(d(45, 2)));
    assert_eq!(Decimal::parse("-12"), Some(d(-12, 0)));
    assert_eq!(Decimal::parse(""), None);
    assert_eq!(Decimal::parse("1,5"), None);
}

#[test]
fn whole_numbers_and_defaults() {
    assert_eq!(Decimal::whole(900_000), d(900_000, 0));
    assert_eq!(Decimal::whole(u64::MAX).parts(), (18446744073709551615, 0));
    assert_eq!(Decimal::default(), Decimal::zero());
    assert!(Decimal::zero().is_zero() && !Decimal::one().is_zero());
}
