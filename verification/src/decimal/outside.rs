//! The calls into `rust_decimal`, on mantissa and scale.

use crate::decimal::model::{
    cut_parts, fits, in_format, is_unsettled, next_parts, parsed_value, raised_parts, scaled,
    signed_parts,
};
use vstd::prelude::*;

verus! {

/// The two directions in which digits are given up.
#[derive(Debug, Clone, Copy, PartialEq, Eq, Hash, Structural)]
pub enum Rounding {
    ToZero,
    AwayFromZero,
}

/// `rust_decimal::Decimal`'s `+`: the exact sum rounded to the format. It panics
/// where the sum rounds past the largest number.
#[verifier::external_body]
pub(crate) fn sum_parts(m: i128, s: u32, n: i128, t: u32) -> (r: (i128, u32))
    requires
        in_format(m as int, s as nat),
        in_format(n as int, t as nat),
        fits(scaled(m as int, s as nat) + scaled(n as int, t as nat)),
    ensures
        in_format(r.0 as int, r.1 as nat),
        ({
            let (k, d) = signed_parts(scaled(m as int, s as nat) + scaled(n as int, t as nat));
            scaled(r.0 as int, r.1 as nat) == scaled(k, d)
        }),
{
    let r = rust_decimal::Decimal::from_i128_with_scale(m, s)
        + rust_decimal::Decimal::from_i128_with_scale(n, t);
    (r.mantissa(), r.scale())
}

/// `rust_decimal::Decimal`'s `-`: the exact difference rounded to the format. It
/// panics where the difference rounds past the largest number.
#[verifier::external_body]
pub(crate) fn difference_parts(m: i128, s: u32, n: i128, t: u32) -> (r: (i128, u32))
    requires
        in_format(m as int, s as nat),
        in_format(n as int, t as nat),
        fits(scaled(m as int, s as nat) - scaled(n as int, t as nat)),
    ensures
        in_format(r.0 as int, r.1 as nat),
        ({
            let (k, d) = signed_parts(scaled(m as int, s as nat) - scaled(n as int, t as nat));
            scaled(r.0 as int, r.1 as nat) == scaled(k, d)
        }),
{
    let r = rust_decimal::Decimal::from_i128_with_scale(m, s)
        - rust_decimal::Decimal::from_i128_with_scale(n, t);
    (r.mantissa(), r.scale())
}

/// `rust_decimal::Decimal`'s `*`: the exact product rounded to the format. It
/// panics where the product rounds past the largest number.
#[verifier::external_body]
pub(crate) fn product_parts(m: i128, s: u32, n: i128, t: u32) -> (r: (i128, u32))
    requires
        in_format(m as int, s as nat),
        in_format(n as int, t as nat),
        fits(scaled(m as int, s as nat) * scaled(n as int, t as nat)),
    ensures
        in_format(r.0 as int, r.1 as nat),
        ({
            let (k, d) = signed_parts(scaled(m as int, s as nat) * scaled(n as int, t as nat));
            scaled(r.0 as int, r.1 as nat) == scaled(k, d)
        }),
{
    let r = rust_decimal::Decimal::from_i128_with_scale(m, s)
        * rust_decimal::Decimal::from_i128_with_scale(n, t);
    (r.mantissa(), r.scale())
}

/// `rust_decimal::Decimal`'s `/`: the exact quotient rounded to the format. It
/// panics on a zero divisor and where the quotient rounds past the largest number.
///
/// Where the divisor takes more than 64 bits and the quotient is a tie just past the
/// largest mantissa, the call may take a part of an earlier remainder for a rest and go to
/// the number after the even one. Which of the two it returns there is left unsaid.
#[verifier::external_body]
pub(crate) fn quotient_parts(m: i128, s: u32, n: i128, t: u32) -> (r: (i128, u32))
    requires
        in_format(m as int, s as nat),
        in_format(n as int, t as nat),
        n != 0,
        fits(scaled(m as int, s as nat) / scaled(n as int, t as nat)),
    ensures
        in_format(r.0 as int, r.1 as nat),
        ({
            let v = scaled(m as int, s as nat) / scaled(n as int, t as nat);
            let (k, d) = signed_parts(v);
            let (j, e) = next_parts(v);
            ||| scaled(r.0 as int, r.1 as nat) == scaled(k, d)
            ||| is_unsettled(v, n as int) && scaled(r.0 as int, r.1 as nat) == scaled(j, e)
        }),
{
    let r = rust_decimal::Decimal::from_i128_with_scale(m, s)
        / rust_decimal::Decimal::from_i128_with_scale(n, t);
    (r.mantissa(), r.scale())
}

/// `rust_decimal::Decimal`'s `<`: the order of the numbers, whatever their scales.
#[verifier::external_body]
pub(crate) fn less_parts(m: i128, s: u32, n: i128, t: u32) -> (r: bool)
    requires
        in_format(m as int, s as nat),
        in_format(n as int, t as nat),
    ensures
        r == (scaled(m as int, s as nat) < scaled(n as int, t as nat)),
{
    rust_decimal::Decimal::from_i128_with_scale(m, s)
        < rust_decimal::Decimal::from_i128_with_scale(n, t)
}

/// `rust_decimal::Decimal::round_dp_with_strategy`: the number with at most
/// `digits` fractional digits, the rest cut off or counted as one more unit of the
/// last digit kept, as `rounding` says.
#[verifier::external_body]
pub(crate) fn round_parts(m: i128, s: u32, digits: u32, rounding: Rounding) -> (r: (i128, u32))
    requires
        in_format(m as int, s as nat),
    ensures
        in_format(r.0 as int, r.1 as nat),
        ({
            let v = scaled(m as int, s as nat);
            let (k, d) = match rounding {
                Rounding::ToZero => cut_parts(v, digits as nat),
                Rounding::AwayFromZero => raised_parts(v, digits as nat),
            };
            scaled(r.0 as int, r.1 as nat) == scaled(k, d)
        }),
{
    let strategy = match rounding {
        Rounding::ToZero => rust_decimal::RoundingStrategy::ToZero,
        Rounding::AwayFromZero => rust_decimal::RoundingStrategy::AwayFromZero,
    };
    let r = rust_decimal::Decimal::from_i128_with_scale(m, s)
        .round_dp_with_strategy(digits, strategy);
    (r.mantissa(), r.scale())
}

/// `rust_decimal::Decimal`'s `FromStr`: which texts it reads, and as which number,
/// is left to `parsed_value`.
#[verifier::external_body]
pub(crate) fn parse_parts(text: &str) -> (r: Option<(i128, u32)>)
    ensures
        match r {
            Some(p) => in_format(p.0 as int, p.1 as nat) && parsed_value(text@) == Some(
                scaled(p.0 as int, p.1 as nat),
            ),
            None => parsed_value(text@) is None,
        },
{
    match <rust_decimal::Decimal as std::str::FromStr>::from_str(text) {
        Ok(r) => Some((r.mantissa(), r.scale())),
        Err(_) => None,
    }
}

} // verus!
