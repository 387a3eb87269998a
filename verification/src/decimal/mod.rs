//! Exact decimal numbers for money, prices and share counts.
//!
//! A [`Decimal`] is an integer mantissa over a power of ten, always kept without
//! trailing zeros, so that two numbers are equal exactly when their fields are.
//! Its mathematical model is a real number. Every operation returns the exact
//! result rounded to the format: at most 28 fractional digits and a mantissa
//! below two to the 96th, ties going to the even digit. A quotient is sure of that but for
//! a few ties of wide divisors, which `div_fits` leaves out.

use crate::decimal::model::{
    canonical_parts, cut_parts, fits, in_format, is_canonical, is_tie_past_limit,
    lemma_canonical_fixed, lemma_canonical_parts, lemma_canonical_unique, lemma_scaled_sign,
    magnitude, next_parts, parsed_value, raised_parts, scaled, signed_parts, MANTISSA_LIMIT,
    MAX_SCALE, WIDE,
};
use crate::decimal::outside::{parse_parts, round_parts, Rounding};
use vstd::prelude::*;

pub mod laws;
pub mod model;
pub mod ops;
pub mod order;
pub mod outside;

verus! {

/// An exact decimal number.
#[derive(Debug, Clone, Copy, PartialEq, Eq, Hash, Structural)]
pub struct Decimal {
    mantissa: i128,
    scale: u32,
}

impl View for Decimal {
    type V = real;

    closed spec fn view(&self) -> real {
        scaled(self.mantissa as int, self.scale as nat)
    }
}

/// The number `m` over ten to the `s`.
pub closed spec fn dec(m: int, s: nat) -> Decimal {
    let (k, d) = canonical_parts(m, s);
    Decimal { mantissa: k as i128, scale: d as u32 }
}

/// The real number `v` rounded to the format.
#[verifier::opaque]
pub open spec fn rounded(v: real) -> Decimal {
    let (m, s) = signed_parts(v);
    dec(m, s)
}

/// The number that a text spells, if it spells one.
pub open spec fn parsed(text: Seq<char>) -> Option<Decimal> {
    match parsed_value(text) {
        Some(v) => Some(rounded(v)),
        None => None,
    }
}

impl Decimal {
    /// Whether the fields are within the format and without trailing zeros.
    #[verifier::type_invariant]
    pub closed spec fn wf(self) -> bool {
        &&& in_format(self.mantissa as int, self.scale as nat)
        &&& is_canonical(self.mantissa as int, self.scale as nat)
        &&& self.mantissa == 0 ==> self.scale == 0
    }

    /// Whether the sum with `rhs` fits the format.
    pub open spec fn add_fits(self, rhs: Decimal) -> bool {
        fits(self@ + rhs@)
    }

    /// Whether the difference from `rhs` fits the format.
    pub open spec fn sub_fits(self, rhs: Decimal) -> bool {
        fits(self@ - rhs@)
    }

    /// Whether the product with `rhs` fits the format.
    pub open spec fn mul_fits(self, rhs: Decimal) -> bool {
        fits(self@ * rhs@)
    }

    /// Whether the quotient by `rhs` exists and fits the format.
    pub open spec fn div_exists(self, rhs: Decimal) -> bool {
        rhs@ != 0real && fits(self@ / rhs@)
    }

    /// Whether the quotient by `rhs` exists, fits the format, and is sure to be rounded to
    /// the even digit in a tie.
    pub open spec fn div_fits(self, rhs: Decimal) -> bool {
        self.div_exists(rhs) && !(rhs.is_wide() && is_tie_past_limit(magnitude(self@ / rhs@)))
    }

    /// Whether the mantissa takes more than 64 bits.
    pub closed spec fn is_wide(self) -> bool {
        self.mantissa <= -WIDE || self.mantissa >= WIDE
    }

    /// The number after the rounded quotient by `rhs`, away from zero.
    pub open spec fn quotient_next(self, rhs: Decimal) -> Decimal {
        let (m, s) = next_parts(self@ / rhs@);
        dec(m, s)
    }

    /// The smaller of two numbers.
    pub open spec fn smaller(self, other: Decimal) -> Decimal {
        if other@ < self@ {
            other
        } else {
            self
        }
    }

    /// The larger of two numbers.
    pub open spec fn larger(self, other: Decimal) -> Decimal {
        if self@ < other@ {
            other
        } else {
            self
        }
    }

    /// The magnitude of the number.
    pub open spec fn absolute(self) -> Decimal {
        if self@ < 0real {
            rounded(-self@)
        } else {
            self
        }
    }

    /// The number with at most `digits` fractional digits, the rest cut off.
    pub open spec fn cut(self, digits: nat) -> Decimal {
        let (m, s) = cut_parts(self@, digits);
        dec(m, s)
    }

    /// The number with at most `digits` fractional digits, rounded away from zero.
    pub open spec fn raised(self, digits: nat) -> Decimal {
        let (m, s) = raised_parts(self@, digits);
        dec(m, s)
    }

    pub open spec fn spec_add(self, rhs: Decimal) -> Decimal {
        rounded(self@ + rhs@)
    }

    pub open spec fn spec_sub(self, rhs: Decimal) -> Decimal {
        rounded(self@ - rhs@)
    }

    pub open spec fn spec_mul(self, rhs: Decimal) -> Decimal {
        rounded(self@ * rhs@)
    }

    pub open spec fn spec_euclidean_or_real_div(self, rhs: Decimal) -> Decimal {
        rounded(self@ / rhs@)
    }

    /// Brings a mantissa and a scale into canonical form.
    fn canonical(m: i128, s: u32) -> (r: Decimal)
        requires
            in_format(m as int, s as nat),
        ensures
            r == dec(m as int, s as nat),
            r@ == scaled(m as int, s as nat),
    {
        proof {
            lemma_canonical_parts(m as int, s as nat);
        }
        if m == 0 {
            return Decimal { mantissa: 0, scale: 0 };
        }
        let mut k: i128 = m;
        let mut d: u32 = s;
        while d > 0 && k % 10 == 0
            invariant
                in_format(k as int, d as nat),
                k != 0,
                canonical_parts(k as int, d as nat) == canonical_parts(m as int, s as nat),
            ensures
                in_format(k as int, d as nat),
                k != 0,
                canonical_parts(k as int, d as nat) == canonical_parts(m as int, s as nat),
                d == 0 || k % 10 != 0,
            decreases d,
        {
            k = k / 10;
            d = d - 1;
        }
        Decimal { mantissa: k, scale: d }
    }

    /// The number `num` over ten to the `scale`.
    pub fn new(num: i64, scale: u32) -> (r: Decimal)
        requires
            scale <= MAX_SCALE,
        ensures
            r == dec(num as int, scale as nat),
    {
        Decimal::canonical(num as i128, scale)
    }

    /// The number `num` over ten to the `scale`, or `None` outside the format.
    pub fn from_parts(num: i128, scale: u32) -> (r: Option<Decimal>)
        ensures
            r == (if in_format(num as int, scale as nat) {
                Some(dec(num as int, scale as nat))
            } else {
                None
            }),
    {
        if -MANTISSA_LIMIT < num && num < MANTISSA_LIMIT && scale <= MAX_SCALE {
            Some(Decimal::canonical(num, scale))
        } else {
            None
        }
    }

    pub fn zero() -> (r: Decimal)
        ensures
            r == dec(0, 0),
    {
        Decimal::new(0, 0)
    }

    pub fn one() -> (r: Decimal)
        ensures
            r == dec(1, 0),
    {
        Decimal::new(1, 0)
    }

    /// The whole number `n`.
    pub fn whole(n: u64) -> (r: Decimal)
        ensures
            r == dec(n as int, 0),
    {
        Decimal::canonical(n as i128, 0)
    }

    /// The largest number of the format.
    pub fn largest() -> (r: Decimal)
        ensures
            r == dec(MANTISSA_LIMIT - 1, 0),
    {
        Decimal::canonical(MANTISSA_LIMIT - 1, 0)
    }

    /// The smallest number of the format.
    pub fn smallest() -> (r: Decimal)
        ensures
            r == dec(1 - MANTISSA_LIMIT, 0),
    {
        Decimal::canonical(1 - MANTISSA_LIMIT, 0)
    }

    /// Mantissa and scale, without trailing zeros.
    pub fn parts(self) -> (r: (i128, u32))
        ensures
            in_format(r.0 as int, r.1 as nat),
            is_canonical(r.0 as int, r.1 as nat),
            self == dec(r.0 as int, r.1 as nat),
            self@ == scaled(r.0 as int, r.1 as nat),
    {
        proof {
            use_type_invariant(&self);
            lemma_canonical_fixed(self.mantissa as int, self.scale as nat);
        }
        (self.mantissa, self.scale)
    }

    pub fn is_zero(self) -> (r: bool)
        ensures
            r == (self@ == 0real),
    {
        proof {
            lemma_scaled_sign(self.mantissa as int, self.scale as nat);
        }
        self.mantissa == 0
    }

    /// The magnitude.
    pub fn abs(self) -> (r: Decimal)
        ensures
            r == self.absolute(),
    {
        proof {
            use_type_invariant(&self);
            lemma_scaled_sign(self.mantissa as int, self.scale as nat);
        }
        if self.mantissa < 0 {
            let r = Decimal { mantissa: -self.mantissa, scale: self.scale };
            proof {
                use_type_invariant(&r);
                crate::decimal::laws::rounding_is_exact(r);
            }
            r
        } else {
            self
        }
    }

    pub fn min(self, other: Decimal) -> (r: Decimal)
        ensures
            r == self.smaller(other),
    {
        if other.lt(self) {
            other
        } else {
            self
        }
    }

    pub fn max(self, other: Decimal) -> (r: Decimal)
        ensures
            r == self.larger(other),
    {
        if self.lt(other) {
            other
        } else {
            self
        }
    }

    /// Keeps at most `digits` fractional digits and cuts off the rest.
    pub fn round_to_zero(self, digits: u32) -> (r: Decimal)
        ensures
            r == self.cut(digits as nat),
    {
        proof {
            use_type_invariant(&self);
        }
        let (m, s) = round_parts(self.mantissa, self.scale, digits, Rounding::ToZero);
        proof {
            let (k, d) = cut_parts(self@, digits as nat);
            lemma_canonical_unique(m as int, s as nat, k, d);
        }
        Decimal::canonical(m, s)
    }

    /// Keeps at most `digits` fractional digits and rounds away from zero.
    pub fn round_away_from_zero(self, digits: u32) -> (r: Decimal)
        ensures
            r == self.raised(digits as nat),
    {
        proof {
            use_type_invariant(&self);
        }
        let (m, s) = round_parts(self.mantissa, self.scale, digits, Rounding::AwayFromZero);
        proof {
            let (k, d) = raised_parts(self@, digits as nat);
            lemma_canonical_unique(m as int, s as nat, k, d);
        }
        Decimal::canonical(m, s)
    }

    /// The number that `text` spells, or `None` where it spells none.
    pub fn parse(text: &str) -> (r: Option<Decimal>)
        ensures
            r == parsed(text@),
    {
        match parse_parts(text) {
            Some((m, s)) => {
                let r = Decimal::canonical(m, s);
                proof {
                    use_type_invariant(&r);
                    crate::decimal::laws::rounding_is_exact(r);
                }
                Some(r)
            },
            None => None,
        }
    }
}

impl Default for Decimal {
    fn default() -> (r: Decimal)
        ensures
            r == dec(0, 0),
    {
        Decimal::zero()
    }
}

} // verus!
