//! The four operations of arithmetic.

use crate::decimal::model::{
    lemma_canonical_unique, lemma_scaled_zero, next_parts, scaled, signed_parts,
};
use crate::decimal::outside::{difference_parts, product_parts, quotient_parts, sum_parts};
use crate::decimal::{dec, rounded, Decimal};
use vstd::prelude::*;

verus! {

impl Decimal {
    /// The sum.
    pub fn plus(self, rhs: Decimal) -> (r: Decimal)
        requires
            self.add_fits(rhs),
        ensures
            r == self + rhs,
    {
        proof {
            use_type_invariant(&self);
            use_type_invariant(&rhs);
        }
        let (m, s) = sum_parts(self.mantissa, self.scale, rhs.mantissa, rhs.scale);
        proof {
            lemma_rounded(m as int, s as nat, self@ + rhs@);
        }
        Decimal::canonical(m, s)
    }

    /// The difference.
    pub fn minus(self, rhs: Decimal) -> (r: Decimal)
        requires
            self.sub_fits(rhs),
        ensures
            r == self - rhs,
    {
        proof {
            use_type_invariant(&self);
            use_type_invariant(&rhs);
        }
        let (m, s) = difference_parts(self.mantissa, self.scale, rhs.mantissa, rhs.scale);
        proof {
            lemma_rounded(m as int, s as nat, self@ - rhs@);
        }
        Decimal::canonical(m, s)
    }

    /// The product.
    pub fn times(self, rhs: Decimal) -> (r: Decimal)
        requires
            self.mul_fits(rhs),
        ensures
            r == self * rhs,
    {
        proof {
            use_type_invariant(&self);
            use_type_invariant(&rhs);
        }
        let (m, s) = product_parts(self.mantissa, self.scale, rhs.mantissa, rhs.scale);
        proof {
            lemma_rounded(m as int, s as nat, self@ * rhs@);
        }
        Decimal::canonical(m, s)
    }

    /// The quotient. In a tie that `div_fits` leaves out, it may be the number after the
    /// one with the even digit.
    pub fn over(self, rhs: Decimal) -> (r: Decimal)
        requires
            self.div_exists(rhs),
        ensures
            self.div_fits(rhs) ==> r == self / rhs,
            r == self / rhs || r == self.quotient_next(rhs),
    {
        proof {
            use_type_invariant(&self);
            use_type_invariant(&rhs);
            if rhs.mantissa == 0 {
                lemma_scaled_zero(rhs.scale as nat);
            }
        }
        let (m, s) = quotient_parts(self.mantissa, self.scale, rhs.mantissa, rhs.scale);
        proof {
            let v = self@ / rhs@;
            let (k, d) = signed_parts(v);
            if scaled(m as int, s as nat) == scaled(k, d) {
                lemma_rounded(m as int, s as nat, v);
            } else {
                let (j, e) = next_parts(v);
                lemma_canonical_unique(m as int, s as nat, j, e);
            }
        }
        Decimal::canonical(m, s)
    }
}

/// Any form of the rounded value has the rounded number's canonical form.
proof fn lemma_rounded(m: int, s: nat, v: real)
    requires
        scaled(m, s) == scaled(signed_parts(v).0, signed_parts(v).1),
    ensures
        dec(m, s) == rounded(v),
{
    reveal(rounded);
    lemma_canonical_unique(m, s, signed_parts(v).0, signed_parts(v).1);
}

} // verus!
