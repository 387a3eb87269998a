//! The order of the numbers.

use crate::decimal::outside::less_parts;
use crate::decimal::Decimal;
use vstd::prelude::*;

verus! {

impl Decimal {
    /// Tells whether the number is less than another.
    pub fn lt(self, other: Decimal) -> (r: bool)
        ensures
            r == (self@ < other@),
    {
        proof {
            use_type_invariant(&self);
            use_type_invariant(&other);
        }
        less_parts(self.mantissa, self.scale, other.mantissa, other.scale)
    }

    /// Tells whether the number is at most another.
    pub fn le(self, other: Decimal) -> (r: bool)
        ensures
            r == (self@ <= other@),
    {
        !other.lt(self)
    }

    /// Tells whether the number is greater than another.
    pub fn gt(self, other: Decimal) -> (r: bool)
        ensures
            r == (self@ > other@),
    {
        other.lt(self)
    }

    /// Tells whether the number is at least another.
    pub fn ge(self, other: Decimal) -> (r: bool)
        ensures
            r == (self@ >= other@),
    {
        !self.lt(other)
    }
}

} // verus!
