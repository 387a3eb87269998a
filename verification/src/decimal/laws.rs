//! What holds of all decimal numbers.

use crate::decimal::model::{
    canonical_parts, cut_parts, fits, in_format, lemma_canonical_fixed, lemma_canonical_parts,
    lemma_canonical_unique, lemma_canonical_zeros, lemma_exact_fits, lemma_exact_parts,
    lemma_floor_bounds, lemma_floor_whole, lemma_half_even_sum, lemma_pow10_positive,
    lemma_rounded_from_below, lemma_rounded_in_format, lemma_rounded_sign,
    lemma_rounded_stays_below, lemma_scaled_order, lemma_scaled_product, lemma_scaled_sign,
    lemma_scaled_sum, lemma_scaled_times, lemma_scaled_units, lemma_scaled_zero, lemma_small_parts,
    magnitude, pow10, raised_parts, scaled, signed_parts, MANTISSA_LIMIT, WIDE,
};
use crate::decimal::{dec, rounded, Decimal};
use vstd::prelude::*;

verus! {

/// A written number within the format is a valid number of that value.
pub proof fn written_value(m: int, s: nat)
    requires
        in_format(m, s),
    ensures
        dec(m, s).wf(),
        dec(m, s)@ == scaled(m, s),
        fits(dec(m, s)@),
{
    lemma_canonical_parts(m, s);
    lemma_exact_fits(m, s);
    let (k, d) = canonical_parts(m, s);
    if k == 0 {
        assert((k, d) == (0int, 0nat));
    }
}

/// Zero is worth nothing.
pub proof fn zero_value()
    ensures
        dec(0, 0).wf(),
        dec(0, 0)@ == 0real,
{
    written_value(0, 0);
    lemma_scaled_zero(0);
}

/// A whole number is worth itself.
pub proof fn whole_value(n: int)
    requires
        in_format(n, 0),
    ensures
        dec(n, 0).wf(),
        dec(n, 0)@ == n as real,
{
    written_value(n, 0);
    reveal(scaled);
    assert(crate::decimal::model::pow10(0) == 1);
    let x = n as real;
    assert(x / 1real == x) by (nonlinear_arith);
}

/// Two valid numbers of equal value are the same number.
pub proof fn equal_by_value(a: Decimal, b: Decimal)
    requires
        a.wf(),
        b.wf(),
        a@ == b@,
    ensures
        a == b,
{
    lemma_canonical_unique(a.mantissa as int, a.scale as nat, b.mantissa as int, b.scale as nat);
    lemma_canonical_fixed(a.mantissa as int, a.scale as nat);
    lemma_canonical_fixed(b.mantissa as int, b.scale as nat);
    lemma_scaled_sign(a.mantissa as int, a.scale as nat);
    lemma_scaled_sign(b.mantissa as int, b.scale as nat);
}

/// Rounding leaves a valid number as it is.
pub proof fn rounding_is_exact(a: Decimal)
    requires
        a.wf(),
    ensures
        rounded(a@) == a,
        fits(a@),
{
    reveal(rounded);
    let m = a.mantissa as int;
    let s = a.scale as nat;
    lemma_exact_parts(m, s);
    lemma_exact_fits(m, s);
    lemma_canonical_unique(m, s, signed_parts(a@).0, signed_parts(a@).1);
    lemma_canonical_fixed(m, s);
}

/// Rounding a value that fits gives a valid number of the same sign.
pub proof fn rounding_is_valid(v: real)
    requires
        fits(v),
    ensures
        rounded(v).wf(),
        v >= 0real ==> rounded(v)@ >= 0real,
        v <= 0real ==> rounded(v)@ <= 0real,
{
    reveal(rounded);
    lemma_rounded_in_format(v);
    lemma_rounded_sign(v);
    let (m, s) = signed_parts(v);
    written_value(m, s);
    lemma_scaled_sign(m, s);
}

/// Half of a valid number fits.
pub proof fn half_fits(a: Decimal)
    requires
        a.wf(),
    ensures
        a.div_fits(dec(2, 0)),
{
    whole_value(2);
    short_numbers_are_narrow(2, 0);
    rounding_is_exact(a);
    reveal(fits);
    let x = a@;
    assert((x / 2real) * 2real == x) by (nonlinear_arith);
}

/// A number that can be written with a mantissa of 64 bits is not wide.
pub proof fn short_numbers_are_narrow(m: int, s: nat)
    requires
        in_format(m, s),
        -WIDE < m < WIDE,
    ensures
        !dec(m, s).is_wide(),
{
    lemma_canonical_parts(m, s);
}

/// A quotient by at least one fits, unless the divisor is wide.
pub proof fn quotient_fits(a: Decimal, b: Decimal)
    requires
        a.wf(),
        b@ >= 1real,
        !b.is_wide(),
    ensures
        a.div_fits(b),
{
    rounding_is_exact(a);
    reveal(fits);
    let x = a@;
    let y = b@;
    assert(magnitude(x / y) <= magnitude(x)) by (nonlinear_arith)
        requires
            y >= 1real,
    ;
}

/// A number less itself is zero.
pub proof fn nothing_is_left(a: Decimal)
    ensures
        a - a == dec(0, 0),
        (a - a)@ == 0real,
        a.sub_fits(a),
{
    zero_value();
    rounding_is_exact(dec(0, 0));
}

/// The same number written with more digits is the same number.
pub proof fn written_longer(m: int, s: nat, k: nat)
    ensures
        dec(m * pow10(k), s + k) == dec(m, s),
{
    lemma_canonical_zeros(m, s, k);
}

/// Numbers written with the same digits are added digit by digit.
pub proof fn written_sum(m: int, n: int, s: nat)
    requires
        in_format(m, s),
        in_format(n, s),
        in_format(m + n, s),
    ensures
        dec(m, s) + dec(n, s) == dec(m + n, s),
        dec(m, s).add_fits(dec(n, s)),
        (dec(m, s) + dec(n, s))@ == dec(m, s)@ + dec(n, s)@,
{
    written_value(m, s);
    written_value(n, s);
    written_value(m + n, s);
    lemma_scaled_sum(m, n, s);
    rounding_is_exact(dec(m + n, s));
}

/// Numbers written with the same digits are subtracted digit by digit.
pub proof fn written_difference(m: int, n: int, s: nat)
    requires
        in_format(m, s),
        in_format(n, s),
        in_format(m - n, s),
    ensures
        dec(m, s) - dec(n, s) == dec(m - n, s),
        dec(m, s).sub_fits(dec(n, s)),
        (dec(m, s) - dec(n, s))@ == dec(m, s)@ - dec(n, s)@,
{
    written_value(m, s);
    written_value(n, s);
    written_value(m - n, s);
    lemma_scaled_sign(n, s);
    lemma_scaled_sum(m, -n, s);
    rounding_is_exact(dec(m - n, s));
}

/// The product of two written numbers has the product of their mantissas and the sum of
/// their digits, where the format holds it.
pub proof fn written_product(m: int, s: nat, n: int, t: nat)
    requires
        in_format(m, s),
        in_format(n, t),
        in_format(m * n, s + t),
    ensures
        dec(m, s) * dec(n, t) == dec(m * n, s + t),
        dec(m, s).mul_fits(dec(n, t)),
        (dec(m, s) * dec(n, t))@ == dec(m, s)@ * dec(n, t)@,
{
    written_value(m, s);
    written_value(n, t);
    written_value(m * n, s + t);
    lemma_scaled_times(m, s, n, t);
    rounding_is_exact(dec(m * n, s + t));
}

/// A written number is no larger in magnitude than its mantissa.
pub proof fn written_bound(m: int, s: nat)
    requires
        in_format(m, s),
    ensures
        m >= 0 ==> 0real <= dec(m, s)@ <= m as real,
        m <= 0 ==> m as real <= dec(m, s)@ <= 0real,
{
    written_value(m, s);
    lemma_scaled_product(m, s);
    lemma_scaled_sign(m, s);
    lemma_pow10_positive(s);
    let p = pow10(s) as real;
    let v = scaled(m, s);
    assert(v >= 0real ==> v <= v * p) by (nonlinear_arith)
        requires
            p >= 1real,
    ;
    assert(v <= 0real ==> v * p <= v) by (nonlinear_arith)
        requires
            p >= 1real,
    ;
}

/// Numbers of at most seven times ten to the 13th in magnitude can be added, taken
/// from each other and multiplied.
pub proof fn moderate_numbers_fit(a: Decimal, b: Decimal)
    requires
        -70000000000000real <= a@ <= 70000000000000real,
        -70000000000000real <= b@ <= 70000000000000real,
    ensures
        a.add_fits(b),
        a.sub_fits(b),
        a.mul_fits(b),
{
    reveal(fits);
    let x = a@;
    let y = b@;
    let c = 70000000000000real;
    assert(-(c * c) <= x * y <= c * c) by (nonlinear_arith)
        requires
            -c <= x <= c,
            -c <= y <= c,
    ;
    assert(c * c == 4900000000000000000000000000real) by (nonlinear_arith)
        requires
            c == 70000000000000real,
    ;
}

/// Cutting a nonnegative number to some digits never makes it larger, takes away less
/// than one unit of the last digit, and leaves a whole number of such units.
pub proof fn cutting_rounds_down(a: Decimal, digits: nat)
    requires
        a.wf(),
        a@ >= 0real,
    ensures
        a.cut(digits).wf(),
        0real <= a.cut(digits)@ <= a@,
        a@ - a.cut(digits)@ < scaled(1, digits),
        a.cut(digits)@ == scaled(cut_parts(a@, digits).0, digits),
        cut_parts(a@, digits).0 >= 0,
{
    reveal(cut_parts);
    let v = a@;
    let m = a.mantissa as int;
    let s = a.scale as nat;
    let p = pow10(digits) as real;
    lemma_scaled_sign(m, s);
    lemma_pow10_positive(digits);
    let k = (v * p).floor();
    assert(magnitude(v) == v);
    assert(v * p >= 0real) by (nonlinear_arith)
        requires
            v >= 0real,
            p > 0real,
    ;
    assert(cut_parts(v, digits) == (k, digits));
    lemma_floor_bounds(v * p);
    lemma_scaled_product(k, digits);
    lemma_scaled_product(1, digits);
    let w = scaled(k, digits);
    let u = scaled(1, digits);
    assert(w * p == k as real);
    assert(u * p == 1real);
    assert(w <= v) by (nonlinear_arith)
        requires
            w * p <= v * p,
            p > 0real,
    ;
    assert(v - w < u) by (nonlinear_arith)
        requires
            v * p < w * p + u * p,
            p > 0real,
    ;
    lemma_scaled_sign(k, digits);
    if digits >= s {
        lemma_scaled_units(m, s, digits);
        lemma_floor_whole(m * pow10((digits - s) as nat));
        assert(k == m * pow10((digits - s) as nat));
        lemma_canonical_unique(k, digits, m, s);
        lemma_canonical_fixed(m, s);
        lemma_canonical_parts(k, digits);
    } else {
        lemma_scaled_order(k * pow10((s - digits) as nat), m, s);
        lemma_scaled_units(k, digits, s);
        lemma_pow10_positive((s - digits) as nat);
        assert(k <= m) by (nonlinear_arith)
            requires
                k * pow10((s - digits) as nat) <= m,
                pow10((s - digits) as nat) >= 1,
                k >= 0,
        ;
        written_value(k, digits);
    }
}

/// Cutting a negative number never makes it positive.
pub proof fn cutting_keeps_the_sign(a: Decimal, digits: nat)
    requires
        a.wf(),
        a@ < 0real,
    ensures
        a.cut(digits)@ <= 0real,
{
    reveal(cut_parts);
    let v = a@;
    let m = a.mantissa as int;
    let s = a.scale as nat;
    let p = pow10(digits) as real;
    lemma_scaled_sign(m, s);
    lemma_pow10_positive(digits);
    let x = (-v) * p;
    let k = x.floor();
    assert(magnitude(v) == -v);
    assert(x >= 0real) by (nonlinear_arith)
        requires
            x == (-v) * p,
            v < 0real,
            p > 0real,
    ;
    assert(cut_parts(v, digits) == (-k, digits));
    lemma_floor_bounds(x);
    lemma_scaled_sign(k, digits);
    lemma_scaled_product(k, digits);
    let w = scaled(k, digits);
    assert(w <= -v) by (nonlinear_arith)
        requires
            w * p <= (-v) * p,
            p > 0real,
    ;
    if digits >= s {
        lemma_scaled_units(-m, s, digits);
        lemma_floor_whole(-m * pow10((digits - s) as nat));
        lemma_canonical_unique(-k, digits, m, s);
        lemma_canonical_fixed(m, s);
        lemma_canonical_parts(-k, digits);
    } else {
        lemma_scaled_units(k, digits, s);
        lemma_scaled_sign(-m, s);
        lemma_scaled_order(k * pow10((s - digits) as nat), -m, s);
        lemma_pow10_positive((s - digits) as nat);
        assert(k <= -m) by (nonlinear_arith)
            requires
                k * pow10((s - digits) as nat) <= -m,
                pow10((s - digits) as nat) >= 1,
                k >= 0,
        ;
        written_value(-k, digits);
        lemma_scaled_sign(-k, digits);
    }
}

/// Raising a nonnegative number to some digits never makes it smaller, and adds less
/// than one unit of the last digit.
pub proof fn raising_rounds_up(a: Decimal, digits: nat)
    requires
        a.wf(),
        a@ >= 0real,
    ensures
        a.raised(digits).wf(),
        a@ <= a.raised(digits)@,
        a.raised(digits)@ - a@ < scaled(1, digits),
        a.raised(digits)@ == scaled(raised_parts(a@, digits).0, digits),
{
    reveal(raised_parts);
    let v = a@;
    let m = a.mantissa as int;
    let s = a.scale as nat;
    let p = pow10(digits) as real;
    lemma_scaled_sign(m, s);
    lemma_pow10_positive(digits);
    let x = v * p;
    let k = -((-x).floor());
    assert(magnitude(v) == v);
    assert(x >= 0real) by (nonlinear_arith)
        requires
            x == v * p,
            v >= 0real,
            p > 0real,
    ;
    assert(raised_parts(v, digits) == (k, digits));
    lemma_floor_bounds(-x);
    lemma_scaled_product(k, digits);
    lemma_scaled_product(1, digits);
    let w = scaled(k, digits);
    let u = scaled(1, digits);
    assert(w * p == k as real);
    assert(u * p == 1real);
    assert(v <= w) by (nonlinear_arith)
        requires
            v * p <= w * p,
            p > 0real,
    ;
    assert(w - v < u) by (nonlinear_arith)
        requires
            w * p < v * p + u * p,
            p > 0real,
    ;
    if digits >= s {
        lemma_scaled_units(m, s, digits);
        let n = m * pow10((digits - s) as nat);
        lemma_floor_whole(-n);
        assert(-x == (-n) as real);
        assert(k == n);
        lemma_canonical_unique(k, digits, m, s);
        lemma_canonical_fixed(m, s);
        lemma_canonical_parts(k, digits);
    } else {
        let q = pow10((s - digits) as nat);
        let l = k - 1;
        lemma_scaled_product(l, digits);
        let y = scaled(l, digits);
        assert(y < v) by (nonlinear_arith)
            requires
                y * p < v * p,
                p > 0real,
        ;
        lemma_scaled_order(l * q, m, s);
        lemma_scaled_units(l, digits, s);
        assert(l * q < m);
        assert(q >= 10) by {
            lemma_pow10_positive((s - digits - 1) as nat);
        }
        assert(k <= m || k <= 1) by (nonlinear_arith)
            requires
                (k - 1) * q < m,
                q >= 10,
        ;
        assert(k >= 0);
        written_value(k, digits);
    }
}

/// A nonnegative number less a smaller one with few digits is exact, as long as the
/// number itself can be written with these digits.
pub proof fn difference_is_exact(a: Decimal, n: int, digits: nat)
    requires
        a.wf(),
        digits <= 28,
        0real <= scaled(n, digits) <= a@,
        a@ * (pow10(digits) as real) < MANTISSA_LIMIT as real,
    ensures
        rounded(a@ - scaled(n, digits))@ == a@ - scaled(n, digits),
        fits(a@ - scaled(n, digits)),
{
    let m = a.mantissa as int;
    let s = a.scale as nat;
    if s >= digits {
        let b = n * pow10((s - digits) as nat);
        lemma_scaled_units(n, digits, s);
        lemma_scaled_sign(b, s);
        lemma_scaled_order(b, m, s);
        lemma_scaled_sign(m, s);
        lemma_scaled_sum(m, -b, s);
        lemma_exact_value(m - b, s);
    } else {
        let c = m * pow10((digits - s) as nat);
        lemma_scaled_units(m, s, digits);
        assert(a@ * pow10(digits) as real == c as real);
        lemma_scaled_sign(n, digits);
        lemma_scaled_order(n, c, digits);
        lemma_scaled_sign(c, digits);
        lemma_scaled_sum(c, -n, digits);
        lemma_exact_value(c - n, digits);
    }
}

proof fn lemma_exact_value(m: int, s: nat)
    requires
        in_format(m, s),
    ensures
        rounded(scaled(m, s))@ == scaled(m, s),
        fits(scaled(m, s)),
{
    written_value(m, s);
    rounding_is_exact(dec(m, s));
}

/// Rounding a value of at least one gives at least one.
pub proof fn rounding_keeps_ones(v: real)
    requires
        fits(v),
        v >= 1real,
    ensures
        rounded(v)@ >= 1real,
{
    reveal(rounded);
    lemma_rounded_from_below(v);
    lemma_rounded_in_format(v);
    let (m, s) = signed_parts(v);
    written_value(m, s);
    lemma_scaled_product(m, s);
    lemma_pow10_positive(s);
    let p = pow10(s) as real;
    let w = scaled(m, s);
    assert(w >= 1real) by (nonlinear_arith)
        requires
            w * p >= p,
            p > 0real,
    ;
}

/// Rounding a value of at least one unit of the finest scale gives a positive number.
pub proof fn rounding_keeps_units(v: real)
    requires
        fits(v),
        v * (pow10(28) as real) >= 1real,
    ensures
        rounded(v)@ > 0real,
{
    reveal(rounded);
    lemma_rounded_from_below(v);
    lemma_rounded_in_format(v);
    let (m, s) = signed_parts(v);
    written_value(m, s);
    lemma_scaled_sign(m, s);
}

/// Where two nonnegative values reach one together, so do their roundings.
pub proof fn roundings_reach_one(x: real, y: real)
    requires
        fits(x),
        fits(y),
        x >= 0real,
        y >= 0real,
        x + y >= 1real,
    ensures
        rounded(x)@ + rounded(y)@ >= 1real,
{
    rounding_is_valid(x);
    rounding_is_valid(y);
    if x >= 7real {
        rounding_keeps_ones(x);
    } else if y >= 7real {
        rounding_keeps_ones(y);
    } else {
        reveal(rounded);
        lemma_small_parts(x);
        lemma_small_parts(y);
        reveal_with_fuel(pow10, 30);
        let p = pow10(28) as real;
        let n = pow10(28);
        assert(n == 10000000000000000000000000000);
        assert(x * p + y * p >= p) by (nonlinear_arith)
            requires
                x + y >= 1real,
                p > 0real,
        ;
        lemma_half_even_sum(x * p, y * p, n);
        let a = signed_parts(x).0;
        let b = signed_parts(y).0;
        written_value(a, 28);
        written_value(b, 28);
        lemma_scaled_sum(a, b, 28);
        lemma_scaled_product(a + b, 28);
        let w = scaled(a + b, 28);
        assert(w >= 1real) by (nonlinear_arith)
            requires
                w * p >= p,
                p > 0real,
        ;
    }
}

/// Two different numbers differ by at least one unit of the finest scale.
pub proof fn numbers_are_apart(a: Decimal, b: Decimal)
    requires
        a.wf(),
        b.wf(),
        b@ < a@,
    ensures
        (a@ - b@) * (pow10(28) as real) >= 1real,
{
    let k = units_of(a);
    let l = units_of(b);
    let p = pow10(28) as real;
    lemma_pow10_positive(28);
    lemma_apart(a@, b@, p, k, l);
}

/// The number of units of the finest scale in a number.
proof fn units_of(a: Decimal) -> (k: int)
    requires
        a.wf(),
    ensures
        a@ * (pow10(28) as real) == k as real,
{
    lemma_scaled_units(a.mantissa as int, a.scale as nat, 28);
    a.mantissa as int * pow10((28 - a.scale as nat) as nat)
}

proof fn lemma_apart(x: real, y: real, p: real, k: int, l: int)
    requires
        p > 0real,
        y < x,
        x * p == k as real,
        y * p == l as real,
    ensures
        (x - y) * p >= 1real,
{
    assert(x * p > y * p) by (nonlinear_arith)
        requires
            y < x,
            p > 0real,
    ;
    assert(k > l);
    assert((x - y) * p == x * p - y * p) by (nonlinear_arith);
}

/// Rounding a nonnegative value gives no more than any number that is not smaller than
/// the value.
pub proof fn rounding_stays_below(v: real, a: Decimal)
    requires
        a.wf(),
        fits(v),
        0real <= v <= a@,
    ensures
        rounded(v)@ <= a@,
{
    reveal(rounded);
    lemma_rounded_stays_below(v, a.mantissa as int, a.scale as nat);
    lemma_rounded_in_format(v);
    let (m, s) = signed_parts(v);
    written_value(m, s);
}

/// Cutting twice is cutting once.
pub proof fn cutting_is_idempotent(a: Decimal, digits: nat)
    requires
        a.wf(),
        a@ >= 0real,
    ensures
        a.cut(digits).cut(digits) == a.cut(digits),
{
    cutting_rounds_down(a, digits);
    reveal(cut_parts);
    let k = cut_parts(a@, digits).0;
    let b = a.cut(digits);
    lemma_scaled_product(k, digits);
    lemma_floor_whole(k);
    lemma_scaled_sign(k, digits);
    assert(cut_parts(b@, digits) == (k, digits));
}

/// The number of `digits` fractional digits that is raised to is the least that is no
/// smaller, and the one that is cut to the greatest that is no larger.
pub proof fn quantizing_is_nearest(a: Decimal, digits: nat, n: int)
    requires
        a.wf(),
        a@ >= 0real,
    ensures
        a@ <= scaled(n, digits) ==> a.raised(digits)@ <= scaled(n, digits),
        scaled(n, digits) <= a@ ==> scaled(n, digits) <= a.cut(digits)@,
{
    raising_rounds_up(a, digits);
    cutting_rounds_down(a, digits);
    let up = raised_parts(a@, digits).0;
    let down = cut_parts(a@, digits).0;
    lemma_scaled_sum(up, -1, digits);
    lemma_scaled_sum(down, 1, digits);
    lemma_scaled_sign(1, digits);
    lemma_scaled_order(up - 1, n, digits);
    lemma_scaled_order(up, n, digits);
    lemma_scaled_order(n, down + 1, digits);
    lemma_scaled_order(n, down, digits);
}

/// Every number lies between the smallest and the largest.
pub proof fn numbers_are_bounded(a: Decimal)
    requires
        a.wf(),
    ensures
        dec(1 - MANTISSA_LIMIT, 0)@ <= a@ <= dec(MANTISSA_LIMIT - 1, 0)@,
{
    let m = a.mantissa as int;
    let s = a.scale as nat;
    written_value(m, s);
    written_bound(m, s);
    whole_value(MANTISSA_LIMIT - 1);
    whole_value(1 - MANTISSA_LIMIT);
}

/// The smaller of two numbers is one of them and no more than either; the larger is one of
/// them and no less than either; and together they are both.
pub proof fn smaller_and_larger_are_both(a: Decimal, b: Decimal)
    ensures
        a.smaller(b)@ <= a@,
        a.smaller(b)@ <= b@,
        a.larger(b)@ >= a@,
        a.larger(b)@ >= b@,
        a.smaller(b) == a || a.smaller(b) == b,
        a.larger(b) == a || a.larger(b) == b,
        a.smaller(b)@ + a.larger(b)@ == a@ + b@,
{
}

/// The magnitude of a number is the number without its sign.
pub proof fn magnitudes_have_no_sign(a: Decimal)
    requires
        a.wf(),
    ensures
        a.absolute()@ >= 0real,
        a.absolute()@ == a@ || a.absolute()@ == -a@,
{
    let m = a.mantissa as int;
    let s = a.scale as nat;
    lemma_scaled_sign(m, s);
    if a@ < 0real {
        let r = Decimal { mantissa: (-m) as i128, scale: a.scale };
        assert(r@ == -a@);
        assert(r.wf());
        rounding_is_exact(r);
    }
}

/// Raising a negative number away from zero does not make it positive.
pub proof fn raising_keeps_the_sign(a: Decimal, digits: nat)
    requires
        a.wf(),
        a@ < 0real,
    ensures
        a.raised(digits)@ <= 0real,
{
    reveal(raised_parts);
    let v = a@;
    let m = a.mantissa as int;
    let s = a.scale as nat;
    let p = pow10(digits) as real;
    lemma_scaled_sign(m, s);
    lemma_pow10_positive(digits);
    let x = (-v) * p;
    let k = -((-x).floor());
    assert(magnitude(v) == -v);
    assert(x >= 0real) by (nonlinear_arith)
        requires
            x == (-v) * p,
            v < 0real,
            p > 0real,
    ;
    assert(raised_parts(v, digits) == (-k, digits));
    lemma_floor_bounds(-x);
    assert(k >= 0);
    lemma_scaled_sign(k, digits);
    if digits >= s {
        lemma_scaled_units(-m, s, digits);
        let n = -m * pow10((digits - s) as nat);
        lemma_scaled_sign(-m, s);
        lemma_floor_whole(-n);
        assert(x == n as real);
        assert(k == n);
        lemma_scaled_sign(n, digits);
        lemma_canonical_unique(-k, digits, m, s);
        lemma_canonical_fixed(m, s);
        lemma_canonical_parts(-k, digits);
    } else {
        let q = pow10((s - digits) as nat);
        let l = k - 1;
        lemma_scaled_product(l, digits);
        let y = scaled(l, digits);
        assert(y < -v) by (nonlinear_arith)
            requires
                y * p < (-v) * p,
                p > 0real,
        ;
        lemma_scaled_sign(-m, s);
        lemma_scaled_order(l * q, -m, s);
        lemma_scaled_units(l, digits, s);
        assert(l * q < -m);
        assert(q >= 10) by {
            lemma_pow10_positive((s - digits - 1) as nat);
        }
        assert(k <= -m || k <= 1) by (nonlinear_arith)
            requires
                (k - 1) * q < -m,
                q >= 10,
        ;
        written_value(-k, digits);
        lemma_scaled_sign(-k, digits);
    }
}

} // verus!
