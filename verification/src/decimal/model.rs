//! The mathematical model of the decimal format: scaled integers, the rounding
//! rule, and the lemmas that tie the two together.

use vstd::prelude::*;

verus! {

/// Two to the 96th: every mantissa is smaller than this in magnitude.
pub const MANTISSA_LIMIT: i128 = 0x1_0000_0000_0000_0000_0000_0000;

/// The largest number of fractional digits.
pub const MAX_SCALE: u32 = 28;

/// Two to the 64th: a mantissa is wide from this magnitude on.
pub const WIDE: i128 = 0x1_0000_0000_0000_0000;

/// Ten to the `n`.
pub open spec fn pow10(n: nat) -> int
    decreases n,
{
    if n == 0 {
        1
    } else {
        10 * pow10((n - 1) as nat)
    }
}

/// The number that mantissa `m` and scale `s` stand for.
#[verifier::opaque]
pub open spec fn scaled(m: int, s: nat) -> real {
    m as real / pow10(s) as real
}

/// Whether mantissa `m` and scale `s` are within the format.
pub open spec fn in_format(m: int, s: nat) -> bool {
    -MANTISSA_LIMIT < m < MANTISSA_LIMIT && s <= MAX_SCALE
}

/// The magnitude of `v`.
pub open spec fn magnitude(v: real) -> real {
    if v < 0real {
        -v
    } else {
        v
    }
}

/// Whether `v` can be rounded to the format without exceeding its largest number.
#[verifier::opaque]
pub open spec fn fits(v: real) -> bool {
    magnitude(v) * 2real < (2 * MANTISSA_LIMIT - 1) as real
}

/// The integer nearest to a nonnegative `x`; of two equally near, the even one.
pub open spec fn half_even(x: real) -> int {
    let below = x.floor();
    let rest = x - below as real;
    if rest * 2real < 1real {
        below
    } else if rest * 2real > 1real {
        below + 1
    } else if below % 2 == 0 {
        below
    } else {
        below + 1
    }
}

/// The largest scale up to `s` at which a nonnegative `v` still fits the mantissa.
pub open spec fn fitting_scale(v: real, s: nat) -> nat
    decreases s,
{
    if s == 0 || (v * pow10(s) as real).floor() < MANTISSA_LIMIT {
        s
    } else {
        fitting_scale(v, (s - 1) as nat)
    }
}

/// Mantissa and scale of a nonnegative `v` rounded to the format.
///
/// Where rounding carries past the largest mantissa, one more digit is given up.
pub open spec fn rounded_parts(v: real) -> (int, nat) {
    let s = fitting_scale(v, MAX_SCALE as nat);
    let m = half_even(v * pow10(s) as real);
    if m < MANTISSA_LIMIT {
        (m, s)
    } else {
        (7922816251426433759354395034, (s - 1) as nat)
    }
}

/// Mantissa and scale of `v` rounded to the format.
#[verifier::opaque]
pub open spec fn signed_parts(v: real) -> (int, nat) {
    let (m, s) = rounded_parts(magnitude(v));
    (if v < 0real { -m } else { m }, s)
}

/// Whether a nonnegative `v` lies halfway between an even mantissa and the next one, while
/// one digit more would exceed the largest mantissa by less than a thousand million.
#[verifier::opaque]
pub open spec fn is_tie_past_limit(v: real) -> bool {
    let s = fitting_scale(v, MAX_SCALE as nat);
    let x = v * pow10(s + 1) as real;
    &&& s < MAX_SCALE
    &&& x == x.floor() as real
    &&& x.floor() % 20 == 5
    &&& x.floor() < MANTISSA_LIMIT + 1000000000
}

/// Whether `rust_decimal` may miss the even mantissa in a quotient `v` by a divisor with
/// mantissa `n`: the divisor is wide and the quotient such a tie.
pub open spec fn is_unsettled(v: real, n: int) -> bool {
    (n <= -WIDE || n >= WIDE) && is_tie_past_limit(magnitude(v))
}

/// Mantissa and scale of the number after the rounded `v`, away from zero.
pub open spec fn next_parts(v: real) -> (int, nat) {
    let (m, s) = signed_parts(v);
    (if v < 0real { m - 1 } else { m + 1 }, s)
}

/// Mantissa and scale of `v` cut to `digits` fractional digits, toward zero.
#[verifier::opaque]
pub open spec fn cut_parts(v: real, digits: nat) -> (int, nat) {
    let m = (magnitude(v) * pow10(digits) as real).floor();
    (if v < 0real { -m } else { m }, digits)
}

/// Mantissa and scale of `v` raised to `digits` fractional digits, away from zero.
#[verifier::opaque]
pub open spec fn raised_parts(v: real, digits: nat) -> (int, nat) {
    let m = -((-(magnitude(v) * pow10(digits) as real)).floor());
    (if v < 0real { -m } else { m }, digits)
}

/// The number that `rust_decimal` reads in a text, if it reads one there.
pub uninterp spec fn parsed_value(text: Seq<char>) -> Option<real>;

/// Mantissa and scale without trailing zeros.
pub open spec fn canonical_parts(m: int, s: nat) -> (int, nat)
    decreases s,
{
    if m == 0 {
        (0, 0)
    } else if s > 0 && m % 10 == 0 {
        canonical_parts(m / 10, (s - 1) as nat)
    } else {
        (m, s)
    }
}

/// Whether mantissa `m` and scale `s` have no trailing zeros.
pub open spec fn is_canonical(m: int, s: nat) -> bool {
    s == 0 || m % 10 != 0
}

pub proof fn lemma_pow10_positive(n: nat)
    ensures
        pow10(n) > 0,
    decreases n,
{
    if n > 0 {
        lemma_pow10_positive((n - 1) as nat);
    }
}

pub proof fn lemma_pow10_sum(a: nat, b: nat)
    ensures
        pow10(a + b) == pow10(a) * pow10(b),
    decreases a,
{
    if a > 0 {
        lemma_pow10_sum((a - 1) as nat, b);
        let x = pow10((a - 1) as nat);
        let y = pow10(b);
        assert(10 * (x * y) == (10 * x) * y) by (nonlinear_arith);
        assert((a + b - 1) as nat == ((a - 1) as nat) + b);
    } else {
        assert(a + b == b);
    }
}

/// One digit more on both sides of the fraction leaves the number unchanged.
pub proof fn lemma_scaled_digit(m: int, s: nat)
    ensures
        scaled(m * 10, s + 1) == scaled(m, s),
{
    reveal(scaled);
    lemma_pow10_positive(s);
    let p = pow10(s) as real;
    let n = m as real;
    assert(pow10(s + 1) == 10 * pow10(s));
    assert((m * 10) as real == n * 10real);
    assert(pow10(s + 1) as real == 10real * p);
    assert((n * 10real) / (10real * p) == n / p) by (nonlinear_arith)
        requires
            p > 0real,
    ;
}

pub proof fn lemma_scaled_zero(s: nat)
    ensures
        scaled(0, s) == 0real,
{
    reveal(scaled);
    lemma_pow10_positive(s);
    let p = pow10(s) as real;
    assert(0real / p == 0real) by (nonlinear_arith)
        requires
            p > 0real,
    ;
}

pub proof fn lemma_canonical_parts(m: int, s: nat)
    ensures
        is_canonical(canonical_parts(m, s).0, canonical_parts(m, s).1),
        scaled(canonical_parts(m, s).0, canonical_parts(m, s).1) == scaled(m, s),
        canonical_parts(m, s).1 <= s,
        m >= 0 ==> 0 <= canonical_parts(m, s).0 <= m,
        m <= 0 ==> m <= canonical_parts(m, s).0 <= 0,
        canonical_parts(m, s).0 == 0 ==> m == 0,
    decreases s,
{
    if m == 0 {
        lemma_scaled_zero(s);
        lemma_scaled_zero(0);
    } else if s > 0 && m % 10 == 0 {
        lemma_canonical_parts(m / 10, (s - 1) as nat);
        lemma_scaled_digit(m / 10, (s - 1) as nat);
        assert((m / 10) * 10 == m);
    }
}

/// Appending `k` zeros does not change the canonical form.
pub proof fn lemma_canonical_zeros(m: int, s: nat, k: nat)
    ensures
        canonical_parts(m * pow10(k), s + k) == canonical_parts(m, s),
    decreases k,
{
    if k == 0 {
        assert(m * pow10(0) == m);
        assert(s + k == s);
    } else {
        lemma_canonical_zeros(m, s, (k - 1) as nat);
        let p = pow10((k - 1) as nat);
        lemma_pow10_positive((k - 1) as nat);
        assert(m * (10 * p) == 10 * (m * p)) by (nonlinear_arith);
        let n = m * pow10(k);
        assert(n == 10 * (m * p));
        assert(n / 10 == m * p);
        assert(n % 10 == 0);
        if m == 0 {
            assert(n == 0);
            assert(m * p == 0);
        } else {
            assert(m * p != 0) by (nonlinear_arith)
                requires
                    m != 0,
                    p > 0,
            ;
            assert((s + k - 1) as nat == s + ((k - 1) as nat));
        }
    }
}

/// The product of two integers is the same among the reals.
pub proof fn lemma_real_product(a: int, b: int)
    ensures
        (a * b) as real == (a as real) * (b as real),
{
    assert((a * b) as real == (a as real) * (b as real)) by (nonlinear_arith);
}

/// The numbers of two forms agree exactly when their cross products do.
pub proof fn lemma_scaled_equal(m: int, s: nat, n: int, t: nat)
    ensures
        scaled(m, s) == scaled(n, t) <==> m * pow10(t) == n * pow10(s),
{
    reveal(scaled);
    lemma_pow10_positive(s);
    lemma_pow10_positive(t);
    let p = pow10(s) as real;
    let q = pow10(t) as real;
    let a = m as real;
    let b = n as real;
    assert(a / p == b / q <==> a * q == b * p) by (nonlinear_arith)
        requires
            p > 0real,
            q > 0real,
    ;
    lemma_real_product(m, pow10(t));
    lemma_real_product(n, pow10(s));
}

/// Two forms of one number have the same canonical form.
pub proof fn lemma_canonical_unique(m: int, s: nat, n: int, t: nat)
    requires
        scaled(m, s) == scaled(n, t),
    ensures
        canonical_parts(m, s) == canonical_parts(n, t),
{
    lemma_scaled_equal(m, s, n, t);
    if s <= t {
        lemma_cancel(m, s, n, t);
        lemma_canonical_zeros(m, s, (t - s) as nat);
    } else {
        lemma_cancel(n, t, m, s);
        lemma_canonical_zeros(n, t, (s - t) as nat);
    }
}

proof fn lemma_cancel(m: int, s: nat, n: int, t: nat)
    requires
        m * pow10(t) == n * pow10(s),
        s <= t,
    ensures
        n == m * pow10((t - s) as nat),
{
    let k = (t - s) as nat;
    lemma_pow10_sum(k, s);
    lemma_pow10_positive(s);
    let p = pow10(s);
    let q = pow10(k);
    assert(k + s == t);
    assert(m * (q * p) == (m * q) * p) by (nonlinear_arith);
    assert(n == m * q) by (nonlinear_arith)
        requires
            (m * q) * p == n * p,
            p > 0,
    ;
}

/// A canonical form is its own canonical form.
pub proof fn lemma_canonical_fixed(m: int, s: nat)
    requires
        is_canonical(m, s),
    ensures
        m != 0 ==> canonical_parts(m, s) == (m, s),
{
}

/// The number of a form with `s` fractional digits is a whole number of units of
/// any finer scale `t`.
pub proof fn lemma_scaled_units(m: int, s: nat, t: nat)
    requires
        s <= t,
    ensures
        scaled(m, s) * pow10(t) as real == (m * pow10((t - s) as nat)) as real,
        scaled(m * pow10((t - s) as nat), t) == scaled(m, s),
{
    let k = (t - s) as nat;
    lemma_pow10_sum(k, s);
    lemma_pow10_positive(s);
    lemma_pow10_positive(t);
    assert(k + s == t);
    assert(m * pow10(t) == (m * pow10(k)) * pow10(s)) by (nonlinear_arith)
        requires
            pow10(t) == pow10(k) * pow10(s),
    ;
    lemma_scaled_equal(m, s, m * pow10(k), t);
    reveal(scaled);
    let a = (m * pow10(k)) as real;
    let q = pow10(t) as real;
    assert((a / q) * q == a) by (nonlinear_arith)
        requires
            q > 0real,
    ;
}

pub proof fn lemma_floor_whole(n: int)
    ensures
        (n as real).floor() == n,
        half_even(n as real) == n,
{
}

pub proof fn lemma_scaled_sign(m: int, s: nat)
    ensures
        scaled(m, s) < 0real <==> m < 0,
        scaled(m, s) == 0real <==> m == 0,
        scaled(-m, s) == -scaled(m, s),
{
    reveal(scaled);
    lemma_pow10_positive(s);
    let p = pow10(s) as real;
    let a = m as real;
    assert(a / p < 0real <==> a < 0real) by (nonlinear_arith)
        requires
            p > 0real,
    ;
    assert(a / p == 0real <==> a == 0real) by (nonlinear_arith)
        requires
            p > 0real,
    ;
    assert((-a) / p == -(a / p)) by (nonlinear_arith)
        requires
            p > 0real,
    ;
    assert((-m) as real == -a);
}

pub proof fn lemma_scaled_sum(m: int, n: int, s: nat)
    ensures
        scaled(m, s) + scaled(n, s) == scaled(m + n, s),
{
    reveal(scaled);
    lemma_pow10_positive(s);
    let p = pow10(s) as real;
    let a = m as real;
    let b = n as real;
    assert(a / p + b / p == (a + b) / p) by (nonlinear_arith)
        requires
            p > 0real,
    ;
    assert((m + n) as real == a + b);
}

pub proof fn lemma_scaled_times(m: int, s: nat, n: int, t: nat)
    ensures
        scaled(m, s) * scaled(n, t) == scaled(m * n, s + t),
{
    reveal(scaled);
    lemma_pow10_positive(s);
    lemma_pow10_positive(t);
    lemma_pow10_sum(s, t);
    lemma_real_product(m, n);
    lemma_real_product(pow10(s), pow10(t));
    let p = pow10(s) as real;
    let q = pow10(t) as real;
    let a = m as real;
    let b = n as real;
    assert((a / p) * (b / q) == (a * b) / (p * q)) by (nonlinear_arith)
        requires
            p > 0real,
            q > 0real,
    ;
}

proof fn lemma_fitting_scale_exact(m: int, s: nat, t: nat)
    requires
        0 <= m < MANTISSA_LIMIT,
        s <= t,
    ensures
        s <= fitting_scale(scaled(m, s), t) <= t,
        fitting_scale(scaled(m, s), t) == 0 || (scaled(m, s) * pow10(
            fitting_scale(scaled(m, s), t),
        ) as real).floor() < MANTISSA_LIMIT,
    decreases t,
{
    lemma_scaled_units(m, s, t);
    lemma_floor_whole(m * pow10((t - s) as nat));
    if t == s {
        assert(pow10(0) == 1);
        assert(m * pow10(0) == m);
    } else if t > 0 {
        lemma_fitting_scale_exact(m, s, (t - 1) as nat);
    }
}

/// A number within the format is its own rounding.
pub proof fn lemma_exact_parts(m: int, s: nat)
    requires
        in_format(m, s),
    ensures
        scaled(signed_parts(scaled(m, s)).0, signed_parts(scaled(m, s)).1) == scaled(m, s),
{
    reveal(signed_parts);
    let v = scaled(m, s);
    lemma_scaled_sign(m, s);
    let n = if m < 0 { -m } else { m };
    assert(magnitude(v) == scaled(n, s)) by {
        lemma_scaled_sign(m, s);
    }
    lemma_fitting_scale_exact(n, s, MAX_SCALE as nat);
    let t = fitting_scale(scaled(n, s), MAX_SCALE as nat);
    lemma_scaled_units(n, s, t);
    let k = n * pow10((t - s) as nat);
    lemma_floor_whole(k);
    if t == 0 {
        assert(pow10(0) == 1);
        assert(n * pow10(0) == n);
    }
    assert(k < MANTISSA_LIMIT);
    assert(rounded_parts(magnitude(v)) == (k, t));
    lemma_scaled_sign(k, t);
}

/// A number within the format fits it.
pub proof fn lemma_exact_fits(m: int, s: nat)
    requires
        in_format(m, s),
    ensures
        fits(scaled(m, s)),
{
    reveal(fits);
    reveal(scaled);
    lemma_pow10_positive(s);
    let p = pow10(s) as real;
    let a = m as real;
    lemma_scaled_sign(m, s);
    let n = if m < 0 { -a } else { a };
    assert(magnitude(a / p) <= n) by (nonlinear_arith)
        requires
            p >= 1real,
            n >= 0real,
            n == a || n == -a,
    ;
}

/// Rounding keeps a number that fits within the format.
pub proof fn lemma_rounded_in_format(v: real)
    requires
        fits(v),
    ensures
        in_format(signed_parts(v).0, signed_parts(v).1),
{
    reveal(signed_parts);
    reveal(fits);
    let u = magnitude(v);
    lemma_fitting_scale_bound(u, MAX_SCALE as nat);
    let s = fitting_scale(u, MAX_SCALE as nat);
    let x = u * pow10(s) as real;
    lemma_pow10_positive(s);
    assert(x >= 0real) by (nonlinear_arith)
        requires
            x == u * pow10(s) as real,
            u >= 0real,
            pow10(s) as real > 0real,
    ;
    if s == 0 {
        assert(pow10(0) == 1);
        assert(x == u) by (nonlinear_arith)
            requires
                x == u * 1real,
        ;
    }
}

proof fn lemma_fitting_scale_bound(v: real, t: nat)
    ensures
        fitting_scale(v, t) <= t,
        fitting_scale(v, t) == 0 || (v * pow10(fitting_scale(v, t)) as real).floor()
            < MANTISSA_LIMIT,
    decreases t,
{
    if t > 0 {
        lemma_fitting_scale_bound(v, (t - 1) as nat);
    }
}

/// Rounding keeps the sign.
pub proof fn lemma_rounded_sign(v: real)
    ensures
        v >= 0real ==> signed_parts(v).0 >= 0,
        v <= 0real ==> signed_parts(v).0 <= 0,
{
    reveal(signed_parts);
    let u = magnitude(v);
    let s = fitting_scale(u, MAX_SCALE as nat);
    let x = u * pow10(s) as real;
    lemma_pow10_positive(s);
    assert(x >= 0real) by (nonlinear_arith)
        requires
            x == u * pow10(s) as real,
            u >= 0real,
            pow10(s) as real > 0real,
    ;
    if v == 0real {
        assert(x == 0real) by (nonlinear_arith)
            requires
                x == u * pow10(s) as real,
                u == 0real,
        ;
        lemma_floor_whole(0);
    }
}

/// Bounds on the floor of a product.
pub proof fn lemma_floor_bounds(x: real)
    ensures
        x.floor() as real <= x,
        x < x.floor() as real + 1real,
{
}

/// Dividing the units of a finer scale by ten to the difference of the scales.
pub proof fn lemma_scaled_product(m: int, s: nat)
    ensures
        scaled(m, s) * pow10(s) as real == m as real,
{
    lemma_scaled_units(m, s, s);
    assert(pow10(0) == 1);
    assert(m * pow10(0) == m);
}

/// The order of two forms of one scale is the order of their mantissas.
pub proof fn lemma_scaled_order(m: int, n: int, s: nat)
    ensures
        scaled(m, s) <= scaled(n, s) <==> m <= n,
        scaled(m, s) < scaled(n, s) <==> m < n,
{
    lemma_scaled_sum(n, -m, s);
    lemma_scaled_sign(m, s);
    lemma_scaled_sign(n - m, s);
}

/// Where two numbers together reach an even whole number, so do their roundings.
pub proof fn lemma_half_even_sum(a: real, b: real, n: int)
    requires
        n % 2 == 0,
        a + b >= n as real,
    ensures
        half_even(a) + half_even(b) >= n,
{
    let fa = a.floor();
    let fb = b.floor();
    lemma_floor_bounds(a);
    lemma_floor_bounds(b);
    if fa + fb < n {
        assert((fa + fb) as real == fa as real + fb as real);
        assert(fa + fb == n - 1);
        let ra = a - fa as real;
        let rb = b - fb as real;
        assert(ra + rb >= 1real);
        if ra * 2real <= 1real && rb * 2real <= 1real {
            assert(ra * 2real == 1real);
            assert(rb * 2real == 1real);
            assert(fa % 2 != 0 || fb % 2 != 0);
        }
    }
}

/// A value below seven is rounded to the finest scale.
pub proof fn lemma_small_parts(v: real)
    requires
        0real <= v < 7real,
    ensures
        signed_parts(v) == (half_even(v * pow10(28) as real), 28nat),
        in_format(signed_parts(v).0, 28),
{
    reveal(signed_parts);
    reveal_with_fuel(pow10, 30);
    let p = pow10(28) as real;
    let x = v * p;
    assert(pow10(28) == 10000000000000000000000000000);
    assert(0real <= x <= 70000000000000000000000000000real) by (nonlinear_arith)
        requires
            x == v * p,
            0real <= v < 7real,
            p == 10000000000000000000000000000real,
    ;
    lemma_floor_bounds(x);
    assert(fitting_scale(v, 28) == 28);
}

proof fn lemma_pow10_values()
    ensures
        pow10(27) == 1000000000000000000000000000,
        pow10(28) == 10000000000000000000000000000,
{
    reveal_with_fuel(pow10, 30);
}

/// A value of at least one unit of the finest scale has digits at its fitting scale.
proof fn lemma_fitting_digits(v: real)
    requires
        v * (pow10(28) as real) >= 1real,
    ensures
        v > 0real,
        v * pow10(fitting_scale(v, 28)) as real >= 1real,
        v >= 1real ==> v * pow10(fitting_scale(v, 28)) as real >= pow10(
            fitting_scale(v, 28),
        ) as real,
{
    lemma_pow10_values();
    let top = pow10(28) as real;
    assert(v > 0real) by (nonlinear_arith)
        requires
            v * top >= 1real,
            top > 0real,
    ;
    lemma_fitting_scale_steps(v, 28);
    let s = fitting_scale(v, 28);
    let p = pow10(s) as real;
    let x = v * p;
    lemma_pow10_positive(s);
    if v >= 1real {
        assert(x >= p) by (nonlinear_arith)
            requires
                x == v * p,
                v >= 1real,
                p > 0real,
        ;
    }
    if s < 28 {
        let q = pow10(s + 1) as real;
        assert(pow10(s + 1) == 10 * pow10(s));
        assert(q == 10real * p);
        assert(x * 10real == v * q) by (nonlinear_arith)
            requires
                x == v * p,
                q == 10real * p,
        ;
    }
}

/// A value of at least one, or of at least one unit of the finest scale, stays so.
pub proof fn lemma_rounded_from_below(v: real)
    requires
        fits(v),
    ensures
        v >= 1real ==> signed_parts(v).0 >= pow10(signed_parts(v).1),
        v * (pow10(28) as real) >= 1real ==> signed_parts(v).0 >= 1,
{
    reveal(signed_parts);
    lemma_pow10_values();
    let top = pow10(28) as real;
    if v >= 1real {
        assert(v * top >= 1real) by (nonlinear_arith)
            requires
                v >= 1real,
                top >= 1real,
        ;
    }
    if v * top >= 1real {
        lemma_fitting_digits(v);
        lemma_fitting_scale_bound(v, 28);
        let s = fitting_scale(v, 28);
        let x = v * pow10(s) as real;
        lemma_floor_bounds(x);
        assert(x.floor() >= 1);
        assert(v >= 1real ==> x.floor() >= pow10(s));
        assert(half_even(x) >= x.floor());
        if half_even(x) >= MANTISSA_LIMIT {
            if s > 0 {
                lemma_pow10_grows((s - 1) as nat, 27);
            } else {
                reveal(fits);
                assert(pow10(0) == 1);
                assert(x == v) by (nonlinear_arith)
                    requires
                        x == v * 1real,
                ;
            }
        }
    }
}

proof fn lemma_pow10_grows(a: nat, b: nat)
    requires
        a <= b,
    ensures
        pow10(a) <= pow10(b),
    decreases b,
{
    lemma_pow10_positive(a);
    if a < b {
        lemma_pow10_grows(a, (b - 1) as nat);
    }
}

/// One scale above the fitting one the mantissa would be too large.
proof fn lemma_fitting_scale_steps(v: real, t: nat)
    ensures
        fitting_scale(v, t) <= t,
        fitting_scale(v, t) < t ==> v * pow10(fitting_scale(v, t) + 1) as real
            >= MANTISSA_LIMIT as real,
    decreases t,
{
    if t > 0 {
        lemma_fitting_scale_steps(v, (t - 1) as nat);
        lemma_floor_bounds(v * pow10(t) as real);
    }
}

/// The nearest integer to a number that is at most `n` is at most `n`.
pub proof fn lemma_half_even_below(x: real, n: int)
    requires
        x <= n as real,
    ensures
        half_even(x) <= n,
{
    lemma_floor_bounds(x);
}

/// Rounding a nonnegative value gives no more than any number of the format that is not
/// smaller than the value.
pub proof fn lemma_rounded_stays_below(v: real, m: int, t: nat)
    requires
        0real <= v <= scaled(m, t),
        in_format(m, t),
    ensures
        scaled(signed_parts(v).0, signed_parts(v).1) <= scaled(m, t),
{
    reveal(signed_parts);
    let g = scaled(m, t);
    lemma_fitting_scale_steps(v, MAX_SCALE as nat);
    lemma_fitting_scale_bound(v, MAX_SCALE as nat);
    let s = fitting_scale(v, MAX_SCALE as nat);
    let p = pow10(s) as real;
    lemma_pow10_positive(s);
    if t > s {
        let q = pow10(s + 1) as real;
        let r = pow10(t) as real;
        lemma_pow10_grows(s + 1, t);
        lemma_pow10_positive(s + 1);
        lemma_scaled_product(m, t);
        assert(g * q <= g * r) by (nonlinear_arith)
            requires
                0real <= g,
                q <= r,
        ;
        assert(v * q <= g * q) by (nonlinear_arith)
            requires
                v <= g,
                q > 0real,
        ;
        assert(false);
    }
    let k = m * pow10((s - t) as nat);
    lemma_scaled_units(m, t, s);
    let x = v * p;
    assert(x <= g * p) by (nonlinear_arith)
        requires
            x == v * p,
            v <= g,
            p > 0real,
    ;
    lemma_half_even_below(x, k);
    let h = half_even(x);
    if h < MANTISSA_LIMIT {
        lemma_scaled_order(h, k, s);
    } else {
        if t == s {
            assert(pow10(0) == 1);
            assert(m * pow10(0) == m);
            assert(false);
        }
        let d = (s - t - 1) as nat;
        let j = m * pow10(d);
        assert(m * (10 * pow10(d)) == 10 * (m * pow10(d))) by (nonlinear_arith);
        assert(k == 10 * j);
        assert(j >= 7922816251426433759354395034);
        let e = (s - 1) as nat;
        assert((e - t) as nat == d);
        lemma_scaled_units(m, t, e);
        lemma_scaled_order(7922816251426433759354395034, j, e);
    }
}

} // verus!
