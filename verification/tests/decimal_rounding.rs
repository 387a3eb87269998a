use hft_bot::decimal::Decimal;

const WORDS: usize = 8;
const LIMIT: i128 = 79228162514264337593543950336;
const CARRIED: i128 = 7922816251426433759354395034;

#[derive(Clone, Copy, PartialEq, Debug)]
struct Wide([u64; WORDS]);

impl Wide {
    fn of(value: u128) -> Wide {
        let mut words = [0; WORDS];
        words[0] = value as u64;
        words[1] = (value >> 64) as u64;
        Wide(words)
    }

    fn less(&self, other: &Wide) -> bool {
        for i in (0..WORDS).rev() {
            if self.0[i] != other.0[i] {
                return self.0[i] < other.0[i];
            }
        }
        false
    }

    fn plus(&self, other: &Wide) -> Wide {
        let mut words = [0; WORDS];
        let mut carry: u128 = 0;
        for i in 0..WORDS {
            let sum = self.0[i] as u128 + other.0[i] as u128 + carry;
            words[i] = sum as u64;
            carry = sum >> 64;
        }
        assert_eq!(carry, 0);
        Wide(words)
    }

    fn minus(&self, other: &Wide) -> Wide {
        let mut words = [0; WORDS];
        let mut borrow: i128 = 0;
        for i in 0..WORDS {
            let mut difference = self.0[i] as i128 - other.0[i] as i128 - borrow;
            borrow = 0;
            if difference < 0 {
                difference += 1 << 64;
                borrow = 1;
            }
            words[i] = difference as u64;
        }
        assert_eq!(borrow, 0);
        Wide(words)
    }

    fn times(&self, factor: u64) -> Wide {
        let mut words = [0; WORDS];
        let mut carry: u128 = 0;
        for i in 0..WORDS {
            let product = self.0[i] as u128 * factor as u128 + carry;
            words[i] = product as u64;
            carry = product >> 64;
        }
        assert_eq!(carry, 0);
        Wide(words)
    }

    fn shifted(&self, exponent: u32) -> Wide {
        let mut r = *self;
        for _ in 0..exponent {
            r = r.times(10);
        }
        r
    }

    fn product(a: u128, b: u128) -> Wide {
        let low = Wide::of(a).times(b as u64);
        let high = Wide::of(a).times((b >> 64) as u64);
        let mut words = [0; WORDS];
        words[1..].copy_from_slice(&high.0[..WORDS - 1]);
        low.plus(&Wide(words))
    }

    fn divided(&self, divisor: &Wide) -> (Wide, Wide) {
        let mut quotient = [0; WORDS];
        let mut rest = Wide::of(0);
        for bit in (0..WORDS * 64).rev() {
            rest = rest.plus(&rest);
            if self.0[bit / 64] >> (bit % 64) & 1 == 1 {
                rest = rest.plus(&Wide::of(1));
            }
            if !rest.less(divisor) {
                rest = rest.minus(divisor);
                quotient[bit / 64] |= 1 << (bit % 64);
            }
        }
        (Wide(quotient), rest)
    }

    fn as_mantissa(&self) -> Option<i128> {
        if self.less(&Wide::of(LIMIT as u128)) {
            Some(((self.0[1] as i128) << 64) + self.0[0] as i128)
        } else {
            None
        }
    }
}

fn nearest(numerator: &Wide, denominator: &Wide) -> Option<(i128, u32)> {
    for scale in (0..=28).rev() {
        let (quotient, rest) = numerator.shifted(scale).divided(denominator);
        let floor = match quotient.as_mantissa() {
            Some(floor) => floor,
            None => continue,
        };
        let twice = rest.plus(&rest);
        let up = denominator.less(&twice) || (twice == *denominator && floor % 2 == 1);
        let rounded = if up { floor + 1 } else { floor };
        if rounded < LIMIT {
            return Some((rounded, scale));
        }
        return if scale > 0 { Some((CARRIED, scale - 1)) } else { None };
    }
    None
}

fn checked(expected: Option<(i128, u32)>, negative: bool) -> Option<Decimal> {
    expected.map(|(m, s)| Decimal::from_parts(if negative { -m } else { m }, s).unwrap())
}

struct Source(u64);

impl Source {
    fn word(&mut self) -> u64 {
        self.0 = self.0.wrapping_mul(6364136223846793005).wrapping_add(1442695040888963407);
        let x = self.0 ^ (self.0 >> 29);
        x.wrapping_mul(0xbf58476d1ce4e5b9) ^ (x >> 32)
    }

    fn number(&mut self) -> (i128, u32) {
        let bits = self.word() % 97;
        let raw = ((self.word() as u128) << 64) | self.word() as u128;
        let mut magnitude = if bits == 0 { 0 } else { (raw >> (128 - bits)) as i128 };
        if self.word() % 4 == 0 {
            magnitude = LIMIT - 1 - magnitude % 7;
        }
        let scale = (self.word() % 29) as u32;
        (if self.word() % 2 == 0 { magnitude } else { -magnitude }, scale)
    }

    /// A number next to a multiple of many twos and fives, or to a part of the limit.
    fn round_number(&mut self) -> (i128, u32) {
        let mut magnitude = match self.word() % 4 {
            0 => LIMIT / 10i128.pow((self.word() % 28) as u32),
            1 => LIMIT / 5i128.pow((self.word() % 40) as u32),
            _ => 1 + (self.word() % 1000) as i128,
        };
        while magnitude < LIMIT / 10 && self.word() % 16 != 0 {
            magnitude *= [2, 5, 10, 10][(self.word() % 4) as usize];
        }
        magnitude += (self.word() % 3) as i128 * ((self.word() % 2) as i128);
        let magnitude = magnitude.min(LIMIT - 1);
        let scale = (self.word() % 29) as u32;
        (if self.word() % 2 == 0 { magnitude } else { -magnitude }, scale)
    }
}

fn is_unsettled(numerator: &Wide, denominator: &Wide, divisor: i128) -> bool {
    if divisor.unsigned_abs() < 1 << 64 {
        return false;
    }
    for scale in (1..=28).rev() {
        let (units, rest) = numerator.shifted(scale).divided(denominator);
        if units.as_mantissa().is_some() {
            return false;
        }
        let before = numerator.shifted(scale - 1).divided(denominator).0;
        if before.as_mantissa().is_some() {
            let last = units.divided(&Wide::of(20)).1;
            return rest == Wide::of(0)
                && last == Wide::of(5)
                && units.less(&Wide::of(LIMIT as u128 + 1_000_000_000));
        }
    }
    false
}

fn check_operations(seed: u64, count: usize, number: fn(&mut Source) -> (i128, u32)) {
    let mut source = Source(seed);
    let mut done = 0;
    for _ in 0..count {
        let (m, s) = number(&mut source);
        let (n, t) = number(&mut source);
        let a = Decimal::from_parts(m, s).unwrap();
        let b = Decimal::from_parts(n, t).unwrap();
        let x = Wide::of(m.unsigned_abs()).shifted(t);
        let y = Wide::of(n.unsigned_abs()).shifted(s);
        let unit = Wide::of(1).shifted(s + t);

        assert_eq!(a.lt(b), if m < 0 && n < 0 {
            y.less(&x)
        } else if m >= 0 && n >= 0 {
            x.less(&y)
        } else {
            m < n
        });

        for flip in [false, true] {
            let n_negative = (n < 0) != flip;
            let (total, negative) = if (m < 0) == n_negative {
                (x.plus(&y), m < 0)
            } else if x.less(&y) {
                (y.minus(&x), n_negative)
            } else {
                (x.minus(&y), m < 0)
            };
            if let Some(expected) = checked(nearest(&total, &unit), negative) {
                assert_eq!(if flip { a.minus(b) } else { a.plus(b) }, expected);
                done += 1;
            }
        }

        let negative = (m < 0) != (n < 0);
        let product = Wide::product(m.unsigned_abs(), n.unsigned_abs());
        if let Some(expected) = checked(nearest(&product, &unit), negative) {
            assert_eq!(a.times(b), expected);
            done += 1;
        }
        let (k, _) = b.parts();
        if n != 0 && !is_unsettled(&x, &y, k) {
            if let Some(expected) = checked(nearest(&x, &y), negative) {
                assert_eq!(a.over(b), expected);
                done += 1;
            }
        }
    }
    assert!(done > 2 * count);
}

#[test]
fn operations_round_the_exact_result() {
    check_operations(20260522, 1500, Source::number);
}

#[test]
fn operations_round_round_numbers_too() {
    check_operations(20260523, 1500, Source::round_number);
}

#[test]
fn ties_of_quotients_go_to_the_even_digit_but_for_a_few() {
    let mut settled = 0;
    let mut past = 0;
    for step in [0, 1, 2, 3, 10, 11, 777, 99_999_998, 99_999_999, 100_000_000, 150_000_001] {
        // The exact quotient is `tie` over ten to the `exponent + 1`.
        let tie: i128 = LIMIT + 9 + 10 * step;
        assert_eq!(tie % 10, 5);
        for exponent in 0..27u32 {
            for factor in [2i128, 4, 6, 8] {
                let divisor = factor * 10i128.pow(exponent);
                if divisor >= LIMIT || (tie / 5) * (factor / 2) >= LIMIT {
                    continue;
                }
                let a = Decimal::from_parts((tie / 5) * (factor / 2), 0).unwrap();
                let b = Decimal::from_parts(divisor, 0).unwrap();
                let below = tie / 10;
                let even = Decimal::from_parts(below + below % 2, exponent).unwrap();
                let next = Decimal::from_parts(below + below % 2 + 1, exponent).unwrap();
                let quotient = a.over(b);
                if divisor >= 1 << 64 && tie % 20 == 5 && tie < LIMIT + 1_000_000_000 {
                    assert!(quotient == even || quotient == next);
                    if quotient == next {
                        past += 1;
                    }
                } else {
                    assert_eq!(quotient, even);
                    settled += 1;
                }
            }
        }
    }
    assert!(settled > 300);
    assert!(past > 0);
}

#[test]
fn a_tie_of_a_wide_divisor_can_miss_the_even_digit() {
    let a = Decimal::from_parts(15845632502852867518708790069, 0).unwrap();
    let b = Decimal::from_parts(200000000000000000000000000, 0).unwrap();
    let quotient = a.over(b);
    assert_eq!(quotient, Decimal::from_parts(7922816251426433759354395035, 26).unwrap());
    let even = Decimal::from_parts(7922816251426433759354395034, 0).unwrap();
    assert_eq!(a.over(Decimal::new(2, 0)), even);
}
