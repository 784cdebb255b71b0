//! Percentages as doubles give them.
//!
//! A percentage is computed in four steps, each of which rounds to the nearest
//! double: both counts become doubles, one is divided by the other, and the
//! quotient is multiplied by a hundred. The steps are carried out on whole
//! numbers; the outcome is the double, bit by bit.

use crate::level;
use crate::level::Level;
use vstd::arithmetic::power2::*;
use vstd::prelude::*;

verus! {

/// A positive number: `mantissa` times two to the power of `exponent`.
pub struct Binary {
    pub mantissa: nat,
    pub exponent: int,
}

/// How often `n` is to be doubled until `n / d` has the 53 binary digits of a
/// double before the point.
pub open spec fn doublings(n: nat, d: nat) -> nat
    decreases 0x20_0000_0000_0000 * d - n,
{
    if n == 0 || n >= 0x10_0000_0000_0000 * d {
        0
    } else {
        1 + doublings(2 * n, d)
    }
}

/// How often `d` is to be doubled until `n / d` has no more than 53 binary digits
/// before the point.
pub open spec fn halvings(n: nat, d: nat) -> nat
    decreases n - d,
{
    if d == 0 || n < 0x20_0000_0000_0000 * d {
        0
    } else {
        1 + halvings(n, 2 * d)
    }
}

/// The whole number nearest to `n / d`; of two that are equally near, the even
/// one.
pub open spec fn half_even(n: nat, d: nat) -> nat {
    let (q, r) = (n / d, n % d);
    if 2 * r < d || (2 * r == d && q % 2 == 0) {
        q
    } else {
        q + 1
    }
}

/// The double nearest to `n / d` times two to the power of `exponent`; of two that
/// are equally near, the one with an even last digit.
pub open spec fn nearest(n: nat, d: nat, exponent: int) -> Binary {
    let (a, b) = (doublings(n, d), halvings(n, d));
    Binary { mantissa: half_even(n * pow2(a), d * pow2(b)), exponent: exponent - a + b }
}

/// The double nearest to the quotient.
pub open spec fn divided(x: Binary, y: Binary) -> Binary {
    nearest(x.mantissa, y.mantissa, x.exponent - y.exponent)
}

/// The double nearest to the product.
pub open spec fn times(x: Binary, n: nat) -> Binary {
    nearest(x.mantissa * n, 1, x.exponent)
}

/// The bit pattern of a double.
pub open spec fn level_of(x: Binary) -> Level {
    Level { bits: ((x.exponent + 1074) * 0x10_0000_0000_0000 + x.mantissa) as u64 }
}

/// `part` as a percentage of `whole`; zero where `whole` is.
pub open spec fn percentage(part: u64, whole: u64) -> Level {
    if part == 0 || whole == 0 {
        Level { bits: 0 }
    } else {
        level_of(times(divided(nearest(part as nat, 1, 0), nearest(whole as nat, 1, 0)), 100))
    }
}

/// A positive number that a double can hold.
struct Double {
    mantissa: u64,
    exponent: i64,
}

impl Double {
    spec fn is(self, b: Binary) -> bool {
        self.mantissa == b.mantissa && self.exponent == b.exponent
    }
}

/// What is doubled grows past every power of two.
proof fn lemma_short(a: nat, n: nat)
    requires
        pow2(a) <= n,
        n <= u128::MAX,
    ensures
        a < 128,
{
    if a >= 128 {
        if a > 128 {
            lemma_pow2_strictly_increases(128, a);
        }
        lemma2_to64();
        lemma_pow2_adds(64, 64);
    }
}

/// A quotient of 53 digits stays one when it is rounded, but for the next power of
/// two.
proof fn lemma_half_even(n: nat, d: nat)
    requires
        d > 0,
        0x10_0000_0000_0000 * d <= n < 0x20_0000_0000_0000 * d,
    ensures
        0x10_0000_0000_0000 <= half_even(n, d) <= 0x20_0000_0000_0000,
{
    let q = (n / d) as int;
    assert(0x10_0000_0000_0000 <= q < 0x20_0000_0000_0000) by (nonlinear_arith)
        requires
            d > 0,
            0x10_0000_0000_0000 * d <= n < 0x20_0000_0000_0000 * d,
            q == n as int / d as int,
    ;
}

/// The double nearest to `n / d` times two to the power of `exponent`.
fn nearest_of(n: u64, d: u64, exponent: i64) -> (r: Double)
    requires
        n > 0,
        d > 0,
        -1000 <= exponent <= 1000,
    ensures
        r.is(nearest(n as nat, d as nat, exponent as int)),
        0x10_0000_0000_0000 <= r.mantissa <= 0x20_0000_0000_0000,
        exponent - 128 <= r.exponent <= exponent + 128,
{
    let mut num: u128 = n as u128;
    let mut den: u128 = d as u128;
    let mut a: i64 = 0;
    let mut b: i64 = 0;
    proof {
        lemma2_to64();
        assert(n * pow2(0) == n) by (nonlinear_arith)
            requires
                pow2(0) == 1,
        ;
        assert(d * pow2(0) == d) by (nonlinear_arith)
            requires
                pow2(0) == 1,
        ;
    }
    while num < 0x10_0000_0000_0000 * den
        invariant
            n > 0,
            d > 0,
            den == d,
            num > 0,
            a >= 0,
            num == n * pow2(a as nat),
            pow2(a as nat) <= num,
            num < 0x20_0000_0000_0000 * den || a == 0,
            doublings(n as nat, d as nat) == a + doublings(num as nat, den as nat),
            a > 0 ==> n < 0x10_0000_0000_0000 * d,
            a <= 128,
        decreases 0x20_0000_0000_0000 * den - num,
    {
        proof {
            lemma_pow2_unfold((a + 1) as nat);
            lemma_short(a as nat, num as nat);
            assert(n * (2 * pow2(a as nat)) == 2 * (n * pow2(a as nat))) by (nonlinear_arith);
        }
        num = num * 2;
        a = a + 1;
    }
    proof {
        assert(doublings(num as nat, den as nat) == 0);
        if a > 0 {
            assert(halvings(n as nat, d as nat) == 0);
        } else {
            assert(num == n);
        }
    }
    while num >= 0x20_0000_0000_0000 * den
        invariant
            n > 0,
            d > 0,
            den > 0,
            a >= 0,
            b >= 0,
            a == 0 ==> num == n,
            a > 0 ==> b == 0 && num < 0x20_0000_0000_0000 * den && halvings(n as nat, d as nat) == 0,
            num >= 0x10_0000_0000_0000 * den,
            num < 0x20_0000_0000_0000 * 0x1_0000_0000_0000_0000,
            den <= u64::MAX,
            den == d * pow2(b as nat),
            pow2(b as nat) <= den,
            a == 0 ==> halvings(n as nat, d as nat) == b + halvings(num as nat, den as nat),
            b <= 128,
        decreases num - den,
    {
        proof {
            lemma_pow2_unfold((b + 1) as nat);
            lemma_short(b as nat, den as nat);
            assert(d * (2 * pow2(b as nat)) == 2 * (d * pow2(b as nat))) by (nonlinear_arith);
        }
        den = den * 2;
        b = b + 1;
    }
    let q: u128 = num / den;
    let rest: u128 = num % den;
    proof {
        lemma_half_even(num as nat, den as nat);
    }
    let m: u128 = if 2 * rest < den || (2 * rest == den && q % 2 == 0) {
        q
    } else {
        q + 1
    };
    assert(m == half_even(num as nat, den as nat));
    Double { mantissa: m as u64, exponent: exponent - a + b }
}

/// `part` as a percentage of `whole`; zero where `whole` is.
pub fn percentage_of(part: u64, whole: u64) -> (r: Level)
    ensures
        r == percentage(part, whole),
{
    if part == 0 || whole == 0 {
        return Level::zero();
    }
    let p: Double = nearest_of(part, 1, 0);
    let w: Double = nearest_of(whole, 1, 0);
    let q: Double = nearest_of(p.mantissa, w.mantissa, p.exponent - w.exponent);
    let r: Double = nearest_of(q.mantissa * 100, 1, q.exponent);
    Level { bits: (r.exponent + 1074) as u64 * 0x10_0000_0000_0000 + r.mantissa }
}

/// Doubling goes on until the quotient has enough digits, and no further.
proof fn lemma_doublings(n: nat, d: nat)
    requires
        0 < n < 0x20_0000_0000_0000 * d,
    ensures
        0x10_0000_0000_0000 * d <= n * pow2(doublings(n, d)) < 0x20_0000_0000_0000 * d,
    decreases 0x20_0000_0000_0000 * d - n,
{
    lemma2_to64();
    if n < 0x10_0000_0000_0000 * d {
        lemma_doublings(2 * n, d);
        let p = pow2(doublings(2 * n, d));
        lemma_pow2_unfold(doublings(n, d));
        assert(n * (2 * p) == (2 * n) * p) by (nonlinear_arith);
    } else {
        assert(n * pow2(0) == n) by (nonlinear_arith)
            requires
                pow2(0) == 1,
        ;
    }
}

/// Halving goes on until the quotient has few enough digits, and no further.
proof fn lemma_halvings(n: nat, d: nat)
    requires
        0 < d,
        0x10_0000_0000_0000 * d <= n,
    ensures
        0x10_0000_0000_0000 * (d * pow2(halvings(n, d))) <= n < 0x20_0000_0000_0000 * (d * pow2(halvings(n, d))),
    decreases n - d,
{
    lemma2_to64();
    if n >= 0x20_0000_0000_0000 * d {
        lemma_halvings(n, 2 * d);
        let p = pow2(halvings(n, 2 * d));
        lemma_pow2_unfold(halvings(n, d));
        assert(d * (2 * p) == (2 * d) * p) by (nonlinear_arith);
    } else {
        assert(d * pow2(0) == d) by (nonlinear_arith)
            requires
                pow2(0) == 1,
        ;
    }
}

/// Rounding keeps the 53 digits of a double, and no number with as many digits is
/// nearer: the error is at most half of the last digit.
pub proof fn rounding_is_to_the_nearest(n: nat, d: nat, exponent: int)
    requires
        n > 0,
        d > 0,
    ensures
        ({
            let r = nearest(n, d, exponent);
            let (num, den) = (n * pow2(doublings(n, d)), d * pow2(halvings(n, d)));
            &&& 0x10_0000_0000_0000 <= r.mantissa <= 0x20_0000_0000_0000
            &&& 2 * (num - r.mantissa * den) <= den
            &&& 2 * (r.mantissa * den - num) <= den
        }),
{
    lemma2_to64();
    let (a, b) = (doublings(n, d), halvings(n, d));
    let (num, den) = (n * pow2(a), d * pow2(b));
    if n < 0x20_0000_0000_0000 * d {
        lemma_doublings(n, d);
        assert(d * pow2(0) == d) by (nonlinear_arith)
            requires
                pow2(0) == 1,
        ;
    } else {
        lemma_halvings(n, d);
        assert(n * pow2(0) == n) by (nonlinear_arith)
            requires
                pow2(0) == 1,
        ;
    }
    assert(den > 0) by (nonlinear_arith)
        requires
            0x10_0000_0000_0000 * den <= num < 0x20_0000_0000_0000 * den,
    ;
    lemma_half_even(num, den);
    vstd::arithmetic::div_mod::lemma_fundamental_div_mod(num as int, den as int);
    let (q, r) = (num / den, num % den);
    assert((q + 1) * den == den * q + den) by (nonlinear_arith);
    assert(q * den == den * q) by (nonlinear_arith);
}

/// The bit pattern of a double stands for exactly its number.
pub proof fn levels_hold_their_numbers(x: Binary)
    requires
        0x10_0000_0000_0000 <= x.mantissa <= 0x20_0000_0000_0000,
        -1074 <= x.exponent <= 900,
    ensures
        level_of(x).finite(),
        level_of(x).value() == x.mantissa * pow2((x.exponent + 1074) as nat),
{
    let e = (x.exponent + 1074) as nat;
    let f = 0x10_0000_0000_0000nat;
    lemma_pow2_unfold(e + 1);
    if x.mantissa == 2 * f {
        level::lemma_divide(e + 2, 0);
        assert(f * (2 * pow2(e)) == (2 * f) * pow2(e)) by (nonlinear_arith);
    } else {
        level::lemma_divide(e + 1, (x.mantissa - f) as nat);
    }
}

/// The number of doublings is told by where the quotient comes to lie.
proof fn lemma_doublings_are(n: nat, d: nat, k: nat)
    requires
        n > 0,
        0x10_0000_0000_0000 * d <= n * pow2(k) < 0x20_0000_0000_0000 * d,
    ensures
        doublings(n, d) == k,
    decreases k,
{
    lemma2_to64();
    if k == 0 {
        assert(n * pow2(0) == n) by (nonlinear_arith)
            requires
                pow2(0) == 1,
        ;
    } else {
        lemma_pow2_unfold(k);
        let p = pow2((k - 1) as nat);
        lemma_pow2_pos((k - 1) as nat);
        assert(n * (2 * p) == (2 * n) * p) by (nonlinear_arith);
        assert(n * (2 * p) == 2 * (n * p)) by (nonlinear_arith);
        assert(n <= n * p) by (nonlinear_arith)
            requires
                p >= 1,
        ;
        lemma_doublings_are(2 * n, d, (k - 1) as nat);
    }
}

/// All of something is a hundred percent of it, and nothing of it is zero; without a whole
/// there is no percentage.
pub proof fn all_is_a_hundred_percent(whole: u64)
    requires
        whole > 0,
    ensures
        percentage(whole, whole) == level::whole_level(100),
        percentage(0, whole).bits == 0,
        percentage(whole, 0).bits == 0,
{
    lemma2_to64();
    let x = nearest(whole as nat, 1, 0);
    rounding_is_to_the_nearest(whole as nat, 1, 0);
    let m = x.mantissa;
    let f = 0x10_0000_0000_0000nat;
    assert(pow2(52) == f) by {
        lemma_pow2_adds(26, 26);
    }
    assert(f * m <= m * f < 0x20_0000_0000_0000 * m) by (nonlinear_arith)
        requires
            m > 0,
            f == 0x10_0000_0000_0000,
    ;
    lemma_doublings_are(m, m, 52);
    assert(halvings(m, m) == 0);
    assert(m * pow2(0) == m) by (nonlinear_arith)
        requires
            pow2(0) == 1,
    ;
    assert((m * f) / m == f && (m * f) % m == 0) by (nonlinear_arith)
        requires
            m > 0,
    ;
    let one = divided(x, x);
    assert(one.mantissa == f && one.exponent == -52);
    let n = f * 100;
    assert(doublings(n, 1) == 0);
    reveal_with_fuel(halvings, 8);
    assert(halvings(n, 1) == 6);
    assert(n * pow2(0) == n) by (nonlinear_arith)
        requires
            pow2(0) == 1,
    ;
    assert(half_even(n, 64) == 100 * 0x4000_0000_0000);
    let all = times(one, 100);
    assert(all.mantissa == 100 * 0x4000_0000_0000 && all.exponent == -46);
    assert(level::leading(100) == (6nat, 64nat));
    assert(level::FRACTION as nat / 64 == 0x4000_0000_0000);
    assert((1023 + 6) * level::FRACTION as nat + (100 - 64) * 0x4000_0000_0000 == (-46 + 1074) * 0x10_0000_0000_0000
        + 100 * 0x4000_0000_0000);
}

} // verus!
