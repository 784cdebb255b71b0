//! Measured quantities such as CPU percentages.
//!
//! A level is an IEEE 754 double, carried by its bit pattern. Levels are
//! compared here; arithmetic on them belongs to whoever measured them.

use vstd::arithmetic::power2::*;
use vstd::prelude::*;

verus! {

/// The weight of the sign bit.
pub const SIGN: u64 = 0x8000_0000_0000_0000;

/// The bit pattern of positive infinity.
pub const INFINITE: u64 = 0x7ff0_0000_0000_0000;

/// The weight of the lowest exponent bit.
pub const FRACTION: u64 = 0x10_0000_0000_0000;

/// A double by its bit pattern.
#[derive(Clone, Copy, PartialEq, Eq, Structural, Debug)]
pub struct Level {
    pub bits: u64,
}

/// The magnitude of the number with the given exponent and fraction fields, in
/// units of the smallest positive double.
pub open spec fn scaled(exponent: nat, fraction: nat) -> nat {
    if exponent == 0 {
        fraction
    } else {
        (FRACTION as nat + fraction) * pow2((exponent - 1) as nat)
    }
}

impl Level {
    /// The bits without the sign.
    pub open spec fn magnitude(self) -> nat {
        if self.bits < SIGN {
            self.bits as nat
        } else {
            (self.bits - SIGN) as nat
        }
    }

    /// The pattern is not a number.
    pub open spec fn nan(self) -> bool {
        self.magnitude() > INFINITE
    }

    /// The pattern is a finite number.
    pub open spec fn finite(self) -> bool {
        self.magnitude() < INFINITE
    }

    /// The place of the number among the doubles; both zeros have place zero.
    pub open spec fn rank(self) -> int {
        if self.bits < SIGN {
            self.magnitude() as int
        } else {
            -(self.magnitude() as int)
        }
    }

    /// The exact number, in units of the smallest positive double.
    pub open spec fn value(self) -> int {
        let m = scaled(self.magnitude() / FRACTION as nat, self.magnitude() % FRACTION as nat);
        if self.bits < SIGN {
            m as int
        } else {
            -(m as int)
        }
    }

    /// `self > other`, as doubles compare.
    pub open spec fn above(self, other: Level) -> bool {
        !self.nan() && !other.nan() && self.rank() > other.rank()
    }

    /// `self >= other`, as doubles compare.
    pub open spec fn not_below(self, other: Level) -> bool {
        !self.nan() && !other.nan() && self.rank() >= other.rank()
    }

    /// The level zero.
    pub fn zero() -> (r: Level)
        ensures
            r.bits == 0,
            r.rank() == 0,
            !r.nan(),
    {
        Level { bits: 0 }
    }

    /// Whether the level is not a number.
    pub fn is_nan(&self) -> (r: bool)
        ensures
            r == self.nan(),
    {
        if self.bits < SIGN {
            self.bits > INFINITE
        } else {
            self.bits - SIGN > INFINITE
        }
    }

    /// Whether `self > other`.
    pub fn exceeds(&self, other: &Level) -> (r: bool)
        ensures
            r == self.above(*other),
    {
        if self.is_nan() || other.is_nan() {
            false
        } else if self.bits < SIGN {
            if other.bits < SIGN {
                self.bits > other.bits
            } else {
                self.bits > 0 || other.bits > SIGN
            }
        } else if other.bits < SIGN {
            false
        } else {
            self.bits < other.bits
        }
    }

    /// Whether `self >= other`.
    pub fn reaches(&self, other: &Level) -> (r: bool)
        ensures
            r == self.not_below(*other),
    {
        !self.is_nan() && !other.is_nan() && !other.exceeds(self)
    }

    /// The greater of two levels; a level that is not a number gives way.
    pub fn max_with(&self, other: &Level) -> (r: Level)
        ensures
            r == *self || r == *other,
            r == (if self.nan() || other.above(*self) { *other } else { *self }),
    {
        if self.is_nan() || other.exceeds(self) {
            *other
        } else {
            *self
        }
    }

    /// The level of a small whole number.
    pub fn whole(n: u8) -> (r: Level)
        ensures
            r == whole_level(n),
    {
        if n == 0 {
            return Level { bits: 0 };
        }
        let (e, p): (u64, u64) = if n < 2 {
            (0, 1)
        } else if n < 4 {
            (1, 2)
        } else if n < 8 {
            (2, 4)
        } else if n < 16 {
            (3, 8)
        } else if n < 32 {
            (4, 16)
        } else if n < 64 {
            (5, 32)
        } else if n < 128 {
            (6, 64)
        } else {
            (7, 128)
        };
        let unit: u64 = FRACTION / p;
        let rest: u64 = n as u64 - p;
        proof {
            whole_levels_are_whole(n);
        }
        Level { bits: (1023 + e) * FRACTION + rest * unit }
    }
}

/// The position of the highest set bit of `n`, and the weight of that bit.
pub open spec fn leading(n: u8) -> (nat, nat) {
    if n < 2 {
        (0, 1)
    } else if n < 4 {
        (1, 2)
    } else if n < 8 {
        (2, 4)
    } else if n < 16 {
        (3, 8)
    } else if n < 32 {
        (4, 16)
    } else if n < 64 {
        (5, 32)
    } else if n < 128 {
        (6, 64)
    } else {
        (7, 128)
    }
}

/// The level of a small whole number.
pub open spec fn whole_level(n: u8) -> Level {
    let (e, p) = leading(n);
    if n == 0 {
        Level { bits: 0 }
    } else {
        Level { bits: ((1023 + e) * FRACTION as nat + (n - p) * (FRACTION as nat / p)) as u64 }
    }
}

/// The level of a whole number stands for exactly that number.
pub proof fn whole_levels_are_whole(n: u8)
    ensures
        whole_level(n).finite(),
        whole_level(n).value() == n * pow2(1074),
        n > 0 ==> (n - leading(n).1) * (FRACTION as nat / leading(n).1) < FRACTION,
{
    if n > 0 {
        let (e, p) = leading(n);
        let unit = FRACTION as nat / p;
        let rest = (n - p) as nat;
        lemma_unit(n);
        assert(rest * unit < p * unit) by (nonlinear_arith)
            requires
                rest < p,
                unit > 0,
        ;
        assert((1023 + e) * FRACTION < SIGN - FRACTION) by (nonlinear_arith)
            requires
                e <= 7,
        ;
        lemma_divide(1023 + e, rest * unit);
        let top = pow2((1022 + e) as nat);
        assert(FRACTION + rest * unit == n * unit) by (nonlinear_arith)
            requires
                p * unit == FRACTION,
                rest == n - p,
        ;
        lemma2_to64();
        assert(unit == pow2((52 - e) as nat)) by {
            lemma_pow2_adds((52 - e) as nat, e as nat);
            assert(p == pow2(e as nat));
            lemma_pow2_adds(26, 26);
            assert(pow2(52) == FRACTION);
            let q = pow2((52 - e) as nat);
            assert(q == unit) by (nonlinear_arith)
                requires
                    q * p == p * unit,
                    p > 0,
            ;
        }
        lemma_pow2_adds((52 - e) as nat, (1022 + e) as nat);
        assert((n * unit) * top == n * (unit * top)) by (nonlinear_arith);
    }
}

/// The weight of the leading bit divides the weight of the exponent.
proof fn lemma_unit(n: u8)
    ensures
        leading(n).1 * (FRACTION as nat / leading(n).1) == FRACTION,
        FRACTION as nat / leading(n).1 > 0,
        n > 0 ==> leading(n).1 <= n < 2 * leading(n).1,
{
    let (p, f) = (leading(n).1, FRACTION as nat);
    assert(p * (f / p) == f && f / p > 0) by (nonlinear_arith)
        requires
            f == 0x10_0000_0000_0000,
            p == 1 || p == 2 || p == 4 || p == 8 || p == 16 || p == 32 || p == 64 || p == 128,
    ;
}

/// Fields packed side by side come apart by division.
pub(crate) proof fn lemma_divide(exponent: nat, fraction: nat)
    requires
        fraction < FRACTION,
    ensures
        (exponent * FRACTION as nat + fraction) / FRACTION as nat == exponent,
        (exponent * FRACTION as nat + fraction) % FRACTION as nat == fraction,
{
    vstd::arithmetic::div_mod::lemma_fundamental_div_mod_converse(
        (exponent * FRACTION as nat + fraction) as int,
        FRACTION as int,
        exponent as int,
        fraction as int,
    );
}

/// A greater magnitude is a greater number.
proof fn lemma_scaled_grows(a: nat, b: nat)
    requires
        a < b,
    ensures
        scaled(a / FRACTION as nat, a % FRACTION as nat) < scaled(b / FRACTION as nat, b % FRACTION as nat),
{
    let f = FRACTION as nat;
    let (ea, fa) = (a / f, a % f);
    let (eb, fb) = (b / f, b % f);
    vstd::arithmetic::div_mod::lemma_fundamental_div_mod(a as int, f as int);
    vstd::arithmetic::div_mod::lemma_fundamental_div_mod(b as int, f as int);
    vstd::arithmetic::div_mod::lemma_mod_bound(a as int, f as int);
    vstd::arithmetic::div_mod::lemma_mod_bound(b as int, f as int);
    if eb < ea {
        assert(f * eb + f <= f * ea) by (nonlinear_arith)
            requires
                eb < ea,
        ;
        assert(false);
    }
    if ea == eb {
        if ea > 0 {
            let p = pow2((ea - 1) as nat);
            lemma_pow2_pos((ea - 1) as nat);
            assert((f + fa) * p < (f + fb) * p) by (nonlinear_arith)
                requires
                    fa < fb,
                    p > 0,
            ;
        }
    } else {
        let q = pow2((eb - 1) as nat);
        lemma_pow2_pos((eb - 1) as nat);
        assert(f <= f * q) by (nonlinear_arith)
            requires
                q >= 1,
        ;
        assert(f * q <= (f + fb) * q) by (nonlinear_arith);
        if ea > 0 {
            let p = pow2((ea - 1) as nat);
            lemma_pow2_pos((ea - 1) as nat);
            lemma2_to64();
            lemma_pow2_adds((ea - 1) as nat, 1);
            assert((f + fa) * p < f * (p * 2)) by (nonlinear_arith)
                requires
                    fa < f,
                    p > 0,
            ;
            if ea < eb - 1 {
                lemma_pow2_strictly_increases(ea, (eb - 1) as nat);
            }
            assert(f * (p * 2) <= f * q) by (nonlinear_arith)
                requires
                    p * 2 <= q,
            ;
        }
    }
}

/// Levels compare as the numbers that they stand for.
pub proof fn levels_compare_as_numbers(a: Level, b: Level)
    requires
        a.finite(),
        b.finite(),
    ensures
        a.above(b) == (a.value() > b.value()),
        a.not_below(b) == (a.value() >= b.value()),
{
    let (ma, mb) = (a.magnitude(), b.magnitude());
    if ma < mb {
        lemma_scaled_grows(ma, mb);
    }
    if mb < ma {
        lemma_scaled_grows(mb, ma);
    }
    if 0 < ma {
        lemma_scaled_grows(0, ma);
    }
    if 0 < mb {
        lemma_scaled_grows(0, mb);
    }
}

/// Whole levels compare as whole numbers.
pub proof fn whole_levels_compare(m: u8, n: u8)
    ensures
        whole_level(m).above(whole_level(n)) == (m > n),
{
    whole_levels_are_whole(m);
    whole_levels_are_whole(n);
    levels_compare_as_numbers(whole_level(m), whole_level(n));
    let p = pow2(1074);
    lemma_pow2_pos(1074);
    assert((m * p > n * p) == (m > n)) by (nonlinear_arith)
        requires
            p > 0,
    ;
}

/// What is not a number is neither above nor below anything; infinity is above every number,
/// and every number above minus infinity.
pub proof fn no_number_compares_with_none(a: Level, b: Level)
    ensures
        a.nan() || b.nan() ==> !a.above(b) && !a.not_below(b),
        !a.nan() && !b.nan() ==> a.above(b) || b.above(a) || a.rank() == b.rank(),
        a.above(b) ==> !b.above(a) && a.not_below(b),
        a.bits == INFINITE && b.finite() ==> a.above(b),
        a.bits == SIGN + INFINITE && b.finite() ==> b.above(a),
        a.nan() <==> a.bits % SIGN > INFINITE,
{
}

} // verus!
