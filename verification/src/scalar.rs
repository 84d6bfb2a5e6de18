//! Exact scalar arithmetic for the simulation.
//!
//! A `Scalar` is a signed binary floating-point value `(-1)^neg * mant * 2^exp`
//! with a 53-bit canonical mantissa. Every operation (add, sub, mul, div,
//! sqrt, comparisons) is deterministic, total over well-formed inputs, and has
//! an exact specification: the result is pinned down bit for bit by the
//! `spec_*` functions, so the physics kernels built on top of it have exact
//! contracts rather than error bounds.

use vstd::prelude::*;

verus! {

use vstd::arithmetic::power2::pow2;
use vstd::arithmetic::power2::lemma2_to64;
use vstd::arithmetic::power2::lemma2_to64_rest;
use vstd::arithmetic::power2::lemma_pow2_adds;
use vstd::arithmetic::power2::lemma_pow2_strictly_increases;
use vstd::arithmetic::mul::lemma_mul_strict_upper_bound;
use vstd::arithmetic::mul::lemma_mul_inequality;

/// Smallest canonical mantissa, 2^52.
pub const MIN_MANT: u64 = 0x10_0000_0000_0000;
/// One past the largest canonical mantissa, 2^53.
pub const MAX_MANT: u64 = 0x20_0000_0000_0000;
/// Largest exponent magnitude a well-formed scalar may carry.
pub const EXP_LIMIT: i64 = 600_000;

/// A signed binary floating-point number with exact integer semantics:
/// the value represented is `(if neg { -1 } else { 1 }) * mant * 2^exp`.
#[derive(Clone, Copy, Debug, PartialEq, Eq, Structural)]
pub struct Scalar {
    pub neg: bool,
    pub mant: u64,
    pub exp: i64,
}

/// Concrete values of the powers of two this module reasons about.
pub proof fn lemma_pow2_facts()
    ensures
        pow2(0) == 1,
        pow2(1) == 2,
        pow2(52) == MIN_MANT,
        pow2(53) == MAX_MANT,
        pow2(54) == 0x40_0000_0000_0000,
        pow2(55) == 0x80_0000_0000_0000,
        pow2(63) == 0x8000_0000_0000_0000,
        pow2(64) == 0x1_0000_0000_0000_0000,
        pow2(76) == 0x1000_0000_0000_0000_0000,
        pow2(106) == 0x400_0000_0000_0000_0000_0000_0000,
        pow2(128) == 0x1_0000_0000_0000_0000_0000_0000_0000_0000,
{
    lemma2_to64();
    lemma2_to64_rest();
    lemma_pow2_adds(52, 1);
    lemma_pow2_adds(53, 1);
    lemma_pow2_adds(54, 1);
    lemma_pow2_adds(64, 12);
    lemma_pow2_adds(64, 42);
    lemma_pow2_adds(64, 64);
}

/// Mantissa normalization, shrinking phase: halve (truncating) until the
/// mantissa is below `MAX_MANT`, raising the exponent accordingly.
pub open spec fn spec_shrink(m: nat, e: int) -> (nat, int)
    decreases m,
{
    if m < MAX_MANT { (m, e) } else { spec_shrink(m / 2, e + 1) }
}

/// Mantissa normalization, growing phase: double until the mantissa reaches
/// `MIN_MANT`, lowering the exponent accordingly.
pub open spec fn spec_grow(m: nat, e: int) -> (nat, int)
    decreases (if m < MIN_MANT { MIN_MANT - m } else { 0int })
        when 0 < m
{
    if m >= MIN_MANT { (m, e) } else { spec_grow(m * 2, e - 1) }
}

impl Scalar {
    /// Well-formedness: zero is canonical (positive sign, zero exponent);
    /// a nonzero value has a canonical mantissa and a bounded exponent.
    pub open spec fn wf(self) -> bool {
        &&& (self.mant == 0 ==> !self.neg && self.exp == 0)
        &&& (self.mant != 0 ==> MIN_MANT <= self.mant < MAX_MANT
                && -(EXP_LIMIT as int) <= self.exp as int <= EXP_LIMIT as int)
    }

    pub open spec fn spec_zero() -> Scalar {
        Scalar { neg: false, mant: 0, exp: 0 }
    }

    pub open spec fn spec_is_zero(self) -> bool {
        self.mant == 0
    }

    /// Canonicalize `(-1)^neg * m * 2^e`: normalize the mantissa, then
    /// saturate an exponent above `EXP_LIMIT` and flush one below `-EXP_LIMIT`
    /// to zero.
    pub open spec fn spec_norm(neg: bool, m: nat, e: int) -> Scalar {
        if m == 0 {
            Scalar::spec_zero()
        } else {
            let se = spec_shrink(m, e);
            let ge = spec_grow(se.0, se.1);
            if ge.1 > EXP_LIMIT as int {
                Scalar { neg, mant: (MAX_MANT - 1) as u64, exp: EXP_LIMIT }
            } else if ge.1 < -(EXP_LIMIT as int) {
                Scalar::spec_zero()
            } else {
                Scalar { neg, mant: ge.0 as u64, exp: ge.1 as i64 }
            }
        }
    }

    /// Sign of the represented value: -1, 0 or 1.
    pub open spec fn sgn(self) -> int {
        if self.mant == 0 { 0 } else if self.neg { -1 } else { 1 }
    }

    /// The represented value as an integer multiple of `2^base`; meaningful
    /// when `base <= self.exp`.
    pub open spec fn scaled(self, base: int) -> int {
        self.sgn() * (self.mant as int) * (pow2((self.exp - base) as nat) as int)
    }

    /// Value order on scalars, stated over the represented values brought to
    /// a common power-of-two base.
    pub open spec fn spec_lt(a: Scalar, b: Scalar) -> bool {
        let base = if a.exp <= b.exp { a.exp as int } else { b.exp as int };
        a.scaled(base) < b.scaled(base)
    }

    pub open spec fn spec_le(a: Scalar, b: Scalar) -> bool {
        let base = if a.exp <= b.exp { a.exp as int } else { b.exp as int };
        a.scaled(base) <= b.scaled(base)
    }

    pub open spec fn spec_neg(self) -> Scalar {
        if self.mant == 0 { self } else { Scalar { neg: !self.neg, mant: self.mant, exp: self.exp } }
    }

    pub open spec fn spec_abs(self) -> Scalar {
        Scalar { neg: false, mant: self.mant, exp: self.exp }
    }

    pub open spec fn spec_from_int(v: int) -> Scalar {
        Scalar::spec_norm(v < 0, (if v < 0 { -v } else { v }) as nat, 0)
    }

    /// Truncating addition: the smaller operand's mantissa is aligned to the
    /// larger exponent (dropped entirely beyond 120 binary places), mantissas
    /// are combined by sign, and the result is normalized.
    pub open spec fn spec_add(a: Scalar, b: Scalar) -> Scalar {
        if a.mant == 0 {
            b
        } else if b.mant == 0 {
            a
        } else {
            let hi = if a.exp >= b.exp { a } else { b };
            let lo = if a.exp >= b.exp { b } else { a };
            let d = hi.exp - lo.exp;
            if d > 120 {
                hi
            } else {
                let mlo = (lo.mant as nat) / pow2(d as nat);
                if hi.neg == lo.neg {
                    Scalar::spec_norm(hi.neg, (hi.mant + mlo) as nat, hi.exp as int)
                } else if (hi.mant as nat) > mlo {
                    Scalar::spec_norm(hi.neg, (hi.mant - mlo) as nat, hi.exp as int)
                } else if mlo > hi.mant as nat {
                    Scalar::spec_norm(lo.neg, (mlo - hi.mant) as nat, hi.exp as int)
                } else {
                    Scalar::spec_zero()
                }
            }
        }
    }

    pub open spec fn spec_sub(a: Scalar, b: Scalar) -> Scalar {
        Scalar::spec_add(a, b.spec_neg())
    }

    pub open spec fn spec_mul(a: Scalar, b: Scalar) -> Scalar {
        if a.mant == 0 || b.mant == 0 {
            Scalar::spec_zero()
        } else {
            Scalar::spec_norm(a.neg != b.neg, (a.mant as nat) * (b.mant as nat),
                a.exp as int + b.exp as int)
        }
    }

    /// Truncating division (the divisor must be nonzero).
    pub open spec fn spec_div(a: Scalar, b: Scalar) -> Scalar {
        if a.mant == 0 {
            Scalar::spec_zero()
        } else {
            Scalar::spec_norm(a.neg != b.neg, ((a.mant as nat) * pow2(53)) / (b.mant as nat),
                a.exp as int - b.exp as int - 53)
        }
    }

    /// The integer square root: the unique `r` with `r^2 <= n < (r+1)^2`.
    pub open spec fn spec_isqrt(n: nat) -> nat {
        choose|r: nat| #![trigger r * r] r * r <= n < (r + 1) * (r + 1)
    }

    /// Truncating square root of a nonnegative scalar: widen the mantissa to
    /// an even exponent, take the integer square root, normalize.
    pub open spec fn spec_sqrt(a: Scalar) -> Scalar {
        if a.mant == 0 {
            Scalar::spec_zero()
        } else {
            let me: nat = if a.exp as int % 2 == 0 {
                (a.mant as nat) * pow2(54)
            } else {
                (a.mant as nat) * pow2(55)
            };
            let ee: int = if a.exp as int % 2 == 0 { a.exp as int - 54 } else { a.exp as int - 55 };
            Scalar::spec_norm(false, Scalar::spec_isqrt(me), ee / 2)
        }
    }

    pub open spec fn spec_max(a: Scalar, b: Scalar) -> Scalar {
        if Scalar::spec_lt(a, b) { b } else { a }
    }

    pub open spec fn spec_min(a: Scalar, b: Scalar) -> Scalar {
        if Scalar::spec_lt(b, a) { b } else { a }
    }

    /// The value one half, in canonical form.
    pub open spec fn spec_half() -> Scalar {
        Scalar { neg: false, mant: MIN_MANT, exp: -53i64 }
    }

    pub fn half() -> (s: Scalar)
        ensures
            s == Scalar::spec_half(),
            s.wf(),
    {
        Scalar { neg: false, mant: MIN_MANT, exp: -53 }
    }

    pub fn zero() -> (s: Scalar)
        ensures
            s == Scalar::spec_zero(),
            s.wf(),
    {
        Scalar { neg: false, mant: 0, exp: 0 }
    }

    pub fn is_zero(&self) -> (b: bool)
        ensures
            b == self.spec_is_zero(),
    {
        self.mant == 0
    }

    pub fn negate(self) -> (s: Scalar)
        requires
            self.wf(),
        ensures
            s == self.spec_neg(),
            s.wf(),
    {
        if self.mant == 0 {
            self
        } else {
            Scalar { neg: !self.neg, mant: self.mant, exp: self.exp }
        }
    }

    pub fn abs(self) -> (s: Scalar)
        requires
            self.wf(),
        ensures
            s == self.spec_abs(),
            s.wf(),
    {
        Scalar { neg: false, mant: self.mant, exp: self.exp }
    }

    /// Build the scalar for an integer value.
    pub fn from_int(v: i128) -> (s: Scalar)
        requires
            v != i128::MIN,
        ensures
            s == Scalar::spec_from_int(v as int),
            s.wf(),
            s.spec_is_zero() <==> v == 0,
    {
        let neg = v < 0;
        let mag: u128 = if v < 0 { (-v) as u128 } else { v as u128 };
        normalize(neg, mag, 0)
    }

    /// Build the scalar for the ratio of two integers.
    pub fn from_ratio(n: i128, d: i128) -> (s: Scalar)
        requires
            n != i128::MIN,
            d != i128::MIN,
            d != 0,
        ensures
            s == Scalar::spec_div(Scalar::spec_from_int(n as int), Scalar::spec_from_int(d as int)),
            s.wf(),
    {
        let a = Scalar::from_int(n);
        let b = Scalar::from_int(d);
        a.div(b)
    }

    pub fn add(self, other: Scalar) -> (s: Scalar)
        requires
            self.wf(),
            other.wf(),
        ensures
            s == Scalar::spec_add(self, other),
            s.wf(),
    {
        if self.mant == 0 {
            return other;
        }
        if other.mant == 0 {
            return self;
        }
        let hi = if self.exp >= other.exp { self } else { other };
        let lo = if self.exp >= other.exp { other } else { self };
        let d = hi.exp - lo.exp;
        if d > 120 {
            return hi;
        }
        let pw = pow2_exec(d as u64);
        proof {
            vstd::arithmetic::power2::lemma_pow2_pos(d as nat);
        }
        let mlo: u128 = (lo.mant as u128) / pw;
        if hi.neg == lo.neg {
            normalize(hi.neg, hi.mant as u128 + mlo, hi.exp)
        } else if (hi.mant as u128) > mlo {
            normalize(hi.neg, hi.mant as u128 - mlo, hi.exp)
        } else if mlo > hi.mant as u128 {
            normalize(lo.neg, mlo - hi.mant as u128, hi.exp)
        } else {
            Scalar::zero()
        }
    }

    pub fn sub(self, other: Scalar) -> (s: Scalar)
        requires
            self.wf(),
            other.wf(),
        ensures
            s == Scalar::spec_sub(self, other),
            s.wf(),
    {
        self.add(other.negate())
    }

    pub fn mul(self, other: Scalar) -> (s: Scalar)
        requires
            self.wf(),
            other.wf(),
        ensures
            s == Scalar::spec_mul(self, other),
            s.wf(),
    {
        if self.mant == 0 || other.mant == 0 {
            return Scalar::zero();
        }
        proof {
            lemma_pow2_facts();
            lemma_mul_strict_upper_bound(self.mant as int, MAX_MANT as int, other.mant as int,
                MAX_MANT as int);
        }
        let m: u128 = (self.mant as u128) * (other.mant as u128);
        normalize(self.neg != other.neg, m, self.exp + other.exp)
    }

    /// Truncating division; the divisor must be nonzero.
    pub fn div(self, other: Scalar) -> (s: Scalar)
        requires
            self.wf(),
            other.wf(),
            !other.spec_is_zero(),
        ensures
            s == Scalar::spec_div(self, other),
            s.wf(),
    {
        if self.mant == 0 {
            return Scalar::zero();
        }
        proof {
            lemma_pow2_facts();
            lemma_mul_strict_upper_bound(self.mant as int, MAX_MANT as int, MAX_MANT as int,
                MAX_MANT as int + 1);
        }
        let num: u128 = (self.mant as u128) * (MAX_MANT as u128);
        let q: u128 = num / (other.mant as u128);
        normalize(self.neg != other.neg, q, self.exp - other.exp - 53)
    }

    /// Truncating square root; the operand must be nonnegative.
    pub fn sqrt(self) -> (s: Scalar)
        requires
            self.wf(),
            !self.neg,
        ensures
            s == Scalar::spec_sqrt(self),
            s.wf(),
    {
        if self.mant == 0 {
            return Scalar::zero();
        }
        proof {
            lemma_pow2_facts();
            lemma_mul_strict_upper_bound(self.mant as int, MAX_MANT as int,
                pow2(55) as int, pow2(55) as int + 1);
        }
        let ev = exp_is_even(self.exp);
        let me: u128 = if ev {
            (self.mant as u128) * 0x40_0000_0000_0000u128
        } else {
            (self.mant as u128) * 0x80_0000_0000_0000u128
        };
        let ee: i64 = if ev { self.exp - 54 } else { self.exp - 55 };
        let r = isqrt_u128(me);
        proof {
            lemma_isqrt_unique(me as nat, r as nat, Scalar::spec_isqrt(me as nat));
        }
        normalize(false, r as u128, half_even(ee))
    }

    /// Value order; `true` iff `self` is strictly below `other`.
    pub fn lt(self, other: Scalar) -> (b: bool)
        requires
            self.wf(),
            other.wf(),
        ensures
            b == Scalar::spec_lt(self, other),
    {
        proof {
            lemma_pow2_facts();
            let base: int = if self.exp <= other.exp { self.exp as int } else { other.exp as int };
            lemma_scaled_sign(self, base);
            lemma_scaled_sign(other, base);
            if self.mant != 0 && other.mant != 0 {
                if self.exp < other.exp {
                    lemma_mag_lt(self, other);
                } else if other.exp < self.exp {
                    lemma_mag_lt(other, self);
                }
            }
        }
        if self.mant == 0 && other.mant == 0 {
            false
        } else if self.mant == 0 {
            !other.neg
        } else if other.mant == 0 {
            self.neg
        } else if self.neg != other.neg {
            self.neg
        } else if !self.neg {
            if self.exp != other.exp {
                self.exp < other.exp
            } else {
                self.mant < other.mant
            }
        } else {
            if self.exp != other.exp {
                other.exp < self.exp
            } else {
                other.mant < self.mant
            }
        }
    }

    pub fn le(self, other: Scalar) -> (b: bool)
        requires
            self.wf(),
            other.wf(),
        ensures
            b == Scalar::spec_le(self, other),
    {
        !other.lt(self)
    }

    pub fn max_of(self, other: Scalar) -> (s: Scalar)
        requires
            self.wf(),
            other.wf(),
        ensures
            s == Scalar::spec_max(self, other),
            s.wf(),
    {
        if self.lt(other) { other } else { self }
    }

    pub fn min_of(self, other: Scalar) -> (s: Scalar)
        requires
            self.wf(),
            other.wf(),
        ensures
            s == Scalar::spec_min(self, other),
            s.wf(),
    {
        if other.lt(self) { other } else { self }
    }
}

/// Normalization keeps a nonnegative sign nonnegative.
pub proof fn lemma_norm_sign(neg: bool, m: nat, e: int)
    ensures
        !neg ==> !Scalar::spec_norm(neg, m, e).neg,
{
}

/// A scalar times itself is nonnegative.
pub proof fn lemma_mul_self_sign(a: Scalar)
    ensures
        !Scalar::spec_mul(a, a).neg,
{
    lemma_norm_sign(a.neg != a.neg, (a.mant as nat) * (a.mant as nat), a.exp as int + a.exp as int);
}

/// The sum of two nonnegative scalars is nonnegative.
pub proof fn lemma_add_sign(a: Scalar, b: Scalar)
    requires
        !a.neg,
        !b.neg,
    ensures
        !Scalar::spec_add(a, b).neg,
{
    if a.mant != 0 && b.mant != 0 {
        let hi = if a.exp >= b.exp { a } else { b };
        let lo = if a.exp >= b.exp { b } else { a };
        let d = hi.exp - lo.exp;
        if d <= 120 {
            let mlo = (lo.mant as nat) / pow2(d as nat);
            lemma_norm_sign(hi.neg, (hi.mant + mlo) as nat, hi.exp as int);
            lemma_norm_sign(hi.neg, (hi.mant - mlo) as nat, hi.exp as int);
            lemma_norm_sign(lo.neg, (mlo - hi.mant) as nat, hi.exp as int);
        }
    }
}

/// A scalar is zero-canonical when a vanished mantissa means it is exactly
/// the canonical zero.
pub open spec fn zero_canonical(s: Scalar) -> bool {
    s.mant == 0 ==> s == Scalar::spec_zero()
}

/// Shrinking a positive mantissa keeps it positive.
pub proof fn lemma_shrink_pos(m: nat, e: int)
    requires
        m > 0,
    ensures
        0 < spec_shrink(m, e).0 < MAX_MANT,
    decreases m,
{
    if m >= MAX_MANT {
        lemma_shrink_pos(m / 2, e + 1);
    }
}

/// Normalization only produces the canonical zero when the mantissa vanishes.
pub proof fn lemma_norm_zc(neg: bool, m: nat, e: int)
    ensures
        zero_canonical(Scalar::spec_norm(neg, m, e)),
{
    if m > 0 {
        lemma_shrink_pos(m, e);
        let se = spec_shrink(m, e);
        lemma_grow_pos(se.0, se.1);
    }
}

/// Growing a positive mantissa keeps it positive.
pub proof fn lemma_grow_pos(m: nat, e: int)
    requires
        0 < m < MAX_MANT,
    ensures
        MIN_MANT <= spec_grow(m, e).0 < MAX_MANT,
    decreases (if m < MIN_MANT { MIN_MANT - m } else { 0int }),
{
    if m < MIN_MANT {
        lemma_grow_pos(m * 2, e - 1);
    }
}

/// A product is zero-canonical.
pub proof fn lemma_mul_zc(a: Scalar, b: Scalar)
    ensures
        zero_canonical(Scalar::spec_mul(a, b)),
{
    if a.mant != 0 && b.mant != 0 {
        lemma_norm_zc(a.neg != b.neg, (a.mant as nat) * (b.mant as nat),
            a.exp as int + b.exp as int);
    }
}

/// A sum of zero-canonical scalars is zero-canonical, and adding the
/// canonical zero changes nothing.
pub proof fn lemma_add_zc(a: Scalar, b: Scalar)
    requires
        zero_canonical(a),
        zero_canonical(b),
    ensures
        zero_canonical(Scalar::spec_add(a, b)),
        Scalar::spec_add(a, Scalar::spec_zero()) == a,
{
    if a.mant != 0 && b.mant != 0 {
        let hi = if a.exp >= b.exp { a } else { b };
        let lo = if a.exp >= b.exp { b } else { a };
        let d = hi.exp - lo.exp;
        if d <= 120 {
            let mlo = (lo.mant as nat) / pow2(d as nat);
            lemma_norm_zc(hi.neg, (hi.mant + mlo) as nat, hi.exp as int);
            lemma_norm_zc(hi.neg, (hi.mant - mlo) as nat, hi.exp as int);
            lemma_norm_zc(lo.neg, (mlo - hi.mant) as nat, hi.exp as int);
        }
    }
}

/// The product of two nonnegative scalars is nonnegative.
pub proof fn lemma_mul_sign(a: Scalar, b: Scalar)
    requires
        !a.neg,
        !b.neg,
    ensures
        !Scalar::spec_mul(a, b).neg,
{
    lemma_norm_sign(a.neg != b.neg, (a.mant as nat) * (b.mant as nat), a.exp as int + b.exp as int);
}

/// The quotient of two nonnegative scalars is nonnegative.
pub proof fn lemma_div_sign(a: Scalar, b: Scalar)
    requires
        !a.neg,
        !b.neg,
    ensures
        !Scalar::spec_div(a, b).neg,
{
    lemma_norm_sign(a.neg != b.neg, ((a.mant as nat) * pow2(53)) / (b.mant as nat),
        a.exp as int - b.exp as int - 53);
}

/// A square root is nonnegative.
pub proof fn lemma_sqrt_sign(a: Scalar)
    ensures
        !Scalar::spec_sqrt(a).neg,
{
    if a.mant != 0 {
        let me: nat = if a.exp as int % 2 == 0 {
            (a.mant as nat) * pow2(54)
        } else {
            (a.mant as nat) * pow2(55)
        };
        let ee: int = if a.exp as int % 2 == 0 { a.exp as int - 54 } else { a.exp as int - 55 };
        lemma_norm_sign(false, Scalar::spec_isqrt(me), ee / 2);
    }
}

/// How the scaled value of a scalar relates to its sign.
proof fn lemma_scaled_sign(a: Scalar, base: int)
    requires
        a.wf(),
        base <= a.exp,
    ensures
        a.mant == 0 ==> a.scaled(base) == 0,
        a.mant != 0 && !a.neg ==> a.scaled(base) == (a.mant as int) * (pow2(
            (a.exp - base) as nat) as int) && a.scaled(base) > 0,
        a.mant != 0 && a.neg ==> a.scaled(base) == -((a.mant as int) * (pow2(
            (a.exp - base) as nat) as int)) && a.scaled(base) < 0,
{
    let d = (a.exp - base) as nat;
    let p = pow2(d) as int;
    vstd::arithmetic::power2::lemma_pow2_pos(d);
    if a.mant == 0 {
        assert(a.scaled(base) == 0 * (a.mant as int) * p);
        vstd::arithmetic::mul::lemma_mul_basics(a.mant as int);
        vstd::arithmetic::mul::lemma_mul_basics(p);
    } else {
        vstd::arithmetic::mul::lemma_mul_strictly_positive(a.mant as int, p);
        vstd::arithmetic::mul::lemma_mul_basics(a.mant as int);
        if a.neg {
            assert(a.scaled(base) == ((-1) * (a.mant as int)) * p);
            vstd::arithmetic::mul::lemma_mul_unary_negation(a.mant as int, p);
            assert(((-1) * (a.mant as int)) == -(a.mant as int));
        } else {
            assert(a.scaled(base) == ((1) * (a.mant as int)) * p);
        }
    }
}

/// For nonzero canonical scalars, a strictly smaller exponent means a strictly
/// smaller magnitude.
proof fn lemma_mag_lt(a: Scalar, b: Scalar)
    requires
        a.wf(),
        b.wf(),
        a.mant != 0,
        b.mant != 0,
        a.exp < b.exp,
    ensures
        (a.mant as int) * (pow2(0) as int) < (b.mant as int) * (pow2((b.exp - a.exp) as nat) as int),
{
    lemma_pow2_facts();
    let d = (b.exp - a.exp) as nat;
    if d > 1 {
        lemma_pow2_strictly_increases(1, d);
    }
    assert(pow2(d) >= 2);
    lemma_mul_inequality(2, pow2(d) as int, b.mant as int);
    assert((b.mant as int) * 2 >= (MIN_MANT as int) * 2) by {
        lemma_mul_inequality(MIN_MANT as int, b.mant as int, 2);
    }
    assert((b.mant as int) * (pow2(d) as int) >= (b.mant as int) * 2) by {
        lemma_mul_inequality(2, pow2(d) as int, b.mant as int);
    }
}

/// The integer square root is unique.
proof fn lemma_isqrt_unique(n: nat, r1: nat, r2: nat)
    requires
        r1 * r1 <= n < (r1 + 1) * (r1 + 1),
        r2 * r2 <= n < (r2 + 1) * (r2 + 1),
    ensures
        r1 == r2,
{
    if r1 < r2 {
        assert((r1 + 1) * (r1 + 1) <= r2 * r2) by (nonlinear_arith)
            requires r1 < r2;
    }
    if r2 < r1 {
        assert((r2 + 1) * (r2 + 1) <= r1 * r1) by (nonlinear_arith)
            requires r2 < r1;
    }
}

/// 2^k as a machine integer.
fn pow2_exec(k: u64) -> (p: u128)
    requires
        k <= 127,
    ensures
        p as nat == pow2(k as nat),
{
    proof {
        lemma_pow2_facts();
    }
    let mut p: u128 = 1;
    let mut i: u64 = 0;
    while i < k
        invariant
            i <= k <= 127,
            p as nat == pow2(i as nat),
        decreases k - i,
    {
        proof {
            lemma_pow2_facts();
            lemma_pow2_adds(i as nat, 1);
            if i as nat + 1 < 128 {
                lemma_pow2_strictly_increases(i as nat + 1, 128);
            }
        }
        p = p * 2;
        i = i + 1;
    }
    p
}

/// Whether `e` is even.
fn exp_is_even(e: i64) -> (b: bool)
    requires
        -1_000_000_000 <= e <= 1_000_000_000,
    ensures
        b == (e as int % 2 == 0),
{
    if e >= 0 {
        (e as u64) % 2 == 0
    } else {
        ((-e) as u64) % 2 == 0
    }
}

/// Half of an even exponent.
fn half_even(e: i64) -> (h: i64)
    requires
        -1_000_000_000 <= e <= 1_000_000_000,
        e as int % 2 == 0,
    ensures
        h as int == e as int / 2,
{
    if e >= 0 {
        ((e as u64) / 2) as i64
    } else {
        -((((-e) as u64) / 2) as i64)
    }
}

/// The integer square root of a 128-bit integer, found bit by bit.
#[verifier::loop_isolation(false)]
fn isqrt_u128(n: u128) -> (r: u64)
    ensures
        (r as nat) * (r as nat) <= n as nat,
        (n as nat) < ((r as nat) + 1) * ((r as nat) + 1),
{
    proof {
        lemma_pow2_facts();
        lemma_pow2_adds(64, 64);
        assert((0 + pow2(64)) * (0 + pow2(64)) == pow2(128));
        vstd::arithmetic::mul::lemma_mul_basics(0 as int);
    }
    let mut r: u64 = 0;
    let mut k: u64 = 64;
    while k > 0
        invariant
            k <= 64,
            (r as nat) * (r as nat) <= n as nat,
            (n as nat) < ((r as nat) + pow2(k as nat)) * ((r as nat) + pow2(k as nat)),
            (r as nat) + pow2(k as nat) <= pow2(64),
        decreases k,
    {
        proof {
            lemma_pow2_facts();
        }
        k = k - 1;
        let b = pow2_exec(k);
        proof {
            lemma_pow2_adds(k as nat, 1);
            assert(pow2(k as nat) + pow2(k as nat) == pow2(k as nat + 1));
            if (k as nat) + 1 < 64 {
                lemma_pow2_strictly_increases(k as nat + 1, 64);
            }
        }
        let bu: u64 = b as u64;
        let cand: u64 = r + bu;
        proof {
            lemma_mul_inequality(cand as int + 1, pow2(64) as int, cand as int + 1);
            lemma_mul_strict_upper_bound(cand as int, pow2(64) as int, cand as int,
                pow2(64) as int);
        }
        let c2: u128 = (cand as u128) * (cand as u128);
        if c2 <= n {
            r = cand;
        }
    }
    proof {
        lemma_pow2_facts();
    }
    r
}

/// Canonicalize `(-1)^neg * m0 * 2^e0` into a well-formed scalar.
#[verifier::loop_isolation(false)]
fn normalize(neg: bool, m0: u128, e0: i64) -> (s: Scalar)
    requires
        -1_000_000_000 <= e0 <= 1_000_000_000,
    ensures
        s == Scalar::spec_norm(neg, m0 as nat, e0 as int),
        s.wf(),
        (m0 != 0 && e0 >= -500_000) ==> s.mant != 0,
{
    proof {
        lemma_pow2_facts();
    }
    if m0 == 0 {
        return Scalar::zero();
    }
    proof {
        vstd::arithmetic::mul::lemma_mul_basics(m0 as int);
    }
    let mut m: u128 = m0;
    let mut e: i64 = e0;
    while m >= MAX_MANT as u128
        invariant
            m > 0,
            e0 <= e,
            spec_shrink(m0 as nat, e0 as int) == spec_shrink(m as nat, e as int),
            (m as nat) * pow2((e - e0) as nat) <= m0 as nat,
            e - e0 <= 127,
        decreases m,
    {
        proof {
            let d = (e - e0) as nat;
            lemma_pow2_adds(d, 1);
            // the exponent shift is bounded: MAX_MANT * 2^d <= m * 2^d <= m0 < 2^128
            lemma_mul_inequality(MAX_MANT as int, m as int, pow2(d) as int);
            if d >= 76 {
                if d > 76 {
                    lemma_pow2_strictly_increases(76, d);
                }
                lemma_pow2_adds(53, 76);
                lemma_pow2_adds(128, 1);
                lemma_mul_inequality(pow2(76) as int, pow2(d) as int, MAX_MANT as int);
                assert((MAX_MANT as int) * (pow2(76) as int) == pow2(129)) by {
                    vstd::arithmetic::mul::lemma_mul_is_commutative(MAX_MANT as int,
                        pow2(76) as int);
                }
                assert(false);
            }
            // the truncating halving step preserves the product bound
            assert(((m as nat) / 2) * (pow2(d + 1)) <= (m as nat) * pow2(d)) by {
                assert(((m as nat) / 2) * 2 <= m as nat);
                lemma_mul_inequality((((m as nat) / 2) * 2) as int, m as int, pow2(d) as int);
                vstd::arithmetic::mul::lemma_mul_is_associative(((m as nat) / 2) as int, 2,
                    pow2(d) as int);
            }
        }
        m = m / 2;
        e = e + 1;
    }
    let ghost sm = spec_shrink(m0 as nat, e0 as int).0;
    let ghost se = spec_shrink(m0 as nat, e0 as int).1;
    proof {
        assert(spec_shrink(m as nat, e as int) == (m as nat, e as int));
        assert(sm == m as nat && se == e as int);
        assert(sm * pow2(0) == sm) by {
            vstd::arithmetic::mul::lemma_mul_basics(sm as int);
        }
    }
    while m < MIN_MANT as u128
        invariant
            0 < m < MAX_MANT as u128,
            spec_grow(sm, se) == spec_grow(m as nat, e as int),
            e <= se,
            (m as nat) == sm * pow2((se - e) as nat),
            se - 52 <= e,
        decreases (if m < MIN_MANT as u128 { MIN_MANT as int - m as int } else { 0int }),
    {
        proof {
            let d = (se - e) as nat;
            if sm == 0 {
                assert(sm * pow2(d) == 0) by {
                    vstd::arithmetic::mul::lemma_mul_basics(pow2(d) as int);
                }
                assert(false);
            }
            // the doubling count is bounded: 1 * 2^d <= sm * 2^d = m < 2^52
            lemma_mul_inequality(1, sm as int, pow2(d) as int);
            assert((1int) * (pow2(d) as int) == pow2(d) as int) by {
                vstd::arithmetic::mul::lemma_mul_basics(pow2(d) as int);
            }
            if d >= 52 {
                if d > 52 {
                    lemma_pow2_strictly_increases(52, d);
                }
                assert(false);
            }
            // doubling: 2 * (sm * 2^d) == sm * 2^(d+1)
            lemma_pow2_adds(d, 1);
            vstd::arithmetic::mul::lemma_mul_is_associative(sm as int, pow2(d) as int,
                pow2(1) as int);
        }
        m = m * 2;
        e = e - 1;
    }
    proof {
        assert(spec_grow(m as nat, e as int) == (m as nat, e as int));
        assert(spec_grow(sm, se) == (m as nat, e as int));
    }
    if e > EXP_LIMIT {
        Scalar { neg, mant: MAX_MANT - 1, exp: EXP_LIMIT }
    } else if e < -EXP_LIMIT {
        Scalar { neg: false, mant: 0, exp: 0 }
    } else {
        Scalar { neg, mant: m as u64, exp: e }
    }
}

} // verus!
