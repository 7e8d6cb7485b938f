//! Binary floating-point numbers held by their bit patterns.
//!
//! A reading travels through the library as the bits of an IEEE 754 number.
//! Everything that is decided about it (is it finite, is it within a percentage,
//! what is it in single precision) is decided here on integers.
use vstd::arithmetic::power2::{
    lemma2_to64, lemma2_to64_rest, lemma_pow2_adds, lemma_pow2_pos, lemma_pow2_strictly_increases,
    lemma_pow2_unfold, pow2,
};
use vstd::prelude::*;

verus! {

/// A double-precision number, by its bits.
#[derive(Clone, Copy, Debug, PartialEq, Eq, Structural)]
pub struct Real64 {
    pub bits: u64,
}

/// A single-precision number, by its bits.
#[derive(Clone, Copy, Debug, PartialEq, Eq, Structural)]
pub struct Real32 {
    pub bits: u32,
}

/// `n / d` rounded to the nearest integer, a tie to the even one.
pub open spec fn round_half_even(n: int, d: int) -> int {
    let q = n / d;
    let r = n % d;
    if 2 * r > d || (2 * r == d && q % 2 == 1) {
        q + 1
    } else {
        q
    }
}

/// The position of the highest bit that is set in `n`.
pub open spec fn top_bit(n: int) -> nat
    decreases n,
{
    if n < 2 {
        0
    } else {
        1 + top_bit(n / 2)
    }
}

impl Real64 {
    pub open spec fn negative(self) -> bool {
        self.bits >= 0x8000_0000_0000_0000
    }

    pub open spec fn exponent_field(self) -> int {
        (self.bits as int / 0x10_0000_0000_0000) % 2048
    }

    pub open spec fn fraction(self) -> int {
        self.bits as int % 0x10_0000_0000_0000
    }

    pub open spec fn finite(self) -> bool {
        self.exponent_field() != 2047
    }

    pub open spec fn nan(self) -> bool {
        self.exponent_field() == 2047 && self.fraction() != 0
    }

    /// The exponent field, where the subnormal numbers share that of the
    /// smallest normal ones.
    pub open spec fn lead(self) -> int {
        if self.exponent_field() == 0 {
            1
        } else {
            self.exponent_field()
        }
    }

    /// The significand. The magnitude of a finite number is
    /// `significand * 2^(lead - 1075)`.
    pub open spec fn significand(self) -> int {
        if self.exponent_field() == 0 {
            self.fraction()
        } else {
            self.fraction() + 0x10_0000_0000_0000
        }
    }

    /// An integer that orders all numbers but NaN as their values are ordered.
    pub open spec fn order_key(self) -> int {
        if self.negative() {
            0x8000_0000_0000_0000 - self.bits
        } else {
            self.bits as int
        }
    }

    /// `0 <= value <= 100`.
    pub open spec fn within_percent(self) -> bool {
        &&& self.finite()
        &&& self.significand() == 0 || {
            &&& !self.negative()
            &&& self.lead() < 1075
            &&& self.significand() <= 100 * pow2((1075 - self.lead()) as nat)
        }
    }

    /// The integer nearest to a number that is not negative and below 2^52, a
    /// tie away from zero.
    pub open spec fn rounded(self) -> int {
        let unit = pow2((1075 - self.lead()) as nat) as int;
        (2 * self.significand() + unit) / (2 * unit)
    }

    /// A finite number in single precision: the nearest one, a tie to the even
    /// significand, and an infinity from half a step past the largest on.
    pub open spec fn narrowed(self) -> Real32 {
        let sign: int = if self.negative() {
            0x8000_0000
        } else {
            0
        };
        let magnitude = if self.lead() >= 1151 {
            0x7f80_0000
        } else if self.lead() > 896 {
            (self.lead() - 897) * 0x80_0000 + round_half_even(self.significand(), 0x2000_0000)
        } else {
            round_half_even(self.significand(), pow2((926 - self.lead()) as nat) as int)
        };
        Real32 { bits: (sign + magnitude) as u32 }
    }

    fn get_exponent(self) -> (e: u64)
        ensures
            e == self.exponent_field(),
            0 <= e < 2048,
    {
        (self.bits / 0x10_0000_0000_0000) % 2048
    }

    fn get_lead(self) -> (e: u64)
        ensures
            e == self.lead(),
            1 <= e < 2048,
    {
        let e: u64 = self.get_exponent();
        if e == 0 {
            1
        } else {
            e
        }
    }

    fn get_significand(self) -> (m: u64)
        ensures
            m == self.significand(),
            m < 0x20_0000_0000_0000,
            self.exponent_field() != 0 ==> m >= 0x10_0000_0000_0000,
    {
        let f: u64 = self.bits % 0x10_0000_0000_0000;
        if self.get_exponent() == 0 {
            f
        } else {
            f + 0x10_0000_0000_0000
        }
    }

    /// The significand, and by how many bits it is shifted up against the smallest
    /// positive number.
    pub fn parts(self) -> (r: (u64, u64))
        ensures
            r.0 == self.significand(),
            r.0 < 0x20_0000_0000_0000,
            r.1 == self.lead() - 1,
            r.1 < 2047,
            r.1 > 0 ==> r.0 >= 0x10_0000_0000_0000,
    {
        (self.get_significand(), self.get_lead() - 1)
    }

    /// Whether the number is neither infinite nor NaN.
    pub fn is_finite(self) -> (r: bool)
        ensures
            r == self.finite(),
    {
        self.get_exponent() != 2047
    }

    /// Whether the pattern is that of a NaN.
    pub fn is_nan(self) -> (r: bool)
        ensures
            r == self.nan(),
    {
        self.get_exponent() == 2047 && self.bits % 0x10_0000_0000_0000 != 0
    }

    /// The key that orders numbers.
    pub fn key(self) -> (k: i128)
        ensures
            k == self.order_key(),
    {
        if self.bits >= 0x8000_0000_0000_0000 {
            0x8000_0000_0000_0000i128 - self.bits as i128
        } else {
            self.bits as i128
        }
    }

    /// The number as a whole percentage, where it lies between 0 and 100.
    pub fn to_percent(self) -> (r: Option<u8>)
        ensures
            r is Some <==> self.within_percent(),
            r matches Some(p) ==> p <= 100 && p == if self.significand() == 0 {
                0
            } else {
                self.rounded()
            },
    {
        if !self.is_finite() {
            return None;
        }
        let m: u64 = self.get_significand();
        if m == 0 {
            return Some(0);
        }
        let lead: u64 = self.get_lead();
        if self.bits >= 0x8000_0000_0000_0000 || lead >= 1075 {
            return None;
        }
        let k: u64 = 1075 - lead;
        proof {
            lemma_powers();
            if k > 64 {
                lemma_pow2_strictly_increases(64, k as nat);
            }
        }
        if k > 62 {
            // Far below one half.
            assert(self.rounded() == 0) by {
                let unit = pow2(k as nat) as int;
                assert(unit >= 0x7fff_ffff_ffff_ffff) by {
                    if k < 64 {
                        assert(k == 63);
                    }
                }
                vstd::arithmetic::div_mod::lemma_basic_div(2 * m + unit, 2 * unit);
            }
            return Some(0);
        }
        let unit: u64 = two_to(k);
        if m as u128 > 100u128 * unit as u128 {
            return None;
        }
        let r: u64 = ((2 * m as u128 + unit as u128) / (2 * unit as u128)) as u64;
        proof {
            let (a, u) = (m as int, unit as int);
            assert((2 * a + u) / (2 * u) <= 100) by (nonlinear_arith)
                requires
                    a <= 100 * u,
                    u > 0,
                    a >= 0,
            ;
            assert((2 * a + u) / (2 * u) >= 0) by (nonlinear_arith)
                requires
                    u > 0,
                    a >= 0,
            ;
        }
        Some(r as u8)
    }

    /// The number in single precision.
    pub fn narrow(self) -> (r: Real32)
        requires
            self.finite(),
        ensures
            r == self.narrowed(),
    {
        let lead: u64 = self.get_lead();
        let m: u64 = self.get_significand();
        let sign: u32 = if self.bits >= 0x8000_0000_0000_0000 {
            0x8000_0000
        } else {
            0
        };
        let magnitude: u32 = if lead >= 1151 {
            0x7f80_0000
        } else if lead > 896 {
            let q: u64 = round_even(m, 0x2000_0000);
            assert(q <= 0x100_0000);
            ((lead - 897) * 0x80_0000 + q) as u32
        } else {
            let shift: u64 = 926 - lead;
            proof {
                lemma_powers();
                lemma_pow2_pos(shift as nat);
                if shift > 60 {
                    lemma_pow2_strictly_increases(60, shift as nat);
                }
                if shift > 30 {
                    lemma_pow2_strictly_increases(30, shift as nat);
                }
            }
            if shift > 60 {
                assert(round_half_even(m as int, pow2(shift as nat) as int) == 0) by {
                    vstd::arithmetic::div_mod::lemma_small_mod(m as nat, pow2(shift as nat));
                    vstd::arithmetic::div_mod::lemma_basic_div(m as int, pow2(shift as nat) as int);
                }
                0
            } else {
                let unit: u64 = two_to(shift);
                let q: u64 = round_even(m, unit);
                assert(q <= 0x80_0000) by {
                    let (a, u) = (m as int, unit as int);
                    assert(a / u <= 0x7f_ffff) by (nonlinear_arith)
                        requires
                            0 <= a < 0x20_0000_0000_0000,
                            u >= 0x4000_0000,
                    ;
                }
                q as u32
            }
        };
        Real32 { bits: sign + magnitude }
    }

    /// The double nearest to a natural number, a tie to the even significand.
    pub open spec fn nearest_natural(n: int) -> Real64 {
        let b = top_bit(n);
        let significand = if b <= 52 {
            n * pow2((52 - b) as nat)
        } else {
            round_half_even(n, pow2((b - 52) as nat) as int)
        };
        Real64 {
            bits: if n == 0 {
                0
            } else {
                ((1022 + b) * 0x10_0000_0000_0000 + significand) as u64
            },
        }
    }

    /// The double nearest to an integer.
    pub open spec fn nearest_integer(n: int) -> Real64 {
        if n < 0 {
            Real64 { bits: (0x8000_0000_0000_0000 + Self::nearest_natural(-n).bits) as u64 }
        } else {
            Self::nearest_natural(n)
        }
    }

    /// A 64-bit natural number in double precision.
    pub fn from_natural(n: u64) -> (r: Real64)
        ensures
            r == Self::nearest_natural(n as int),
            r.finite(),
            r.bits < 0x7ff0_0000_0000_0000,
    {
        if n == 0 {
            return Real64 { bits: 0 };
        }
        let b: u64 = find_top_bit(n);
        proof {
            lemma_top_bit(n as int);
            lemma_natural_size(n as int);
            lemma_powers();
            if b >= 64 {
                if b > 64 {
                    lemma_pow2_strictly_increases(64, b as nat);
                }
                assert(false);
            }
        }
        let significand: u64 = if b <= 52 {
            let unit: u64 = two_to(52 - b);
            n * unit
        } else {
            let unit: u64 = two_to(b - 52);
            proof {
                lemma_pow2_strictly_increases(0, (b - 52) as nat);
            }
            round_even(n, unit)
        };
        Real64 { bits: (1022 + b) * 0x10_0000_0000_0000 + significand }
    }

    /// A 64-bit integer in double precision.
    pub fn from_integer(n: i64) -> (r: Real64)
        ensures
            r == Self::nearest_integer(n as int),
            r.finite(),
    {
        if n < 0 {
            let size: u64 = (-(n as i128)) as u64;
            let r: Real64 = Self::from_natural(size);
            Real64 { bits: 0x8000_0000_0000_0000 + r.bits }
        } else {
            Self::from_natural(n as u64)
        }
    }
}

impl Real32 {
    pub open spec fn negative(self) -> bool {
        self.bits >= 0x8000_0000
    }

    /// Neither infinite nor NaN.
    pub open spec fn finite(self) -> bool {
        self.exponent_field() != 255
    }

    /// The bits but for the sign: they order magnitudes.
    pub open spec fn magnitude(self) -> int {
        self.bits as int % 0x8000_0000
    }

    pub open spec fn exponent_field(self) -> int {
        (self.bits as int / 0x80_0000) % 256
    }

    pub open spec fn fraction(self) -> int {
        self.bits as int % 0x80_0000
    }

    /// The exponent field, where the subnormal numbers share that of the
    /// smallest normal ones.
    pub open spec fn lead(self) -> int {
        if self.exponent_field() == 0 {
            1
        } else {
            self.exponent_field()
        }
    }

    /// The significand. The magnitude of a finite number is
    /// `significand * 2^(lead - 150)`.
    pub open spec fn significand(self) -> int {
        if self.exponent_field() == 0 {
            self.fraction()
        } else {
            self.fraction() + 0x80_0000
        }
    }

    pub open spec fn zero() -> Real32 {
        Real32 { bits: 0 }
    }

    pub open spec fn one() -> Real32 {
        Real32 { bits: 0x3f80_0000 }
    }

    /// `|value| < 1`.
    pub open spec fn below_one(self) -> bool {
        self.magnitude() < Self::one().magnitude()
    }

    /// `value > 0`. A NaN, whose magnitude bits lie above those of infinity, is
    /// not positive.
    pub open spec fn positive(self) -> bool {
        !self.negative() && 0 < self.magnitude() <= 0x7f80_0000
    }

    /// The number moved into `0..=1`.
    pub open spec fn clamped_to_unit(self) -> Real32 {
        if self.negative() {
            Self::zero()
        } else if self.magnitude() > Self::one().magnitude() {
            Self::one()
        } else {
            self
        }
    }

    /// Zero.
    pub fn nought() -> (r: Real32)
        ensures
            r == Self::zero(),
    {
        Real32 { bits: 0 }
    }

    /// Whether the number is neither infinite nor NaN.
    pub fn is_finite(self) -> (r: bool)
        ensures
            r == self.finite(),
    {
        (self.bits / 0x80_0000) % 256 != 255
    }

    /// Whether the magnitude is below one.
    pub fn is_below_one(self) -> (r: bool)
        ensures
            r == self.below_one(),
    {
        self.bits % 0x8000_0000 < 0x3f80_0000
    }

    /// Whether the number is above zero.
    pub fn is_positive(self) -> (r: bool)
        ensures
            r == self.positive(),
    {
        self.bits > 0 && self.bits <= 0x7f80_0000
    }

    /// The nearest number of the unit interval.
    pub fn clamp_to_unit(self) -> (r: Real32)
        ensures
            r == self.clamped_to_unit(),
    {
        if self.bits >= 0x8000_0000 {
            Real32 { bits: 0 }
        } else if self.bits > 0x3f80_0000 {
            Real32 { bits: 0x3f80_0000 }
        } else {
            self
        }
    }
}

proof fn lemma_powers()
    ensures
        pow2(0) == 1,
        pow2(30) == 0x4000_0000,
        pow2(52) == 0x10_0000_0000_0000,
        pow2(53) == 0x20_0000_0000_0000,
        pow2(60) == 0x1000_0000_0000_0000,
        pow2(62) == 0x4000_0000_0000_0000,
        pow2(63) == 0x8000_0000_0000_0000,
        pow2(64) == 0x1_0000_0000_0000_0000,
{
    lemma2_to64();
    lemma2_to64_rest();
}

/// Two to the power `k`.
fn two_to(k: u64) -> (r: u64)
    requires
        k <= 62,
    ensures
        r == pow2(k as nat),
        1 <= r <= 0x4000_0000_0000_0000,
{
    let mut r: u64 = 1;
    let mut i: u64 = 0;
    proof {
        lemma_powers();
    }
    while i < k
        invariant
            i <= k <= 62,
            r == pow2(i as nat),
            1 <= r <= 0x4000_0000_0000_0000,
        decreases k - i,
    {
        proof {
            lemma_pow2_unfold((i + 1) as nat);
            lemma_powers();
            if i + 1 < 62 {
                lemma_pow2_strictly_increases((i + 1) as nat, 62);
            }
        }
        r = r * 2;
        i = i + 1;
    }
    r
}

fn round_even(n: u64, d: u64) -> (r: u64)
    requires
        0 < d <= 0x4000_0000_0000_0000,
        d > 1,
    ensures
        r == round_half_even(n as int, d as int),
        r <= n / d + 1,
{
    let q: u64 = n / d;
    let rest: u64 = n % d;
    assert(q < 0xffff_ffff_ffff_ffff) by (nonlinear_arith)
        requires
            q == n / d,
            d > 1,
    ;
    if 2 * rest > d || (2 * rest == d && q % 2 == 1) {
        q + 1
    } else {
        q
    }
}

fn find_top_bit(n: u64) -> (r: u64)
    ensures
        r == top_bit(n as int),
        r <= n,
    decreases n,
{
    if n < 2 {
        0
    } else {
        1 + find_top_bit(n / 2)
    }
}

/// A number lies between the power of two of its top bit and the next one.
pub proof fn lemma_top_bit(n: int)
    requires
        n >= 1,
    ensures
        pow2(top_bit(n)) <= n < 2 * pow2(top_bit(n)),
    decreases n,
{
    lemma_powers();
    if n >= 2 {
        lemma_top_bit(n / 2);
        lemma_pow2_unfold(top_bit(n));
    }
}

/// A 64-bit integer in double precision has no more than 64 bits.
pub proof fn lemma_integer_size(n: i64)
    ensures
        Real64::nearest_integer(n as int).finite(),
        Real64::nearest_integer(n as int).lead() <= 1087,
{
    let size = if n < 0 {
        -(n as int)
    } else {
        n as int
    };
    if size > 0 {
        lemma_natural_size(size);
    }
}

/// A 64-bit natural number in double precision has no more than 64 bits.
pub proof fn lemma_natural_size(n: int)
    requires
        1 <= n <= u64::MAX,
    ensures
        Real64::nearest_natural(n).bits <= 1087 * 0x10_0000_0000_0000,
        Real64::nearest_natural(n).bits as int == (1022 + top_bit(n)) * 0x10_0000_0000_0000 + (
        if top_bit(n) <= 52 {
            n * pow2((52 - top_bit(n)) as nat)
        } else {
            round_half_even(n, pow2((top_bit(n) - 52) as nat) as int)
        }),
{
    let b = top_bit(n);
    lemma_top_bit(n);
    lemma_powers();
    if b >= 64 {
        if b > 64 {
            lemma_pow2_strictly_increases(64, b);
        }
        assert(false);
    }
    lemma_pow2_unfold(b + 1);
    let significand = if b <= 52 {
        n * pow2((52 - b) as nat)
    } else {
        round_half_even(n, pow2((b - 52) as nat) as int)
    };
    assert(0 <= significand <= 0x20_0000_0000_0000) by {
        if b <= 52 {
            let u = pow2((52 - b) as nat) as int;
            let p = pow2(b) as int;
            lemma_pow2_pos((52 - b) as nat);
            lemma_pow2_adds(b, (52 - b) as nat);
            assert(0 <= n * u < 2 * (p * u)) by (nonlinear_arith)
                requires
                    0 <= n < 2 * p,
                    u > 0,
            ;
        } else {
            let u = pow2((b - 52) as nat) as int;
            lemma_pow2_pos((b - 52) as nat);
            lemma_pow2_adds(53, (b - 52) as nat);
            assert(0 <= n / u <= 0x1f_ffff_ffff_ffff) by (nonlinear_arith)
                requires
                    0 <= n < 0x20_0000_0000_0000 * u,
                    u > 0,
            ;
        }
    }
    assert((1022 + b) * 0x10_0000_0000_0000 <= 1085 * 0x10_0000_0000_0000);
}

/// Rounding a number between 0 and 100 does not leave that range.
pub proof fn lemma_percent_range(x: Real64)
    requires
        x.within_percent(),
        x.significand() != 0,
    ensures
        0 <= x.rounded() <= 100,
{
    let a = x.significand();
    let u = pow2((1075 - x.lead()) as nat) as int;
    lemma_pow2_pos((1075 - x.lead()) as nat);
    assert(0 <= (2 * a + u) / (2 * u) <= 100) by (nonlinear_arith)
        requires
            0 <= a <= 100 * u,
            u > 0,
    ;
}

/// Rounding moves a quotient by at most one half.
pub proof fn rounding_is_nearest(n: int, d: int)
    requires
        d > 0,
        n >= 0,
    ensures
        -d <= 2 * (round_half_even(n, d) * d - n) <= d,
{
    vstd::arithmetic::div_mod::lemma_fundamental_div_mod(n, d);
    let q = n / d;
    assert((q + 1) * d == q * d + d) by (nonlinear_arith);
    assert(d * q == q * d) by (nonlinear_arith);
}

/// Of two integers that are equally near the even one is taken.
pub proof fn rounding_breaks_ties_to_even(n: int, d: int)
    requires
        d > 0,
        n >= 0,
        2 * (round_half_even(n, d) * d - n) == d || 2 * (round_half_even(n, d) * d - n) == -d,
    ensures
        round_half_even(n, d) % 2 == 0,
{
    vstd::arithmetic::div_mod::lemma_fundamental_div_mod(n, d);
    let q = n / d;
    assert((q + 1) * d == q * d + d) by (nonlinear_arith);
    assert(d * q == q * d) by (nonlinear_arith);
}

} // verus!
