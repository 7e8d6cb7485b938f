//! Arithmetic on numbers that are held by their bits.
//!
//! The result of an operation is the number nearest to the exact one, and of two
//! equally near ones the one with the even significand, as IEEE 754 has it. The
//! exact values are integers: multiples of the smallest positive double.
use crate::number::{
    lemma_natural_size, lemma_top_bit, round_half_even, rounding_breaks_ties_to_even,
    rounding_is_nearest, top_bit, Real32, Real64,
};
use crate::text::{append_decimal, decimal_text};
use vstd::arithmetic::div_mod::{lemma_fundamental_div_mod, lemma_fundamental_div_mod_converse};
use vstd::arithmetic::power2::{
    lemma2_to64, lemma2_to64_rest, lemma_pow2_adds, lemma_pow2_pos, lemma_pow2_strictly_increases,
    lemma_pow2_unfold, pow2,
};
use vstd::prelude::*;
use vstd::string::*;

verus! {

/// The bits of positive infinity.
pub const INFINITE: u64 = 0x7ff0_0000_0000_0000;

/// The bits of the number one.
pub const ONE: u64 = 0x3ff0_0000_0000_0000;

/// The magnitude of a finite number in multiples of the smallest positive one.
pub open spec fn units(x: Real64) -> int {
    x.significand() * pow2((x.lead() - 1) as nat)
}

/// The value of a finite number in multiples of the smallest positive one.
pub open spec fn signed_units(x: Real64) -> int {
    if x.negative() {
        -units(x)
    } else {
        units(x)
    }
}

/// By how many bits the step between two numbers is wider, around `n / d`, than
/// the step between the smallest ones.
pub open spec fn step_bits(n: int, d: int) -> nat {
    let top = top_bit(n / d);
    if top > 52 {
        (top - 52) as nat
    } else {
        0
    }
}

/// The bits of the double nearest to `n / d` smallest doubles.
pub open spec fn nearest_bits(n: int, d: int) -> int {
    let s = step_bits(n, d);
    let bits = s * 0x10_0000_0000_0000 + round_half_even(n, d * pow2(s));
    if bits > INFINITE {
        INFINITE as int
    } else {
        bits
    }
}

/// `a - b`, for finite numbers with `a >= b`.
pub open spec fn difference(a: Real64, b: Real64) -> Real64 {
    Real64 { bits: nearest_bits(signed_units(a) - signed_units(b), 1) as u64 }
}

/// `a / b`, for finite numbers with `0 <= a` and `0 < b`.
pub open spec fn quotient(a: Real64, b: Real64) -> Real64 {
    Real64 { bits: nearest_bits(units(a) * pow2(1074), units(b)) as u64 }
}

/// A finite number that is not negative, rounded to four decimals, in
/// ten-thousandths.
pub open spec fn ten_thousandths(x: Real64) -> int {
    round_half_even(10000 * units(x), pow2(1074) as int)
}

proof fn lemma_powers()
    ensures
        pow2(0) == 1,
        pow2(1) == 2,
        pow2(11) == 0x800,
        pow2(12) == 0x1000,
        pow2(52) == 0x10_0000_0000_0000,
        pow2(53) == 0x20_0000_0000_0000,
        pow2(64) == 0x1_0000_0000_0000_0000,
{
    lemma2_to64();
    lemma2_to64_rest();
}

/// A number lies between two powers of two that follow each other in one way only.
proof fn lemma_top_bit_is(n: int, p: nat)
    requires
        pow2(p) <= n < pow2(p + 1),
    ensures
        top_bit(n) == p,
    decreases p,
{
    lemma_powers();
    lemma_pow2_pos(p);
    if p == 0 {
    } else {
        lemma_pow2_unfold(p);
        lemma_pow2_unfold(p + 1);
        lemma_pow2_pos((p - 1) as nat);
        lemma_top_bit_is(n / 2, (p - 1) as nat);
    }
}

proof fn lemma_top_bit_small(n: int, p: nat)
    requires
        0 <= n < pow2(p),
        p >= 1,
    ensures
        top_bit(n) < p,
    decreases p,
{
    lemma_powers();
    lemma_pow2_unfold(p);
    if n >= 2 {
        if p == 1 {
            assert(false);
        }
        lemma_top_bit_small(n / 2, (p - 1) as nat);
    }
}

proof fn lemma_round_scale(n: int, d: int, c: int)
    requires
        n >= 0,
        d > 0,
        c > 0,
    ensures
        round_half_even(n * c, d * c) == round_half_even(n, d),
        d * c > 0,
{
    let q = n / d;
    let r = n % d;
    lemma_fundamental_div_mod(n, d);
    assert(d * c > 0) by (nonlinear_arith)
        requires
            d > 0,
            c > 0,
    ;
    assert(n * c == q * (d * c) + r * c) by (nonlinear_arith)
        requires
            n == d * q + r,
    ;
    assert(0 <= r * c < d * c) by (nonlinear_arith)
        requires
            0 <= r < d,
            c > 0,
    ;
    lemma_fundamental_div_mod_converse(n * c, d * c, q, r * c);
    assert((2 * (r * c) > d * c) == (2 * r > d)) by (nonlinear_arith)
        requires
            c > 0,
    ;
    assert((2 * (r * c) == d * c) == (2 * r == d)) by (nonlinear_arith)
        requires
            c > 0,
    ;
}

proof fn lemma_round_exact(q: int, d: int)
    requires
        d > 0,
        q >= 0,
    ensures
        round_half_even(q * d, d) == q,
{
    lemma_fundamental_div_mod_converse(q * d, d, q, 0);
}

proof fn lemma_round_between(n: int, d: int, low: int, high: int)
    requires
        d > 0,
        n >= 0,
        low * d <= n < high * d,
    ensures
        low <= n / d < high,
        low <= round_half_even(n, d) <= high,
{
    lemma_fundamental_div_mod(n, d);
    let q = n / d;
    assert(q >= low) by (nonlinear_arith)
        requires
            n == d * q + n % d,
            0 <= n % d < d,
            low * d <= n,
    ;
    assert(q < high) by (nonlinear_arith)
        requires
            n == d * q + n % d,
            0 <= n % d < d,
            n < high * d,
    ;
}

/// `m * 2^k`.
fn scale(m: u128, k: u64) -> (r: u128)
    requires
        m * pow2(k as nat) <= u128::MAX,
    ensures
        r == m * pow2(k as nat),
{
    let mut r: u128 = m;
    let mut i: u64 = 0;
    proof {
        lemma_powers();
    }
    while i < k
        invariant
            i <= k,
            m * pow2(k as nat) <= u128::MAX,
            r == m * pow2(i as nat),
        decreases k - i,
    {
        proof {
            lemma_pow2_unfold((i + 1) as nat);
            if i + 1 < k {
                lemma_pow2_strictly_increases((i + 1) as nat, k as nat);
            }
            let (a, b, c) = (m as int, pow2((i + 1) as nat) as int, pow2(k as nat) as int);
            assert(a * b <= a * c) by (nonlinear_arith)
                requires
                    a >= 0,
                    b <= c,
            ;
            let h = pow2(i as nat) as int;
            assert(a * h * 2 == a * b) by (nonlinear_arith)
                requires
                    b == 2 * h,
            ;
        }
        r = r * 2;
        i = i + 1;
    }
    r
}

fn round_even_wide(n: u128, d: u128) -> (r: u128)
    requires
        1 < d <= 0x8000_0000_0000_0000_0000_0000_0000_0000,
    ensures
        r == round_half_even(n as int, d as int),
{
    let q: u128 = n / d;
    let rest: u128 = n % d;
    assert(q < 0xffff_ffff_ffff_ffff_ffff_ffff_ffff_ffff) by (nonlinear_arith)
        requires
            q == n / d,
            d > 1,
    ;
    let past: bool = rest > d - rest;
    let tie: bool = rest == d - rest;
    if past || (tie && q % 2 == 1) {
        q + 1
    } else {
        q
    }
}

fn find_top_bit_wide(n: u128) -> (r: u64)
    ensures
        r == top_bit(n as int),
        r < 128,
{
    let mut m: u128 = n;
    let mut r: u64 = 0;
    proof {
        lemma_wide_top_bit(n as int);
    }
    while m >= 2
        invariant
            r + top_bit(m as int) == top_bit(n as int),
            top_bit(n as int) < 128,
        decreases m,
    {
        m = m / 2;
        r = r + 1;
    }
    r
}

proof fn lemma_wide_top_bit(n: int)
    requires
        0 <= n <= u128::MAX,
    ensures
        top_bit(n) < 128,
{
    lemma_pow2_adds(64, 64);
    lemma_powers();
    assert(pow2(128) == 0x1_0000_0000_0000_0000 * 0x1_0000_0000_0000_0000);
    lemma_top_bit_small(n, 128);
}

/// The double nearest to `m * 2^e` smallest doubles.
fn encode(m: u128, e: u64) -> (r: u64)
    requires
        m < 0x100_0000_0000_0000_0000_0000_0000_0000,
        e <= 4000,
    ensures
        r == nearest_bits(m * pow2(e as nat), 1),
        r <= INFINITE,
{
    let ghost n = m * pow2(e as nat);
    proof {
        lemma_powers();
        lemma_pow2_pos(e as nat);
    }
    if m == 0 {
        assert(n == 0) by (nonlinear_arith)
            requires
                n == m * pow2(e as nat),
                m == 0,
        ;
        assert(top_bit(0) == 0);
        return 0;
    }
    let p: u64 = find_top_bit_wide(m);
    proof {
        lemma_top_bit(m as int);
        lemma_encoded_top(m as int, e as nat, p as nat);
    }
    if p + e <= 52 {
        proof {
            lemma_pow2_pos((p + e + 1) as nat);
            if p + e + 1 < 53 {
                lemma_pow2_strictly_increases((p + e + 1) as nat, 53);
            }
            lemma_round_exact(n, 1);
        }
        scale(m, e) as u64
    } else {
        let s: u64 = p + e - 52;
        let ghost unit = pow2(s as nat) as int;
        proof {
            lemma_pow2_pos(s as nat);
            lemma_pow2_adds(52, s as nat);
            lemma_pow2_adds(53, s as nat);
            lemma_round_between(n, unit, 0x10_0000_0000_0000, 0x20_0000_0000_0000);
        }
        if s >= 2046 {
            assert(s * 0x10_0000_0000_0000 >= 2046 * 0x10_0000_0000_0000);
            return INFINITE;
        }
        let q: u64 = if p <= 52 {
            let k: u64 = 52 - p;
            proof {
                lemma_pow2_adds(k as nat, s as nat);
                let (a, b, c) = (m as int, pow2(k as nat) as int, unit);
                assert(a * (b * c) == a * b * c) by (nonlinear_arith);
                lemma_pow2_pos(k as nat);
                assert(a * b >= 0) by (nonlinear_arith)
                    requires
                        a >= 0,
                        b >= 0,
                ;
                lemma_round_exact(a * b, unit);
            }
            scale(m, k) as u64
        } else {
            let k: u64 = p - 52;
            proof {
                lemma_pow2_adds(k as nat, e as nat);
                lemma_pow2_pos(k as nat);
                lemma_round_scale(m as int, pow2(k as nat) as int, pow2(e as nat) as int);
                lemma_pow2_strictly_increases(0, k as nat);
                lemma_pow2_strictly_increases(k as nat, 120);
                lemma_pow2_120();
            }
            let d: u128 = scale(1, k);
            round_even_wide(m, d) as u64
        };
        s * 0x10_0000_0000_0000 + q
    }
}

proof fn lemma_pow2_120()
    ensures
        pow2(120) == 0x100_0000_0000_0000_0000_0000_0000_0000,
{
    lemma2_to64();
    lemma2_to64_rest();
    lemma_pow2_adds(60, 60);
    assert(pow2(60) == 0x1000_0000_0000_0000);
    assert(pow2(120) == 0x1000_0000_0000_0000 * 0x1000_0000_0000_0000);
}

proof fn lemma_encoded_top(m: int, e: nat, p: nat)
    requires
        m >= 1,
        pow2(p) <= m < 2 * pow2(p),
    ensures
        top_bit(m * pow2(e)) == p + e,
        pow2(p + e) <= m * pow2(e) < pow2(p + e + 1),
        step_bits(m * pow2(e), 1) == if p + e > 52 {
            (p + e - 52) as nat
        } else {
            0
        },
{
    let n = m * pow2(e);
    lemma_pow2_pos(e);
    lemma_pow2_adds(p, e);
    lemma_pow2_unfold(p + e + 1);
    let (a, b, c) = (m, pow2(p) as int, pow2(e) as int);
    assert(b * c <= a * c && a * c < 2 * (b * c)) by (nonlinear_arith)
        requires
            b <= a < 2 * b,
            c > 0,
    ;
    lemma_top_bit_is(n, p + e);
    assert(n / 1 == n);
}

/// The larger of two magnitudes has the larger exponent, and so more units.
proof fn lemma_magnitudes(x: Real64, y: Real64)
    requires
        x.finite(),
        y.finite(),
        x.bits as int % 0x8000_0000_0000_0000 >= y.bits as int % 0x8000_0000_0000_0000,
    ensures
        x.lead() >= y.lead(),
        units(x) >= units(y),
{
    let (ex, ey) = (x.exponent_field(), y.exponent_field());
    assert(x.bits as int % 0x8000_0000_0000_0000 == ex * 0x10_0000_0000_0000 + x.fraction());
    assert(y.bits as int % 0x8000_0000_0000_0000 == ey * 0x10_0000_0000_0000 + y.fraction());
    let (a, b) = (x.significand(), y.significand());
    let (i, j) = ((x.lead() - 1) as nat, (y.lead() - 1) as nat);
    lemma_pow2_pos(j);
    if i == j {
        let c = pow2(j) as int;
        assert(a * c >= b * c) by (nonlinear_arith)
            requires
                a >= b,
                c > 0,
        ;
    } else {
        lemma_pow2_adds(j, (i - j) as nat);
        lemma_powers();
        if i - j > 1 {
            lemma_pow2_strictly_increases(1, (i - j) as nat);
        }
        let (c, f) = (pow2(j) as int, pow2((i - j) as nat) as int);
        assert(a * (c * f) >= b * c) by (nonlinear_arith)
            requires
                a >= 0x10_0000_0000_0000,
                b < 0x20_0000_0000_0000,
                f >= 2,
                c > 0,
        ;
    }
}

/// A magnitude far below the step of another does not change it.
proof fn lemma_far(m: int, e: nat, delta: int, minus: bool)
    requires
        0x10_0000_0000_0000 <= m < 0x20_0000_0000_0000,
        12 <= e <= 2045,
        0 <= delta < pow2((e - 12) as nat),
    ensures
        nearest_bits(
            if minus {
                m * pow2(e) - delta
            } else {
                m * pow2(e) + delta
            },
            1,
        ) == e * 0x10_0000_0000_0000 + m,
{
    let u = pow2(e) as int;
    let n = if minus {
        m * u - delta
    } else {
        m * u + delta
    };
    lemma_powers();
    lemma_pow2_adds(12, (e - 12) as nat);
    lemma_pow2_pos((e - 12) as nat);
    assert(u > 4 * delta);
    lemma_pow2_unfold(e);
    lemma_pow2_adds(52, e);
    lemma_pow2_adds(53, e);
    let half = pow2((e - 1) as nat) as int;
    assert(u == 2 * half);
    assert(n / 1 == n);
    if minus && m == 0x10_0000_0000_0000 && delta > 0 {
        lemma_pow2_adds(52, (e - 1) as nat);
        assert(n == 0x1f_ffff_ffff_ffff * half + (half - delta)) by (nonlinear_arith)
            requires
                n == m * u - delta,
                u == 2 * half,
                m == 0x10_0000_0000_0000,
        ;
        assert(n >= 0x10_0000_0000_0000 * half) by (nonlinear_arith)
            requires
                n == 0x1f_ffff_ffff_ffff * half + (half - delta),
                half > delta,
                delta > 0,
        ;
        lemma_top_bit_is(n, (e + 51) as nat);
        lemma_fundamental_div_mod_converse(n, half, 0x1f_ffff_ffff_ffff, half - delta);
        assert(1 * half == half);
        assert((e - 1) * 0x10_0000_0000_0000 + 0x20_0000_0000_0000 == e * 0x10_0000_0000_0000
            + 0x10_0000_0000_0000);
    } else {
        assert(0x10_0000_0000_0000 * u <= n) by (nonlinear_arith)
            requires
                n == (if minus {
                    m * u - delta
                } else {
                    m * u + delta
                }),
                m > 0x10_0000_0000_0000 || !minus || delta == 0,
                m >= 0x10_0000_0000_0000,
                0 <= delta < u,
        ;
        assert(n < 0x20_0000_0000_0000 * u) by (nonlinear_arith)
            requires
                n <= m * u + delta,
                m <= 0x1f_ffff_ffff_ffff,
                0 <= delta < u,
        ;
        lemma_top_bit_is(n, (e + 52) as nat);
        assert(1 * u == u);
        if minus && delta > 0 {
            assert(n == (m - 1) * u + (u - delta)) by (nonlinear_arith)
                requires
                    n == m * u - delta,
            ;
            lemma_fundamental_div_mod_converse(n, u, m - 1, u - delta);
        } else {
            lemma_fundamental_div_mod_converse(n, u, m, delta);
        }
    }
    assert(e * 0x10_0000_0000_0000 + m <= INFINITE) by (nonlinear_arith)
        requires
            e <= 2045,
            m < 0x20_0000_0000_0000,
            INFINITE == 2047 * 0x10_0000_0000_0000,
    ;
}

/// The double nearest to a sum or a difference of magnitudes.
fn combine(m1: u64, e1: u64, m2: u64, e2: u64, minus: bool) -> (r: u64)
    requires
        m1 < 0x20_0000_0000_0000,
        m2 < 0x20_0000_0000_0000,
        e2 <= e1 <= 2045,
        e1 > 0 ==> m1 >= 0x10_0000_0000_0000,
        minus ==> m2 * pow2(e2 as nat) <= m1 * pow2(e1 as nat),
    ensures
        r == nearest_bits(
            if minus {
                m1 * pow2(e1 as nat) - m2 * pow2(e2 as nat)
            } else {
                m1 * pow2(e1 as nat) + m2 * pow2(e2 as nat)
            },
            1,
        ),
        r <= INFINITE,
{
    let d: u64 = e1 - e2;
    let ghost (a, b) = (m1 as int, m2 as int);
    if d > 64 {
        proof {
            let gap = (e1 - 12) as nat;
            lemma_pow2_pos(e2 as nat);
            lemma_powers();
            lemma_pow2_adds(53, e2 as nat);
            if 53 + e2 < gap {
                lemma_pow2_strictly_increases((53 + e2) as nat, gap);
            }
            let c = pow2(e2 as nat) as int;
            assert(0 <= b * c < 0x20_0000_0000_0000 * c) by (nonlinear_arith)
                requires
                    0 <= b < 0x20_0000_0000_0000,
                    c > 0,
            ;
            lemma_far(a, e1 as nat, b * c, minus);
            assert(e1 * 0x10_0000_0000_0000 + a <= INFINITE) by (nonlinear_arith)
                requires
                    e1 <= 2045,
                    a < 0x20_0000_0000_0000,
                    INFINITE == 2047 * 0x10_0000_0000_0000,
            ;
        }
        return e1 * 0x10_0000_0000_0000 + m1;
    }
    proof {
        lemma_powers();
        lemma_pow2_pos(d as nat);
        lemma_pow2_pos(e2 as nat);
        if d < 64 {
            lemma_pow2_strictly_increases(d as nat, 64);
        }
        lemma_pow2_adds(d as nat, e2 as nat);
        let (f, c) = (pow2(d as nat) as int, pow2(e2 as nat) as int);
        assert(0 <= a * f < 0x20_0000_0000_0000 * 0x1_0000_0000_0000_0000) by (nonlinear_arith)
            requires
                0 <= a < 0x20_0000_0000_0000,
                0 < f <= 0x1_0000_0000_0000_0000,
        ;
        assert(a * (f * c) == (a * f) * c) by (nonlinear_arith);
        if minus {
            assert(b <= a * f) by (nonlinear_arith)
                requires
                    b * c <= (a * f) * c,
                    c > 0,
            ;
            assert((a * f - b) * c == (a * f) * c - b * c) by (nonlinear_arith);
        } else {
            assert((a * f + b) * c == (a * f) * c + b * c) by (nonlinear_arith);
        }
    }
    let high: u128 = scale(m1 as u128, d);
    if minus {
        encode(high - m2 as u128, e2)
    } else {
        encode(high + m2 as u128, e2)
    }
}

/// `a - b`. A zero comes out without a sign.
pub fn subtract(a: Real64, b: Real64) -> (r: Real64)
    requires
        a.finite(),
        b.finite(),
        b.order_key() <= a.order_key(),
    ensures
        r == difference(a, b),
        r.bits <= INFINITE,
{
    let a_minus: bool = a.bits >= 0x8000_0000_0000_0000;
    let b_minus: bool = b.bits >= 0x8000_0000_0000_0000;
    let (m1, e1): (u64, u64) = a.parts();
    let (m2, e2): (u64, u64) = b.parts();
    if a_minus && !b_minus {
        assert(units(a) == 0) by (nonlinear_arith)
            requires
                units(a) == a.significand() * pow2((a.lead() - 1) as nat),
                a.significand() == 0,
        ;
        assert(units(b) == 0) by (nonlinear_arith)
            requires
                units(b) == b.significand() * pow2((b.lead() - 1) as nat),
                b.significand() == 0,
        ;
        proof {
            lemma_powers();
            lemma_round_exact(0, 1);
            assert(top_bit(0) == 0);
        }
        return Real64 { bits: 0 };
    }
    if !a_minus && b_minus {
        if e1 >= e2 {
            Real64 { bits: combine(m1, e1, m2, e2, false) }
        } else {
            Real64 { bits: combine(m2, e2, m1, e1, false) }
        }
    } else if !a_minus {
        proof {
            lemma_magnitudes(a, b);
        }
        Real64 { bits: combine(m1, e1, m2, e2, true) }
    } else {
        proof {
            lemma_magnitudes(b, a);
        }
        Real64 { bits: combine(m2, e2, m1, e1, true) }
    }
}

proof fn lemma_div_scale(n: int, d: int, c: int)
    requires
        n >= 0,
        d > 0,
        c > 0,
    ensures
        (n * c) / (d * c) == n / d,
{
    let q = n / d;
    let r = n % d;
    lemma_fundamental_div_mod(n, d);
    assert(n * c == q * (d * c) + r * c) by (nonlinear_arith)
        requires
            n == d * q + r,
    ;
    assert(0 <= r * c < d * c) by (nonlinear_arith)
        requires
            0 <= r < d,
            c > 0,
    ;
    lemma_fundamental_div_mod_converse(n * c, d * c, q, r * c);
}

/// Rounding a quotient does not change when both sides are scaled alike.
proof fn lemma_nearest_scale(n: int, d: int, c: int)
    requires
        n >= 0,
        d > 0,
        c > 0,
    ensures
        nearest_bits(n * c, d * c) == nearest_bits(n, d),
        d * c > 0,
{
    lemma_div_scale(n, d, c);
    let s = step_bits(n, d);
    let p = pow2(s) as int;
    lemma_pow2_pos(s);
    assert(d * p > 0) by (nonlinear_arith)
        requires
            d > 0,
            p > 0,
    ;
    lemma_round_scale(n, d * p, c);
    assert((d * p) * c == (d * c) * p) by (nonlinear_arith);
    assert(d * c > 0) by (nonlinear_arith)
        requires
            d > 0,
            c > 0,
    ;
}

/// Brings a significand up to its full width; gives the shift too.
fn widened(m: u64) -> (r: (u64, u64))
    requires
        1 <= m < 0x20_0000_0000_0000,
    ensures
        r.1 <= 52,
        r.0 == m * pow2(r.1 as nat),
        0x10_0000_0000_0000 <= r.0 < 0x20_0000_0000_0000,
{
    let mut w: u64 = m;
    let mut c: u64 = 0;
    proof {
        lemma_powers();
    }
    while w < 0x10_0000_0000_0000
        invariant
            c <= 52,
            1 <= m,
            w == m * pow2(c as nat),
            1 <= w < 0x20_0000_0000_0000,
        decreases 0x20_0000_0000_0000 - w,
    {
        proof {
            lemma_pow2_unfold((c + 1) as nat);
            lemma_powers();
            let (a, h, b) = (m as int, pow2(c as nat) as int, pow2((c + 1) as nat) as int);
            assert(a * h * 2 == a * b) by (nonlinear_arith)
                requires
                    b == 2 * h,
            ;
            if c == 52 {
                assert(a * h >= h) by (nonlinear_arith)
                    requires
                        a >= 1,
                        h >= 0,
                ;
            }
        }
        w = w * 2;
        c = c + 1;
    }
    (w, c)
}

/// `a / b`, where the result is below one.
pub fn divide(a: Real64, b: Real64) -> (r: Real64)
    requires
        b.finite(),
        a.bits < b.bits < 0x8000_0000_0000_0000,
    ensures
        r == quotient(a, b),
        r.bits <= ONE,
{
    assert(a.finite());
    let (m1, e1): (u64, u64) = a.parts();
    let (m2, e2): (u64, u64) = b.parts();
    let ghost whole = units(a) * pow2(1074);
    let ghost part = units(b);
    proof {
        lemma_pow2_pos(e1 as nat);
        lemma_pow2_pos(e2 as nat);
        lemma_pow2_pos(1074);
        lemma_powers();
        assert(m2 > 0);
        assert(part > 0) by (nonlinear_arith)
            requires
                part == m2 * pow2(e2 as nat),
                m2 > 0,
                pow2(e2 as nat) > 0,
        ;
    }
    if m1 == 0 {
        proof {
            assert(whole == 0) by (nonlinear_arith)
                requires
                    whole == units(a) * pow2(1074),
                    units(a) == m1 * pow2(e1 as nat),
                    m1 == 0,
            ;
            lemma_fundamental_div_mod_converse(0, part, 0, 0);
            assert(top_bit(0) == 0);
            assert(part * pow2(0) == part);
        }
        return Real64 { bits: 0 };
    }
    let (w1, c1): (u64, u64) = widened(m1);
    let (w2, c2): (u64, u64) = widened(m2);
    let j: u64 = if w1 >= w2 {
        12
    } else {
        11
    };
    let top: u64 = e1 + 1074 + c2 + j;
    let bottom: u64 = e2 + c1 + 64;
    let ghost n = w1 * pow2(64);
    proof {
        lemma_powers();
        lemma_scaled_sides(
            m1 as int,
            e1 as nat,
            c1 as nat,
            m2 as int,
            e2 as nat,
            c2 as nat,
        );
        assert(n < 0x20_0000_0000_0000 * 0x1_0000_0000_0000_0000);
    }
    let wide: u128 = scale(w1 as u128, 64);
    if top >= bottom {
        let s: u64 = top - bottom;
        let ghost d = w2 * pow2(j as nat);
        proof {
            assert(d >= 0x10_0000_0000_0000 * 0x800) by (nonlinear_arith)
                requires
                    d == w2 * pow2(j as nat),
                    w2 >= 0x10_0000_0000_0000,
                    pow2(j as nat) >= 0x800,
            ;
            assert(d <= 0x20_0000_0000_0000 * 0x1000) by (nonlinear_arith)
                requires
                    d == w2 * pow2(j as nat),
                    w2 < 0x20_0000_0000_0000,
                    pow2(j as nat) <= 0x1000,
            ;
            lemma_quotient_bits(
                whole,
                part,
                w1 as int,
                w2 as int,
                (e1 + 1074 + c2) as nat,
                (e2 + c1) as nat,
                j as nat,
                (c1 + c2) as nat,
            );
            assert(whole < part * pow2(1074)) by {
                lemma_units_order(a, b);
                let (x, y, z) = (units(a), units(b), pow2(1074) as int);
                assert(x * z < y * z) by (nonlinear_arith)
                    requires
                        x < y,
                        z > 0,
                ;
            }
            assert(s + 52 < 1074) by {
                if s + 52 >= 1074 {
                    if s + 52 > 1074 {
                        lemma_pow2_strictly_increases(1074, (s + 52) as nat);
                    }
                    let (y, z, w) = (part, pow2(1074) as int, pow2((s + 52) as nat) as int);
                    assert(y * z <= y * w) by (nonlinear_arith)
                        requires
                            y > 0,
                            z <= w,
                    ;
                }
            }
        }
        let step: u128 = scale(w2 as u128, j);
        let q: u64 = round_even_wide(wide, step) as u64;
        Real64 { bits: s * 0x10_0000_0000_0000 + q }
    } else {
        let k: u64 = j + (bottom - top);
        let ghost d = w2 * pow2(k as nat);
        proof {
            lemma_pow2_pos(k as nat);
            lemma_small_quotient_bits(
                whole,
                part,
                w1 as int,
                w2 as int,
                (e1 + 1074 + c2) as nat,
                (e2 + c1) as nat,
                j as nat,
                (c1 + c2) as nat,
            );
        }
        if k > 70 {
            proof {
                lemma_pow2_strictly_increases(70, k as nat);
                lemma_pow2_adds(64, 6);
                assert(pow2(6) == 64) by {
                    lemma2_to64();
                }
                assert(d > 2 * n) by (nonlinear_arith)
                    requires
                        d == w2 * pow2(k as nat),
                        n == w1 * 0x1_0000_0000_0000_0000,
                        w1 < 0x20_0000_0000_0000,
                        w2 >= 0x10_0000_0000_0000,
                        pow2(k as nat) > 0x40_0000_0000_0000_0000,
                ;
                lemma_fundamental_div_mod_converse(n, d, 0, n);
            }
            return Real64 { bits: 0 };
        }
        proof {
            if k < 70 {
                lemma_pow2_strictly_increases(k as nat, 70);
            }
            lemma_pow2_strictly_increases(11, k as nat);
            lemma_pow2_adds(64, 6);
            assert(pow2(6) == 64) by {
                lemma2_to64();
            }
            assert(d < 0x20_0000_0000_0000 * 0x40_0000_0000_0000_0000) by (nonlinear_arith)
                requires
                    d == w2 * pow2(k as nat),
                    w2 < 0x20_0000_0000_0000,
                    0 < pow2(k as nat) <= 0x40_0000_0000_0000_0000,
            ;
            assert(d > 1) by (nonlinear_arith)
                requires
                    d == w2 * pow2(k as nat),
                    w2 >= 0x10_0000_0000_0000,
                    pow2(k as nat) > 0,
            ;
        }
        let step: u128 = scale(w2 as u128, k);
        Real64 { bits: round_even_wide(wide, step) as u64 }
    }
}

/// Fewer bits, fewer units.
proof fn lemma_units_order(a: Real64, b: Real64)
    requires
        b.finite(),
        a.bits < b.bits < 0x8000_0000_0000_0000,
    ensures
        units(a) < units(b),
{
    lemma_magnitudes(b, a);
    let (x, y) = (a.significand(), b.significand());
    let (i, j) = ((a.lead() - 1) as nat, (b.lead() - 1) as nat);
    assert(a.bits as int == a.exponent_field() * 0x10_0000_0000_0000 + a.fraction());
    assert(b.bits as int == b.exponent_field() * 0x10_0000_0000_0000 + b.fraction());
    lemma_pow2_pos(i);
    if i == j {
        let c = pow2(i) as int;
        assert(x * c < y * c) by (nonlinear_arith)
            requires
                x < y,
                c > 0,
        ;
    } else {
        lemma_pow2_adds(i, (j - i) as nat);
        lemma_powers();
        if j - i > 1 {
            lemma_pow2_strictly_increases(1, (j - i) as nat);
        }
        let (c, f) = (pow2(i) as int, pow2((j - i) as nat) as int);
        assert(x * c < y * (c * f)) by (nonlinear_arith)
            requires
                y >= 0x10_0000_0000_0000,
                x < 0x20_0000_0000_0000,
                f >= 2,
                c > 0,
        ;
    }
}

/// Both sides of a quotient, scaled so that the significands have full width.
proof fn lemma_scaled_sides(m1: int, e1: nat, c1: nat, m2: int, e2: nat, c2: nat)
    ensures
        (m1 * pow2(e1)) * pow2(1074) * pow2(c1 + c2) == (m1 * pow2(c1)) * pow2(e1 + 1074 + c2),
        (m2 * pow2(e2)) * pow2(c1 + c2) == (m2 * pow2(c2)) * pow2(e2 + c1),
{
    lemma_pow2_adds(c1, c2);
    lemma_pow2_adds(e1, 1074);
    lemma_pow2_adds(e1 + 1074, c2);
    lemma_pow2_adds(e2, c1);
    let (a, b, c, d, z) = (
        pow2(e1) as int,
        pow2(e2) as int,
        pow2(c1) as int,
        pow2(c2) as int,
        pow2(1074) as int,
    );
    assert((m1 * a) * z * (c * d) == (m1 * c) * (a * z * d)) by (nonlinear_arith);
    assert((m2 * b) * (c * d) == (m2 * d) * (b * c)) by (nonlinear_arith);
}

/// A quotient whose step is at least that of the smallest numbers.
proof fn lemma_quotient_bits(
    whole: int,
    part: int,
    w1: int,
    w2: int,
    a: nat,
    b: nat,
    j: nat,
    c: nat,
)
    requires
        whole >= 0,
        part > 0,
        0x10_0000_0000_0000 <= w1 < 0x20_0000_0000_0000,
        0x10_0000_0000_0000 <= w2 < 0x20_0000_0000_0000,
        w1 >= w2 ==> j == 12,
        w1 < w2 ==> j == 11,
        a >= 64,
        a + j >= b + 64,
        whole * pow2(c) == w1 * pow2(a),
        part * pow2(c) == w2 * pow2(b),
    ensures
        ({
            let s = (a + j - b - 64) as nat;
            let q = round_half_even(w1 * pow2(64), w2 * pow2(j));
            &&& 0x10_0000_0000_0000 <= q <= 0x20_0000_0000_0000
            &&& part * pow2(s + 52) <= whole
            &&& s + 52 < 1074 ==> nearest_bits(whole, part) == s * 0x10_0000_0000_0000 + q
        }),
{
    let s = (a + j - b - 64) as nat;
    let g = pow2((a - 64) as nat) as int;
    let n = w1 * pow2(64);
    let d = w2 * pow2(j);
    let k = pow2(c) as int;
    lemma_powers();
    lemma_pow2_pos((a - 64) as nat);
    lemma_pow2_pos(c);
    lemma_pow2_pos(s);
    lemma_pow2_adds(64, (a - 64) as nat);
    lemma_pow2_adds(j, (a - 64) as nat);
    lemma_pow2_adds(b, s);
    assert(j + (a - 64) == b + s);
    let (pj, pb, ps) = (pow2(j) as int, pow2(b) as int, pow2(s) as int);
    assert(pj * g == pb * ps);
    assert(w1 * pow2(a) == n * g) by (nonlinear_arith)
        requires
            pow2(a) == pow2(64) * g,
            n == w1 * pow2(64),
    ;
    assert((w2 * pb) * ps == d * g) by (nonlinear_arith)
        requires
            pj * g == pb * ps,
            d == w2 * pj,
    ;
    assert(d > 0) by (nonlinear_arith)
        requires
            d == w2 * pj,
            w2 > 0,
            pj > 0,
    ;
    // The quotient has full width.
    assert(0x10_0000_0000_0000 * d <= n < 0x20_0000_0000_0000 * d) by {
        assert(n == w1 * 0x1_0000_0000_0000_0000);
        if j == 12 {
            assert(d == w2 * 0x1000);
        } else {
            assert(d == w2 * 0x800);
        }
    }
    lemma_round_between(n, d, 0x10_0000_0000_0000, 0x20_0000_0000_0000);
    // The same holds of the sides themselves.
    lemma_pow2_adds(52, s);
    lemma_pow2_adds(53, s);
    let (x, y) = (whole, part);
    assert((y * (0x10_0000_0000_0000 * ps)) * k <= x * k && x * k < (y * (0x20_0000_0000_0000 * ps))
        * k) by (nonlinear_arith)
        requires
            x * k == n * g,
            (y * k) * ps == d * g,
            0x10_0000_0000_0000 * d <= n < 0x20_0000_0000_0000 * d,
            g > 0,
    {
        assert((y * (0x10_0000_0000_0000 * ps)) * k == 0x10_0000_0000_0000 * ((y * k) * ps));
        assert((y * (0x20_0000_0000_0000 * ps)) * k == 0x20_0000_0000_0000 * ((y * k) * ps));
        assert(0x10_0000_0000_0000 * (d * g) <= n * g);
        assert(n * g < 0x20_0000_0000_0000 * (d * g));
    }
    let (low, high) = (pow2(s + 52) as int, pow2(s + 53) as int);
    assert(y * low <= x) by (nonlinear_arith)
        requires
            (y * low) * k <= x * k,
            k > 0,
    ;
    assert(x < y * high) by (nonlinear_arith)
        requires
            x * k < (y * high) * k,
            k > 0,
    ;
    assert(low * y <= x && x < high * y) by (nonlinear_arith)
        requires
            y * low <= x,
            x < y * high,
    ;
    lemma_round_between(x, y, low, high);
    lemma_top_bit_is(x / y, s + 52);
    assert(step_bits(x, y) == s);
    // Rounding at that step is rounding of the wide significands.
    assert(y * ps > 0) by (nonlinear_arith)
        requires
            y > 0,
            ps > 0,
    ;
    lemma_round_scale(x, y * ps, k);
    lemma_round_scale(n, d, g);
    assert((y * ps) * k == d * g) by (nonlinear_arith)
        requires
            (y * k) * ps == d * g,
    ;
    let q = round_half_even(n, d);
    if s + 52 < 1074 {
        assert(s * 0x10_0000_0000_0000 + q <= INFINITE) by (nonlinear_arith)
            requires
                s <= 1021,
                q <= 0x20_0000_0000_0000,
                INFINITE == 2047 * 0x10_0000_0000_0000,
        ;
    }
}

/// A quotient among the smallest numbers.
proof fn lemma_small_quotient_bits(
    whole: int,
    part: int,
    w1: int,
    w2: int,
    a: nat,
    b: nat,
    j: nat,
    c: nat,
)
    requires
        whole >= 0,
        part > 0,
        0x10_0000_0000_0000 <= w1 < 0x20_0000_0000_0000,
        0x10_0000_0000_0000 <= w2 < 0x20_0000_0000_0000,
        w1 >= w2 ==> j == 12,
        w1 < w2 ==> j == 11,
        a >= 64,
        a + j < b + 64,
        whole * pow2(c) == w1 * pow2(a),
        part * pow2(c) == w2 * pow2(b),
    ensures
        ({
            let k = (b + 64 - a) as nat;
            let q = round_half_even(w1 * pow2(64), w2 * pow2(k));
            &&& 0 <= q <= 0x10_0000_0000_0000
            &&& nearest_bits(whole, part) == q
        }),
{
    let k = (b + 64 - a) as nat;
    let g = pow2((a - 64) as nat) as int;
    let n = w1 * pow2(64);
    let d = w2 * pow2(k);
    lemma_powers();
    lemma_pow2_pos((a - 64) as nat);
    lemma_pow2_pos(c);
    lemma_pow2_pos(k);
    lemma_pow2_adds(64, (a - 64) as nat);
    lemma_pow2_adds(k, (a - 64) as nat);
    assert(k + (a - 64) == b);
    assert(w1 * pow2(a) == n * g) by (nonlinear_arith)
        requires
            pow2(a) == pow2(64) * g,
            n == w1 * pow2(64),
    ;
    assert(w2 * pow2(b) == d * g) by (nonlinear_arith)
        requires
            pow2(b) == pow2(k) * g,
            d == w2 * pow2(k),
    ;
    assert(d > 0) by (nonlinear_arith)
        requires
            d == w2 * pow2(k),
            w2 > 0,
            pow2(k) > 0,
    ;
    lemma_pow2_adds(j, (k - j) as nat);
    lemma_powers();
    if k - j > 1 {
        lemma_pow2_strictly_increases(1, (k - j) as nat);
    }
    assert(n < 0x10_0000_0000_0000 * d) by {
        let (pj, pr) = (pow2(j) as int, pow2((k - j) as nat) as int);
        assert(d >= 2 * (w2 * pj)) by (nonlinear_arith)
            requires
                d == w2 * (pj * pr),
                pr >= 2,
                w2 > 0,
                pj > 0,
        ;
        if j == 12 {
            assert(w2 * pj == w2 * 0x1000);
        } else {
            assert(w2 * pj == w2 * 0x800);
        }
    }
    lemma_round_between(n, d, 0, 0x10_0000_0000_0000);
    lemma_nearest_scale(whole, part, pow2(c) as int);
    lemma_nearest_scale(n, d, g);
    lemma_top_bit_small(n / d, 52);
    assert(step_bits(n, d) == 0);
    assert(d * pow2(0) == d);
}

/// A number of the unit interval in ten-thousandths, rounded to the nearest.
pub fn to_ten_thousandths(x: Real64) -> (r: u16)
    requires
        x.bits <= ONE,
    ensures
        r == ten_thousandths(x),
        r <= 10000,
{
    let (m, e): (u64, u64) = x.parts();
    let k: u64 = 1074 - e;
    let ghost n = 10000 * m;
    let ghost d = pow2(k as nat) as int;
    proof {
        lemma_powers();
        lemma_pow2_pos(k as nat);
        lemma_pow2_pos(e as nat);
        lemma_pow2_adds(k as nat, e as nat);
        lemma_round_scale(n as int, d, pow2(e as nat) as int);
        let (a, c) = (m as int, pow2(e as nat) as int);
        assert(10000 * (a * c) == (10000 * a) * c) by (nonlinear_arith);
        lemma_pow2_strictly_increases(51, k as nat);
        if k > 52 {
            lemma_pow2_strictly_increases(52, k as nat);
        }
        if k > 53 {
            lemma_pow2_strictly_increases(53, k as nat);
        }
        assert(m <= d) by {
            if k == 52 {
                assert(x.lead() == 1023);
                assert(x.fraction() == 0);
            }
        }
        if k < 120 {
            lemma_pow2_strictly_increases(k as nat, 120);
        }
        lemma_pow2_120();
        if m < d {
            lemma_round_between(n as int, d, 0, 10000);
        } else {
            lemma_round_exact(10000, d);
        }
    }
    if k > 120 {
        proof {
            lemma_pow2_strictly_increases(120, k as nat);
            lemma_fundamental_div_mod_converse(n as int, d, 0, n as int);
        }
        return 0;
    }
    let step: u128 = scale(1, k);
    round_even_wide(10000 * m as u128, step) as u16
}

/// `part / whole` for magnitudes, no larger than one: nothing where both are
/// infinite.
pub open spec fn proportion(part: Real64, whole: Real64) -> Option<Real64> {
    if whole.bits == INFINITE {
        if part.bits == INFINITE {
            None
        } else {
            Some(Real64 { bits: 0 })
        }
    } else if part.bits >= whole.bits {
        Some(Real64 { bits: ONE })
    } else {
        Some(quotient(part, whole))
    }
}

/// `part / whole`, no larger than one.
pub fn proportion_of(part: Real64, whole: Real64) -> (r: Option<Real64>)
    requires
        part.bits <= INFINITE,
        whole.bits <= INFINITE,
    ensures
        r == proportion(part, whole),
        r matches Some(p) ==> p.bits <= ONE,
{
    if whole.bits == INFINITE {
        if part.bits == INFINITE {
            None
        } else {
            Some(Real64 { bits: 0 })
        }
    } else if part.bits >= whole.bits {
        Some(Real64 { bits: ONE })
    } else {
        Some(divide(part, whole))
    }
}

/// What is left of one.
pub open spec fn complement(x: Real64) -> Real64 {
    difference(Real64 { bits: ONE }, x)
}

proof fn lemma_units_of_one()
    ensures
        units(Real64 { bits: ONE }) == pow2(1074),
{
    let one = Real64 { bits: ONE };
    assert(one.exponent_field() == 1023);
    assert(one.fraction() == 0);
    lemma_powers();
    lemma_pow2_adds(52, 1022);
}

/// A quotient below a power of two is rounded to that power at most.
proof fn lemma_nearest_bound(n: int, d: int, t: nat)
    requires
        d > 0,
        0 <= n < d * pow2(t),
        53 <= t <= 2097,
    ensures
        0 <= nearest_bits(n, d) <= (t - 51) * 0x10_0000_0000_0000,
{
    lemma_powers();
    lemma_pow2_pos(t);
    let limit = pow2(t) as int;
    assert(limit * d == d * limit) by (nonlinear_arith);
    assert(0 * d == 0);
    lemma_round_between(n, d, 0, limit);
    lemma_top_bit_small(n / d, t);
    let s = step_bits(n, d);
    let top = top_bit(n / d);
    lemma_pow2_pos(s);
    lemma_pow2_adds(53, s);
    let step = d * pow2(s);
    assert(step > 0) by (nonlinear_arith)
        requires
            step == d * pow2(s),
            d > 0,
            pow2(s) > 0,
    ;
    // The quotient is below 2^(53 + s).
    lemma_pow2_unfold(top + 1);
    if n / d >= 1 {
        lemma_top_bit(n / d);
    }
    if top + 1 < s + 53 {
        lemma_pow2_strictly_increases(top + 1, s + 53);
    }
    lemma_pow2_pos(s + 53);
    assert(n / d < pow2(s + 53));
    lemma_fundamental_div_mod(n, d);
    let (q, h, p) = (n / d, pow2(s + 53) as int, pow2(s) as int);
    assert(n < 0x20_0000_0000_0000 * step) by (nonlinear_arith)
        requires
            n == d * q + n % d,
            n % d < d,
            q + 1 <= h,
            h == 0x20_0000_0000_0000 * p,
            step == d * p,
            d > 0,
    ;
    assert(0 * step == 0);
    lemma_round_between(n, step, 0, 0x20_0000_0000_0000);
    assert(s * 0x10_0000_0000_0000 + 0x20_0000_0000_0000 <= (t - 51) * 0x10_0000_0000_0000)
        by (nonlinear_arith)
        requires
            s <= t - 53,
    ;
}

/// Up to one, nothing is rounded past one.
proof fn lemma_nearest_up_to_one(n: int)
    requires
        0 <= n <= pow2(1074),
    ensures
        0 <= nearest_bits(n, 1) <= ONE,
        n == pow2(1074) ==> nearest_bits(n, 1) == ONE,
        n == 0 ==> nearest_bits(n, 1) == 0,
{
    lemma_powers();
    lemma_pow2_pos(1074);
    assert(n / 1 == n);
    if n == 0 {
        assert(top_bit(0) == 0);
        lemma_round_exact(0, 1);
    } else if n == pow2(1074) {
        lemma_pow2_strictly_increases(1074, 1075);
        lemma_top_bit_is(n, 1074);
        lemma_pow2_adds(52, 1022);
        lemma_pow2_pos(1022);
        lemma_round_exact(0x10_0000_0000_0000, pow2(1022) as int);
    } else {
        lemma_nearest_bound(n, 1, 1074);
    }
}

proof fn lemma_units_bound(x: Real64)
    requires
        x.finite(),
    ensures
        0 <= units(x) < pow2((x.lead() + 52) as nat),
{
    let e = (x.lead() - 1) as nat;
    lemma_powers();
    lemma_pow2_pos(e);
    lemma_pow2_adds(53, e);
    let (m, c) = (x.significand(), pow2(e) as int);
    assert(0 <= m * c < 0x20_0000_0000_0000 * c) by (nonlinear_arith)
        requires
            0 <= m < 0x20_0000_0000_0000,
            c > 0,
    ;
}

/// The order of finite numbers is the order of their units.
pub proof fn lemma_signed_order(a: Real64, b: Real64)
    requires
        a.finite(),
        b.finite(),
        b.order_key() <= a.order_key(),
    ensures
        signed_units(b) <= signed_units(a),
        b.order_key() < a.order_key() ==> signed_units(b) < signed_units(a),
{
    let x = lemma_without_sign(a);
    let y = lemma_without_sign(b);
    let zero = Real64 { bits: 0 };
    assert(units(zero) == 0) by {
        assert(zero.significand() == 0);
    }
    if y.bits < x.bits {
        lemma_units_order(y, x);
    }
    if x.bits < y.bits {
        lemma_units_order(x, y);
    }
    if x.bits > 0 {
        lemma_units_order(zero, x);
    }
    if y.bits > 0 {
        lemma_units_order(zero, y);
    }
    if a.negative() && b.negative() {
        assert(x.bits <= y.bits);
    } else if a.negative() {
        assert(x == zero && y == zero);
    } else if b.negative() {
        assert(units(x) >= 0 && units(y) >= 0);
    } else {
        assert(y.bits <= x.bits);
    }
}

/// A number without its sign.
proof fn lemma_without_sign(a: Real64) -> (x: Real64)
    requires
        a.finite(),
    ensures
        x.finite(),
        x.bits < 0x8000_0000_0000_0000,
        units(x) == units(a),
        a.order_key() == if a.negative() {
            -(x.bits as int)
        } else {
            x.bits as int
        },
{
    let x = Real64 { bits: (a.bits as int % 0x8000_0000_0000_0000) as u64 };
    assert(x.exponent_field() == a.exponent_field());
    assert(x.fraction() == a.fraction());
    x
}

/// An integer of up to 53 bits is exact in double precision.
pub proof fn lemma_integer_is_exact(n: int)
    requires
        -0x20_0000_0000_0000 <= n <= 0x20_0000_0000_0000,
    ensures
        Real64::nearest_integer(n).finite(),
        signed_units(Real64::nearest_integer(n)) == n * pow2(1074),
{
    let size = if n < 0 {
        -n
    } else {
        n
    };
    let x = Real64::nearest_natural(size);
    lemma_natural_is_exact(size);
    if n < 0 {
        let y = Real64::nearest_integer(n);
        assert(y.exponent_field() == x.exponent_field());
        assert(y.fraction() == x.fraction());
        assert(y.negative());
        let p = pow2(1074) as int;
        assert(-(size * p) == n * p) by (nonlinear_arith)
            requires
                n == -size,
        ;
    }
}

proof fn lemma_natural_is_exact(n: int)
    requires
        0 <= n <= 0x20_0000_0000_0000,
    ensures
        Real64::nearest_natural(n).bits < INFINITE,
        Real64::nearest_natural(n).finite(),
        units(Real64::nearest_natural(n)) == n * pow2(1074),
{
    let x = Real64::nearest_natural(n);
    lemma_powers();
    if n == 0 {
        assert(x.significand() == 0);
        return ;
    }
    lemma_top_bit(n);
    if n == 0x20_0000_0000_0000 {
        lemma_pow2_unfold(54);
        lemma_top_bit_is(n, 53);
        lemma_round_exact(0x10_0000_0000_0000, 2);
        assert(x.bits == 1076 * 0x10_0000_0000_0000);
        assert(x.exponent_field() == 1076);
        assert(x.fraction() == 0);
        lemma_pow2_adds(52, 1075);
        lemma_pow2_adds(53, 1074);
        return ;
    }
    lemma_top_bit_small(n, 53);
    let b = top_bit(n);
    let k = (52 - b) as nat;
    let m = n * pow2(k);
    lemma_pow2_pos(k);
    lemma_pow2_adds(b, k);
    let (p, u) = (pow2(b) as int, pow2(k) as int);
    assert(p * u <= n * u && n * u < 2 * (p * u)) by (nonlinear_arith)
        requires
            p <= n < 2 * p,
            u > 0,
    ;
    assert(0x10_0000_0000_0000 <= m < 0x20_0000_0000_0000);
    assert(x.bits == (1022 + b) * 0x10_0000_0000_0000 + m);
    assert(x.exponent_field() == 1023 + b);
    assert(x.fraction() == m - 0x10_0000_0000_0000);
    assert(x.lead() - 1 == 1022 + b);
    lemma_pow2_adds(k, (1022 + b) as nat);
    let (q, w) = (pow2((1022 + b) as nat) as int, pow2(1074) as int);
    assert(n * u * q == n * w) by (nonlinear_arith)
        requires
            u * q == w,
    ;
}

/// The difference of finite numbers is not negative, and at most infinite.
pub proof fn lemma_difference_bound(a: Real64, b: Real64)
    requires
        a.finite(),
        b.finite(),
        b.order_key() <= a.order_key(),
    ensures
        difference(a, b).bits <= INFINITE,
{
    lemma_signed_order(a, b);
    lemma_difference_size(a, b, 2046);
}

proof fn lemma_difference_size(a: Real64, b: Real64, lead: int)
    requires
        a.finite(),
        b.finite(),
        b.order_key() <= a.order_key(),
        1 <= lead <= 2046,
        a.lead() <= lead,
        b.lead() <= lead,
    ensures
        0 <= nearest_bits(signed_units(a) - signed_units(b), 1),
        difference(a, b).bits as int == nearest_bits(signed_units(a) - signed_units(b), 1),
        lead < 2044 ==> difference(a, b).bits <= (lead + 2) * 0x10_0000_0000_0000,
{
    lemma_signed_order(a, b);
    lemma_units_bound(a);
    lemma_units_bound(b);
    let t = (lead + 52) as nat;
    if a.lead() < lead {
        lemma_pow2_strictly_increases((a.lead() + 52) as nat, t);
    }
    if b.lead() < lead {
        lemma_pow2_strictly_increases((b.lead() + 52) as nat, t);
    }
    lemma_pow2_unfold(t + 1);
    let n = signed_units(a) - signed_units(b);
    assert(0 <= n < 2 * pow2(t));
    assert(1 * pow2(t + 1) == pow2(t + 1));
    if t + 1 <= 2097 {
        lemma_nearest_bound(n, 1, t + 1);
    } else {
        lemma_pow2_pos(step_bits(n, 1));
        lemma_fundamental_div_mod(n, 1 * pow2(step_bits(n, 1)) as int);
        assert(round_half_even(n, 1 * pow2(step_bits(n, 1)) as int) >= 0) by {
            lemma_round_between_zero(n, 1 * pow2(step_bits(n, 1)) as int);
        }
    }
}

proof fn lemma_round_between_zero(n: int, d: int)
    requires
        n >= 0,
        d > 0,
    ensures
        round_half_even(n, d) >= 0,
{
    lemma_fundamental_div_mod(n, d);
    assert(n / d >= 0) by (nonlinear_arith)
        requires
            n >= 0,
            d > 0,
    ;
}

/// The difference of numbers of moderate size is finite.
pub proof fn lemma_difference_is_finite(a: Real64, b: Real64)
    requires
        a.finite(),
        b.finite(),
        a.lead() <= 1087,
        b.lead() <= 1087,
    ensures
        b.order_key() <= a.order_key() ==> difference(a, b).bits < INFINITE,
{
    if b.order_key() <= a.order_key() {
        lemma_difference_size(a, b, 1087);
    }
}

/// The difference of different numbers is not zero.
pub proof fn lemma_difference_is_positive(a: Real64, b: Real64)
    requires
        a.finite(),
        b.finite(),
        b.order_key() < a.order_key(),
    ensures
        difference(a, b).bits > 0,
{
    lemma_signed_order(a, b);
    lemma_difference_size(a, b, 2046);
    let n = signed_units(a) - signed_units(b);
    assert(n / 1 == n);
    lemma_powers();
    let s = step_bits(n, 1);
    lemma_pow2_pos(s);
    if s == 0 {
        lemma_round_exact(n, 1);
    } else {
        lemma_round_between_zero(n, 1 * pow2(s) as int);
    }
}

/// A proportion is one at most.
pub proof fn lemma_proportion_bound(part: Real64, whole: Real64)
    requires
        whole.bits <= INFINITE,
        proportion(part, whole) is Some,
    ensures
        proportion(part, whole).unwrap().bits <= ONE,
{
    if whole.bits != INFINITE && part.bits < whole.bits {
        lemma_units_order(part, whole);
        lemma_units_bound(part);
        lemma_pow2_pos(1074);
        let (x, y, z) = (units(part), units(whole), pow2(1074) as int);
        assert(0 <= x * z < y * z) by (nonlinear_arith)
            requires
                0 <= x < y,
                z > 0,
        ;
        lemma_nearest_bound(x * z, y, 1074);
    }
}

/// What is left of one is one at most.
pub proof fn lemma_complement_bound(x: Real64)
    requires
        x.bits <= ONE,
    ensures
        complement(x).bits <= ONE,
{
    let one = Real64 { bits: ONE };
    lemma_magnitudes(one, x);
    lemma_units_of_one();
    lemma_units_bound(x);
    lemma_nearest_up_to_one(units(one) - units(x));
}

/// A share of one has ten thousand ten-thousandths at most.
pub proof fn lemma_share_bound(x: Real64)
    requires
        x.bits <= ONE,
    ensures
        0 <= ten_thousandths(x) <= 10000,
{
    let one = Real64 { bits: ONE };
    lemma_magnitudes(one, x);
    lemma_units_of_one();
    lemma_units_bound(x);
    lemma_pow2_pos(1074);
    let d = pow2(1074) as int;
    if units(x) == d {
        lemma_round_exact(10000, d);
    } else {
        assert(0 * d == 0);
        lemma_round_between(10000 * units(x), d, 0, 10000);
    }
}

/// What is left of one.
pub fn complement_of(x: Real64) -> (r: Real64)
    requires
        x.bits <= ONE,
    ensures
        r == complement(x),
        r.bits <= ONE,
{
    let one: Real64 = Real64 { bits: ONE };
    proof {
        lemma_complement_bound(x);
    }
    subtract(one, x)
}

/// Nothing is left of one when one is taken away, and all when nothing is.
pub proof fn complement_of_the_bounds()
    ensures
        complement(Real64 { bits: ONE }) == (Real64 { bits: 0 }),
        complement(Real64 { bits: 0 }) == (Real64 { bits: ONE }),
        ten_thousandths(Real64 { bits: 0 }) == 0,
        ten_thousandths(Real64 { bits: ONE }) == 10000,
{
    lemma_units_of_one();
    lemma_powers();
    lemma_pow2_pos(1074);
    let zero = Real64 { bits: 0 };
    assert(zero.significand() == 0);
    assert(units(zero) == 0);
    lemma_nearest_up_to_one(0);
    lemma_nearest_up_to_one(pow2(1074) as int);
    lemma_round_exact(0, pow2(1074) as int);
    lemma_round_exact(10000, pow2(1074) as int);
}

/// A number taken from itself leaves nothing.
pub proof fn nothing_is_left_of_equal_numbers(x: Real64)
    ensures
        difference(x, x) == (Real64 { bits: 0 }),
{
    lemma_pow2_pos(1074);
    lemma_nearest_up_to_one(0);
}

/// A share of nothing is nothing.
pub proof fn no_part_is_no_proportion(whole: Real64)
    requires
        0 < whole.bits < INFINITE,
    ensures
        proportion(Real64 { bits: 0 }, whole) == Some(Real64 { bits: 0 }),
{
    let zero = Real64 { bits: 0 };
    assert(zero.significand() == 0);
    assert(units(zero) == 0);
    lemma_units_order(zero, whole);
    lemma_fundamental_div_mod_converse(0, units(whole), 0, 0);
    assert(top_bit(0) == 0);
    lemma_powers();
    assert(0 * pow2(1074) == 0);
    let (u, p) = (units(whole), pow2(0) as int);
    assert(u * p == u) by (nonlinear_arith)
        requires
            p == 1,
    ;
}

/// A finite number rounded to one decimal, its sign aside, in tenths.
pub open spec fn tenths(x: Real32) -> int {
    round_half_even(10 * (x.significand() * pow2(x.lead() as nat)), pow2(150) as int)
}

/// A number in text, with one decimal.
pub open spec fn one_decimal_text(x: Real32) -> Seq<char> {
    let sign = if x.negative() {
        "-"@
    } else {
        ""@
    };
    if x.exponent_field() == 255 {
        if x.fraction() != 0 {
            "NaN"@
        } else {
            sign + "inf"@
        }
    } else {
        sign + decimal_text(tenths(x) / 10) + "."@ + decimal_text(tenths(x) % 10)
    }
}

fn get_tenths_small(m: u64, lead: u64) -> (r: u128)
    requires
        m < 0x100_0000,
        1 <= lead < 150,
    ensures
        r == round_half_even(10 * (m * pow2(lead as nat)), pow2(150) as int),
{
    let k: u64 = 150 - lead;
    let ghost d = pow2(k as nat) as int;
    proof {
        lemma_powers();
        lemma_pow2_strictly_increases(0, k as nat);
        lemma_pow2_pos(lead as nat);
        lemma_pow2_adds(k as nat, lead as nat);
        let (a, c) = (m as int, pow2(lead as nat) as int);
        assert(10 * (a * c) == (10 * a) * c) by (nonlinear_arith);
        lemma_round_scale(10 * m, d, pow2(lead as nat) as int);
        lemma_pow2_120();
        if k < 120 {
            lemma_pow2_strictly_increases(k as nat, 120);
        }
    }
    if k > 120 {
        proof {
            lemma_pow2_strictly_increases(120, k as nat);
            lemma_fundamental_div_mod_converse(10 * m as int, d, 0, 10 * m as int);
        }
        return 0;
    }
    round_even_wide(10 * m as u128, scale(1, k))
}

/// Writes a number with one decimal.
pub fn append_one_decimal(out: &mut String, x: Real32)
    ensures
        final(out)@ == old(out)@ + one_decimal_text(x),
{
    let ghost before = out@;
    let fraction: u32 = x.bits % 0x80_0000;
    let exponent: u32 = (x.bits / 0x80_0000) % 256;
    proof {
        reveal_strlit("");
        reveal_strlit("0");
        assert(""@ =~= Seq::empty());
    }
    if exponent == 255 && fraction != 0 {
        out.append("NaN");
        return;
    }
    if x.bits >= 0x8000_0000 {
        out.append("-");
    }
    let ghost signed = out@;
    assert(signed =~= before + (if x.negative() {
        "-"@
    } else {
        ""@
    }));
    if exponent == 255 {
        out.append("inf");
        assert(out@ =~= before + one_decimal_text(x));
        return;
    }
    let lead: u64 = if exponent == 0 {
        1
    } else {
        exponent as u64
    };
    let m: u64 = if exponent == 0 {
        fraction as u64
    } else {
        fraction as u64 + 0x80_0000
    };
    if lead >= 150 {
        let k: u64 = lead - 150;
        proof {
            lemma_powers();
            lemma_pow2_pos(k as nat);
            lemma_pow2_pos(150);
            lemma_pow2_104();
            if k < 104 {
                lemma_pow2_strictly_increases(k as nat, 104);
            }
            lemma_pow2_adds(k as nat, 150);
            let (a, b, c) = (m as int, pow2(k as nat) as int, pow2(150) as int);
            assert(0 <= a * b <= u128::MAX) by (nonlinear_arith)
                requires
                    0 <= a <= 0xff_ffff,
                    0 < b <= 0x100_0000_0000_0000_0000_0000_0000,
            ;
            assert(10 * (a * (b * c)) == (10 * (a * b)) * c) by (nonlinear_arith);
            lemma_round_exact(10 * (a * b), c);
            assert((10 * (a * b)) / 10 == a * b);
            assert((10 * (a * b)) % 10 == 0);
        }
        let v: u128 = scale(m as u128, k);
        append_decimal(out, v);
        out.append(".");
        append_decimal(out, 0);
        assert(out@ =~= before + one_decimal_text(x));
    } else {
        let t: u128 = get_tenths_small(m, lead);
        append_decimal(out, t / 10);
        out.append(".");
        append_decimal(out, t % 10);
        assert(out@ =~= before + one_decimal_text(x));
    }
}

proof fn lemma_pow2_104()
    ensures
        pow2(104) == 0x100_0000_0000_0000_0000_0000_0000,
{
    lemma2_to64();
    lemma2_to64_rest();
    lemma_pow2_adds(52, 52);
    assert(pow2(104) == 0x10_0000_0000_0000 * 0x10_0000_0000_0000);
}

/// The units of a number follow from its bits, step and significand.
proof fn lemma_units_of_bits(s: nat, q: int)
    requires
        0 <= q <= 0x20_0000_0000_0000,
        s > 0 ==> q >= 0x10_0000_0000_0000,
        s * 0x10_0000_0000_0000 + q < INFINITE,
    ensures
        units(Real64 { bits: (s * 0x10_0000_0000_0000 + q) as u64 }) == q * pow2(s),
{
    let x = Real64 { bits: (s * 0x10_0000_0000_0000 + q) as u64 };
    lemma_powers();
    if q < 0x10_0000_0000_0000 {
        assert(s == 0);
        assert(x.exponent_field() == 0);
        assert(x.fraction() == q);
    } else if q < 0x20_0000_0000_0000 {
        assert(x.exponent_field() == s + 1);
        assert(x.fraction() == q - 0x10_0000_0000_0000);
    } else {
        assert(x.exponent_field() == s + 2);
        assert(x.fraction() == 0);
        lemma_pow2_unfold(s + 1);
        assert(0x10_0000_0000_0000 * (2 * pow2(s)) == 0x20_0000_0000_0000 * pow2(s));
    }
}

/// A rounded quotient is off by half a step at most, and a step is no wider than the
/// quotient allows.
proof fn lemma_nearest_error(n: int, d: int)
    requires
        n >= 0,
        d > 0,
        nearest_bits(n, d) < INFINITE,
    ensures
        ({
            let u = units(Real64 { bits: nearest_bits(n, d) as u64 });
            let s = step_bits(n, d);
            &&& u >= 0
            &&& -(d * pow2(s)) <= 2 * (u * d - n) <= d * pow2(s)
            &&& s > 0 ==> d * pow2(s) * 0x10_0000_0000_0000 <= n
        }),
{
    let s = step_bits(n, d);
    let p = pow2(s) as int;
    let step = d * p;
    let q = round_half_even(n, step);
    lemma_pow2_pos(s);
    assert(step > 0) by (nonlinear_arith)
        requires
            step == d * p,
            d > 0,
            p > 0,
    ;
    lemma_round_octave(n, d);
    rounding_is_nearest(n, step);
    assert(nearest_bits(n, d) == s * 0x10_0000_0000_0000 + q);
    lemma_units_of_bits(s, q);
    let u = q * p;
    assert(u * d == q * step) by (nonlinear_arith)
        requires
            u == q * p,
            step == d * p,
    ;
    assert(u >= 0) by (nonlinear_arith)
        requires
            u == q * p,
            q >= 0,
            p > 0,
    ;
}

/// A difference is off the exact one by one part in 2^53 at most.
pub proof fn difference_is_close(a: Real64, b: Real64)
    requires
        a.finite(),
        b.finite(),
        b.order_key() <= a.order_key(),
        difference(a, b).bits < INFINITE,
    ensures
        ({
            let exact = signed_units(a) - signed_units(b);
            let off = units(difference(a, b)) - exact;
            &&& exact >= 0
            &&& -exact <= 0x20_0000_0000_0000 * off <= exact
        }),
{
    lemma_signed_order(a, b);
    lemma_difference_size(a, b, 2046);
    let n = signed_units(a) - signed_units(b);
    lemma_nearest_error(n, 1);
    let s = step_bits(n, 1);
    lemma_powers();
    if s == 0 {
        lemma_round_exact(n, 1);
        assert(n / 1 == n);
        if n >= 0x20_0000_0000_0000 {
            lemma_top_bit(n);
            if top_bit(n) < 52 {
                lemma_pow2_strictly_increases(top_bit(n), 52);
            }
            assert(false);
        }
        lemma_units_of_bits(0, n);
        assert(n * pow2(0) == n);
    } else {
        let p = pow2(s) as int;
        assert(1 * p == p);
    }
}

/// A quotient below one is off the exact one by one part in 2^53 at most, or by half
/// of the smallest number.
pub proof fn quotient_is_close(a: Real64, b: Real64)
    requires
        b.finite(),
        a.bits < b.bits < 0x8000_0000_0000_0000,
    ensures
        ({
            let exact = units(a) * pow2(1074);
            let off = units(quotient(a, b)) * units(b) - exact;
            let slack = exact + 0x10_0000_0000_0000 * units(b);
            -slack <= 0x20_0000_0000_0000 * off <= slack
        }),
        quotient(a, b).bits <= ONE,
        units(b) > 0,
{
    let zero = Real64 { bits: 0 };
    assert(units(zero) == 0) by {
        assert(zero.significand() == 0);
    }
    lemma_units_order(a, b);
    lemma_units_bound(a);
    lemma_pow2_pos(1074);
    let (x, d, z) = (units(a), units(b), pow2(1074) as int);
    let n = x * z;
    assert(0 <= n < d * z) by (nonlinear_arith)
        requires
            n == x * z,
            0 <= x < d,
            z > 0,
    ;
    lemma_nearest_bound(n, d, 1074);
    lemma_nearest_error(n, d);
    let s = step_bits(n, d);
    lemma_powers();
    if s == 0 {
        assert(d * pow2(0) == d) by (nonlinear_arith)
            requires
                pow2(0) == 1,
        ;
    }
}

/// Rounding keeps the order of what is rounded.
proof fn lemma_round_monotone(m: int, n: int, d: int)
    requires
        0 <= m <= n,
        d > 0,
    ensures
        round_half_even(m, d) <= round_half_even(n, d),
{
    lemma_fundamental_div_mod(m, d);
    lemma_fundamental_div_mod(n, d);
    let (p, q) = (m / d, n / d);
    assert(p <= q) by (nonlinear_arith)
        requires
            m == d * p + m % d,
            n == d * q + n % d,
            m <= n,
            0 <= m % d,
            n % d < d,
            d > 0,
    ;
    if p == q {
        assert(m % d <= n % d);
    }
}

proof fn lemma_top_bit_monotone(m: int, n: int)
    requires
        0 <= m <= n,
    ensures
        top_bit(m) <= top_bit(n),
    decreases n,
{
    if m >= 2 {
        lemma_top_bit_monotone(m / 2, n / 2);
    }
}

/// The larger quotient is rounded to the larger number.
proof fn lemma_nearest_monotone(m: int, n: int, d: int)
    requires
        0 <= m <= n,
        d > 0,
    ensures
        nearest_bits(m, d) <= nearest_bits(n, d),
{
    let (s, t) = (step_bits(m, d), step_bits(n, d));
    assert(0 <= m / d <= n / d) by {
        vstd::arithmetic::div_mod::lemma_div_is_ordered(m, n, d);
        assert(m / d >= 0) by (nonlinear_arith)
            requires
                m >= 0,
                d > 0,
        ;
    }
    lemma_top_bit_monotone(m / d, n / d);
    lemma_pow2_pos(s);
    lemma_pow2_pos(t);
    if s == t {
        let p = pow2(s) as int;
        assert(d * p > 0) by (nonlinear_arith)
            requires
                d > 0,
                p > 0,
        ;
        lemma_round_monotone(m, n, d * p);
    } else {
        // The steps differ: the larger number lies in a higher octave.
        lemma_round_octave(m, d);
        lemma_round_octave(n, d);
        assert(s * 0x10_0000_0000_0000 + 0x20_0000_0000_0000 <= t * 0x10_0000_0000_0000
            + 0x10_0000_0000_0000) by (nonlinear_arith)
            requires
                s + 1 <= t,
        ;
    }
}

/// The rounded significand has its place in the octave of its step.
proof fn lemma_round_octave(n: int, d: int)
    requires
        n >= 0,
        d > 0,
    ensures
        0 <= round_half_even(n, d * pow2(step_bits(n, d))) <= 0x20_0000_0000_0000,
        step_bits(n, d) > 0 ==> round_half_even(n, d * pow2(step_bits(n, d)))
            >= 0x10_0000_0000_0000,
        step_bits(n, d) > 0 ==> d * pow2(step_bits(n, d)) * 0x10_0000_0000_0000 <= n,
{
    let s = step_bits(n, d);
    let top = top_bit(n / d);
    let p = pow2(s) as int;
    let step = d * p;
    lemma_powers();
    lemma_pow2_pos(s);
    lemma_fundamental_div_mod(n, d);
    assert(step > 0) by (nonlinear_arith)
        requires
            step == d * p,
            d > 0,
            p > 0,
    ;
    assert(n / d >= 0) by (nonlinear_arith)
        requires
            n >= 0,
            d > 0,
    ;
    if n / d >= 1 {
        lemma_top_bit(n / d);
    }
    lemma_pow2_adds(52, s);
    lemma_pow2_adds(53, s);
    lemma_pow2_unfold(top + 1);
    if top + 1 < s + 53 {
        lemma_pow2_strictly_increases(top + 1, s + 53);
    }
    lemma_pow2_pos(s + 53);
    let (w, h) = (n / d, pow2(s + 53) as int);
    assert(n < 0x20_0000_0000_0000 * step) by (nonlinear_arith)
        requires
            n == d * w + n % d,
            n % d < d,
            w + 1 <= h,
            h == 0x20_0000_0000_0000 * p,
            step == d * p,
            d > 0,
    ;
    if s > 0 {
        let l = pow2(s + 52) as int;
        assert(0x10_0000_0000_0000 * step <= n) by (nonlinear_arith)
            requires
                n == d * w + n % d,
                n % d >= 0,
                w >= l,
                l == 0x10_0000_0000_0000 * p,
                step == d * p,
                d > 0,
        ;
        lemma_round_between(n, step, 0x10_0000_0000_0000, 0x20_0000_0000_0000);
    } else {
        assert(0 * step == 0);
        lemma_round_between(n, step, 0, 0x20_0000_0000_0000);
    }
}

/// Of two numbers the larger one is the farther from a third below both.
pub proof fn difference_keeps_order(a: Real64, b: Real64, c: Real64)
    requires
        a.finite(),
        b.finite(),
        c.finite(),
        c.order_key() <= b.order_key() <= a.order_key(),
    ensures
        difference(b, c).bits <= difference(a, c).bits,
{
    lemma_signed_order(a, b);
    lemma_signed_order(b, c);
    lemma_difference_size(a, c, 2046);
    lemma_difference_size(b, c, 2046);
    lemma_nearest_monotone(
        signed_units(b) - signed_units(c),
        signed_units(a) - signed_units(c),
        1,
    );
}

/// The larger part is the larger proportion.
pub proof fn proportion_keeps_order(a: Real64, b: Real64, whole: Real64)
    requires
        a.bits <= b.bits,
        0 < whole.bits < INFINITE,
    ensures
        proportion(a, whole) is Some,
        proportion(b, whole) is Some,
        proportion(a, whole).unwrap().bits <= proportion(b, whole).unwrap().bits <= ONE,
{
    lemma_proportion_bound(a, whole);
    lemma_proportion_bound(b, whole);
    if b.bits < whole.bits {
        quotient_is_close(a, whole);
        quotient_is_close(b, whole);
        lemma_magnitudes(b, a);
        lemma_units_bound(a);
        lemma_pow2_pos(1074);
        let (x, y, z) = (units(a), units(b), pow2(1074) as int);
        assert(0 <= x * z <= y * z) by (nonlinear_arith)
            requires
                0 <= x <= y,
                z > 0,
        ;
        lemma_units_order(b, whole);
        assert(y * z < units(whole) * z) by (nonlinear_arith)
            requires
                y < units(whole),
                z > 0,
        ;
        lemma_nearest_bound(x * z, units(whole), 1074);
        lemma_nearest_bound(y * z, units(whole), 1074);
        lemma_nearest_monotone(x * z, y * z, units(whole));
    }
}

/// The more is taken from one, the less is left.
pub proof fn complement_turns_order(a: Real64, b: Real64)
    requires
        a.bits <= b.bits <= ONE,
    ensures
        complement(b).bits <= complement(a).bits <= ONE,
{
    let one = Real64 { bits: ONE };
    lemma_complement_bound(a);
    lemma_complement_bound(b);
    lemma_magnitudes(one, a);
    lemma_magnitudes(one, b);
    lemma_magnitudes(b, a);
    lemma_units_of_one();
    lemma_units_bound(a);
    lemma_units_bound(b);
    lemma_nearest_up_to_one(units(one) - units(a));
    lemma_nearest_up_to_one(units(one) - units(b));
    lemma_nearest_monotone(units(one) - units(b), units(one) - units(a), 1);
}

/// The larger share has more ten-thousandths.
pub proof fn ten_thousandths_keep_order(a: Real64, b: Real64)
    requires
        a.bits <= b.bits <= ONE,
    ensures
        ten_thousandths(a) <= ten_thousandths(b),
{
    lemma_magnitudes(b, a);
    lemma_units_bound(a);
    lemma_pow2_pos(1074);
    lemma_round_monotone(10000 * units(a), 10000 * units(b), pow2(1074) as int);
}

/// The proportion of two exact lengths `x` and `d`, whose doubles are `part` and
/// `whole`, is off by one part in 2^50 at most.
pub proof fn lemma_proportion_close(part: Real64, whole: Real64, x: int, d: int)
    requires
        0 <= x <= d,
        0 < d,
        part.bits < INFINITE,
        0 < whole.bits < INFINITE,
        -x <= 0x20_0000_0000_0000 * (units(part) - x) <= x,
        -d <= 0x20_0000_0000_0000 * (units(whole) - d) <= d,
    ensures
        proportion(part, whole) is Some,
        ({
            let q = units(proportion(part, whole).unwrap());
            let k = pow2(1074) as int;
            &&& 0 <= q <= k
            &&& -(k * d) <= 0x4_0000_0000_0000 * (q * d - k * x) <= k * d
        }),
{
    let k = pow2(1074) as int;
    let (a, b) = (units(part), units(whole));
    lemma_pow2_pos(1074);
    lemma_powers();
    lemma_pow2_strictly_increases(64, 1074);
    lemma_units_of_one();
    lemma_units_bound(part);
    lemma_units_bound(whole);
    lemma_proportion_bound(part, whole);
    let p = proportion(part, whole).unwrap();
    lemma_magnitudes(Real64 { bits: ONE }, p);
    lemma_units_bound(p);
    let q = units(p);
    if part.bits >= whole.bits {
        lemma_magnitudes(part, whole);
        assert(q == k);
        // The part is as long as the whole, but for the rounding.
        assert(0x20_0000_0000_0000 * (d - x) <= 2 * d);
        assert(0 <= 0x4_0000_0000_0000 * (d - x) <= d);
        assert(q * d - k * x == k * (d - x)) by (nonlinear_arith)
            requires
                q == k,
        ;
        let (e, t) = (d - x, 0x4_0000_0000_0000int);
        assert(0 <= t * (k * e) <= k * d) by (nonlinear_arith)
            requires
                0 <= t * e <= d,
                k > 0,
        ;
    } else {
        quotient_is_close(part, whole);
        lemma_units_order(part, whole);
        lemma_quotient_chain(a, b, q, x, d, k);
    }
}

proof fn lemma_quotient_chain(a: int, b: int, q: int, x: int, d: int, k: int)
    requires
        0 <= a < b,
        0 <= x <= d,
        0 < d,
        0x1_0000_0000_0000_0000 <= k,
        -x <= 0x20_0000_0000_0000 * (a - x) <= x,
        -d <= 0x20_0000_0000_0000 * (b - d) <= d,
        ({
            let off = q * b - a * k;
            let slack = a * k + 0x10_0000_0000_0000 * b;
            -slack <= 0x20_0000_0000_0000 * off <= slack
        }),
    ensures
        -(k * d) <= 0x4_0000_0000_0000 * (q * d - k * x) <= k * d,
{
    let t = 0x20_0000_0000_0000int;
    let off = q * b - a * k;
    let cross = a * d - x * b;
    let goal = q * d - k * x;
    // goal * b == off * d + k * cross
    assert(goal * b == off * d + k * cross) by (nonlinear_arith)
        requires
            off == q * b - a * k,
            cross == a * d - x * b,
            goal == q * d - k * x,
    ;
    // The cross term is small.
    assert(cross == (a - x) * d - x * (b - d)) by (nonlinear_arith)
        requires
            cross == a * d - x * b,
    ;
    let (da, db, xd) = (a - x, b - d, x * d);
    let (first, second) = (da * d, x * db);
    assert(cross == first - second);
    assert(-xd <= t * first <= xd) by (nonlinear_arith)
        requires
            first == da * d,
            xd == x * d,
            -x <= t * da <= x,
            d > 0,
    ;
    assert(-xd <= t * second <= xd) by (nonlinear_arith)
        requires
            second == x * db,
            xd == x * d,
            -d <= t * db <= d,
            x >= 0,
    ;
    assert(t * cross == t * first - t * second);
    assert(-2 * xd <= t * cross <= 2 * xd);
    // x is below twice b.
    assert(x <= 2 * b);
    assert(x * d <= 2 * (b * d)) by (nonlinear_arith)
        requires
            x <= 2 * b,
            d > 0,
    ;
    assert(-4 * (b * d) <= t * cross <= 4 * (b * d));
    let bd = b * d;
    assert(-4 * (k * bd) <= t * (k * cross) <= 4 * (k * bd)) by (nonlinear_arith)
        requires
            -4 * bd <= t * cross <= 4 * bd,
            k > 0,
    ;
    // The rounding of the quotient is small.
    let ak = a * k;
    assert(ak <= b * k) by (nonlinear_arith)
        requires
            ak == a * k,
            a <= b,
            k > 0,
    ;
    assert(0x10_0000_0000_0000 * b <= b * k) by (nonlinear_arith)
        requires
            k >= 0x1_0000_0000_0000_0000,
            b > 0,
    ;
    let bk = b * k;
    assert(-2 * bk <= t * off <= 2 * bk);
    assert(-2 * (bk * d) <= t * (off * d) <= 2 * (bk * d)) by (nonlinear_arith)
        requires
            -2 * bk <= t * off <= 2 * bk,
            d > 0,
    ;
    assert(bk * d == k * bd) by (nonlinear_arith)
        requires
            bk == b * k,
            bd == b * d,
    ;
    let kbd = k * bd;
    assert(-6 * kbd <= t * (goal * b) <= 6 * kbd);
    let kd = k * d;
    assert(kbd == kd * b) by (nonlinear_arith)
        requires
            kbd == k * bd,
            bd == b * d,
            kd == k * d,
    ;
    assert(-6 * kd <= t * goal <= 6 * kd) by (nonlinear_arith)
        requires
            -6 * (kd * b) <= t * (goal * b) <= 6 * (kd * b),
            b > 0,
    ;
    assert(kd > 0) by (nonlinear_arith)
        requires
            kd == k * d,
            k > 0,
            d > 0,
    ;
}

/// What is left of one is off by one part in 2^53 at most.
pub proof fn complement_is_close(x: Real64)
    requires
        x.bits <= ONE,
    ensures
        ({
            let k = pow2(1074) as int;
            let off = units(complement(x)) - (k - units(x));
            &&& 0 <= units(complement(x)) <= k
            &&& -k <= 0x20_0000_0000_0000 * off <= k
        }),
{
    let one = Real64 { bits: ONE };
    lemma_units_of_one();
    lemma_magnitudes(one, x);
    lemma_units_bound(x);
    lemma_complement_bound(x);
    lemma_magnitudes(one, complement(x));
    lemma_units_bound(complement(x));
    difference_is_close(one, x);
}

/// Ten-thousandths are off by half of one at most.
pub proof fn ten_thousandths_are_close(x: Real64)
    requires
        x.bits <= ONE,
    ensures
        ({
            let k = pow2(1074) as int;
            -k <= 2 * (ten_thousandths(x) * k - 10000 * units(x)) <= k
        }),
{
    lemma_pow2_pos(1074);
    lemma_units_bound(x);
    rounding_is_nearest(10000 * units(x), pow2(1074) as int);
}

/// A whole number in double precision is off by one part in 2^53 at most.
pub proof fn natural_is_close(n: int)
    requires
        0 <= n < 0x1_0000_0000_0000_0000,
    ensures
        ({
            let exact = n * pow2(1074);
            let off = units(Real64::nearest_natural(n)) - exact;
            -exact <= 0x20_0000_0000_0000 * off <= exact
        }),
{
    let k = pow2(1074) as int;
    let b = top_bit(n);
    lemma_powers();
    lemma_pow2_pos(1074);
    if n <= 0x20_0000_0000_0000 {
        lemma_natural_is_exact(n);
        assert(n * k >= 0) by (nonlinear_arith)
            requires
                n >= 0,
                k > 0,
        ;
    } else {
        lemma_top_bit(n);
        if b < 53 {
            lemma_pow2_unfold(b + 1);
            if b + 1 < 53 {
                lemma_pow2_strictly_increases(b + 1, 53);
            }
        }
        if b > 63 {
            if b > 64 {
                lemma_pow2_strictly_increases(64, b);
            }
        }
        let s = (b - 52) as nat;
        let d = pow2(s) as int;
        lemma_pow2_pos(s);
        lemma_pow2_adds(52, s);
        lemma_pow2_adds(53, s);
        lemma_pow2_unfold(b + 1);
        let q = round_half_even(n, d);
        lemma_round_between(n, d, 0x10_0000_0000_0000, 0x20_0000_0000_0000);
        rounding_is_nearest(n, d);
        lemma_units_of_bits((1022 + b) as nat, q);
        lemma_pow2_adds(s, 1074);
        let u = q * (d * k);
        let g = q * d - n;
        assert(u - n * k == g * k) by (nonlinear_arith)
            requires
                u == q * (d * k),
                g == q * d - n,
        ;
        assert(-n <= 0x20_0000_0000_0000 * g <= n);
        let (nk, gk) = (n * k, g * k);
        assert(-nk <= 0x20_0000_0000_0000 * gk <= nk) by (nonlinear_arith)
            requires
                -n <= 0x20_0000_0000_0000 * g <= n,
                nk == n * k,
                gk == g * k,
                k > 0,
        ;
    }
}

/// A quotient that lies halfway between two numbers is rounded to the one with the
/// even significand.
pub proof fn halfway_quotient_is_rounded_to_even(n: int, d: int)
    requires
        n >= 0,
        d > 0,
        nearest_bits(n, d) < INFINITE,
        ({
            let off = units(Real64 { bits: nearest_bits(n, d) as u64 }) * d - n;
            let step = d * pow2(step_bits(n, d));
            2 * off == step || 2 * off == -step
        }),
    ensures
        nearest_bits(n, d) % 2 == 0,
{
    let s = step_bits(n, d);
    let p = pow2(s) as int;
    let step = d * p;
    let q = round_half_even(n, step);
    lemma_pow2_pos(s);
    assert(step > 0) by (nonlinear_arith)
        requires
            step == d * p,
            d > 0,
            p > 0,
    ;
    lemma_round_octave(n, d);
    assert(nearest_bits(n, d) == s * 0x10_0000_0000_0000 + q);
    lemma_units_of_bits(s, q);
    let u = q * p;
    assert(u * d == q * step) by (nonlinear_arith)
        requires
            u == q * p,
            step == d * p,
    ;
    rounding_breaks_ties_to_even(n, step);
}

proof fn lemma_natural_significand(n: int)
    requires
        1 <= n <= u64::MAX,
    ensures
        ({
            let rest = Real64::nearest_natural(n).bits - (1022 + top_bit(n)) * 0x10_0000_0000_0000;
            0x10_0000_0000_0000 <= rest <= 0x20_0000_0000_0000
        }),
{
    let b = top_bit(n);
    lemma_natural_size(n);
    lemma_powers();
    lemma_top_bit(n);
    lemma_pow2_unfold(b + 1);
    if b <= 52 {
        let k = (52 - b) as nat;
        lemma_pow2_pos(k);
        lemma_pow2_adds(b, k);
        let (p, u) = (pow2(b) as int, pow2(k) as int);
        assert(p * u <= n * u && n * u < 2 * (p * u)) by (nonlinear_arith)
            requires
                p <= n < 2 * p,
                u > 0,
        ;
    } else {
        let s = (b - 52) as nat;
        lemma_pow2_pos(s);
        lemma_pow2_adds(52, s);
        lemma_round_between(n, pow2(s) as int, 0x10_0000_0000_0000, 0x20_0000_0000_0000);
    }
}

proof fn lemma_natural_monotone(m: int, n: int)
    requires
        0 <= m <= n <= u64::MAX,
    ensures
        Real64::nearest_natural(m).bits <= Real64::nearest_natural(n).bits,
{
    if m > 0 {
        let (a, b) = (top_bit(m), top_bit(n));
        lemma_natural_size(m);
        lemma_natural_size(n);
        lemma_top_bit_monotone(m, n);
        if a < b {
            lemma_natural_significand(m);
            lemma_natural_significand(n);
        } else if b <= 52 {
            let u = pow2((52 - b) as nat) as int;
            lemma_pow2_pos((52 - b) as nat);
            assert(m * u <= n * u) by (nonlinear_arith)
                requires
                    m <= n,
                    u > 0,
            ;
        } else {
            lemma_pow2_pos((b - 52) as nat);
            lemma_round_monotone(m, n, pow2((b - 52) as nat) as int);
        }
    }
}

/// Whole numbers keep their order in double precision.
pub proof fn integers_keep_order(m: int, n: int)
    requires
        -0x8000_0000_0000_0000 <= m <= n <= 0x7fff_ffff_ffff_ffff,
    ensures
        Real64::nearest_integer(m).order_key() <= Real64::nearest_integer(n).order_key(),
{
    if m < 0 {
        lemma_natural_size(-m);
        if n < 0 {
            lemma_natural_size(-n);
            lemma_natural_monotone(-n, -m);
        } else if n > 0 {
            lemma_natural_size(n);
        }
    } else {
        lemma_natural_monotone(m, n);
        if m > 0 {
            lemma_natural_size(m);
        }
        if n > 0 {
            lemma_natural_size(n);
        }
    }
}

/// A difference below 2^1023 is finite.
pub proof fn lemma_difference_below(a: Real64, b: Real64)
    requires
        a.finite(),
        b.finite(),
        b.order_key() <= a.order_key(),
    ensures
        signed_units(a) - signed_units(b) < pow2(2097) ==> difference(a, b).bits < INFINITE,
{
    let n = signed_units(a) - signed_units(b);
    lemma_signed_order(a, b);
    lemma_difference_size(a, b, 2046);
    if n < pow2(2097) {
        assert(1 * pow2(2097) == pow2(2097));
        lemma_nearest_bound(n, 1, 2097);
    }
}

/// A whole number is rounded to double precision as any other exact value is.
pub proof fn natural_is_the_nearest(n: int)
    requires
        1 <= n <= u64::MAX,
    ensures
        Real64::nearest_natural(n).bits == nearest_bits(n * pow2(1074), 1),
{
    let b = top_bit(n);
    let k = pow2(1074) as int;
    lemma_powers();
    lemma_natural_size(n);
    lemma_natural_significand(n);
    lemma_top_bit(n);
    lemma_pow2_unfold(b + 1);
    lemma_pow2_pos(1074);
    lemma_pow2_adds(b, 1074);
    lemma_pow2_adds(b + 1, 1074);
    let (p, m) = (pow2(b) as int, n * k);
    assert(p * k <= m && m < (2 * p) * k) by (nonlinear_arith)
        requires
            p <= n < 2 * p,
            k > 0,
            m == n * k,
    ;
    lemma_top_bit_is(m, b + 1074);
    assert(m / 1 == m);
    let s = step_bits(m, 1);
    assert(s == b + 1022);
    assert(1 * pow2(s) == pow2(s));
    if b <= 52 {
        let u = pow2((52 - b) as nat) as int;
        lemma_pow2_adds((52 - b) as nat, s);
        let w = pow2(s) as int;
        lemma_pow2_pos(s);
        lemma_pow2_pos((52 - b) as nat);
        assert(m == (n * u) * w) by (nonlinear_arith)
            requires
                m == n * k,
                u * w == k,
        ;
        assert(n * u >= 0) by (nonlinear_arith)
            requires
                n >= 1,
                u > 0,
        ;
        lemma_round_exact(n * u, w);
    } else {
        let d = pow2((b - 52) as nat) as int;
        lemma_pow2_pos((b - 52) as nat);
        lemma_pow2_adds((b - 52) as nat, 1074);
        lemma_round_scale(n, d, k);
    }
}

/// A difference that lies halfway between two numbers is rounded to the even one.
pub proof fn halfway_difference_is_rounded_to_even(a: Real64, b: Real64)
    requires
        a.finite(),
        b.finite(),
        b.order_key() <= a.order_key(),
        difference(a, b).bits < INFINITE,
        ({
            let exact = signed_units(a) - signed_units(b);
            let off = units(difference(a, b)) - exact;
            2 * off == pow2(step_bits(exact, 1)) || 2 * off == -pow2(step_bits(exact, 1))
        }),
    ensures
        difference(a, b).bits % 2 == 0,
{
    let exact = signed_units(a) - signed_units(b);
    lemma_signed_order(a, b);
    lemma_difference_size(a, b, 2046);
    assert(1 * pow2(step_bits(exact, 1)) == pow2(step_bits(exact, 1)));
    halfway_quotient_is_rounded_to_even(exact, 1);
}

/// A proportion that lies halfway between two numbers is rounded to the even one.
pub proof fn halfway_proportion_is_rounded_to_even(a: Real64, b: Real64)
    requires
        a.bits < b.bits < INFINITE,
        ({
            let exact = units(a) * pow2(1074);
            let off = units(quotient(a, b)) * units(b) - exact;
            let step = units(b) * pow2(step_bits(exact, units(b)));
            2 * off == step || 2 * off == -step
        }),
    ensures
        quotient(a, b).bits % 2 == 0,
{
    quotient_is_close(a, b);
    lemma_units_order(a, b);
    lemma_units_bound(a);
    lemma_pow2_pos(1074);
    let (x, d, z) = (units(a), units(b), pow2(1074) as int);
    assert(0 <= x * z < d * z) by (nonlinear_arith)
        requires
            0 <= x < d,
            z > 0,
    ;
    lemma_nearest_bound(x * z, d, 1074);
    lemma_round_octave(x * z, d);
    halfway_quotient_is_rounded_to_even(x * z, d);
}

/// A share that lies halfway between two ten-thousandths is rounded to the even one.
pub proof fn halfway_share_is_rounded_to_even(x: Real64)
    requires
        x.bits <= ONE,
        ({
            let off = ten_thousandths(x) * pow2(1074) - 10000 * units(x);
            2 * off == pow2(1074) || 2 * off == -pow2(1074)
        }),
    ensures
        ten_thousandths(x) % 2 == 0,
{
    lemma_pow2_pos(1074);
    lemma_units_bound(x);
    rounding_breaks_ties_to_even(10000 * units(x), pow2(1074) as int);
}

} // verus!
