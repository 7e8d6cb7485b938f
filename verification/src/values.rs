//! What the readings are worth: the exact values behind rounding, clamping and
//! writing.
use crate::arith::{one_decimal_text, signed_units, tenths, units};
use crate::entity::{AttrModel, EntityModel};
use crate::media_player::volume;
use crate::number::{
    round_half_even, rounding_breaks_ties_to_even, rounding_is_nearest, Real32, Real64,
};
use crate::power_flow::{state_charge, state_reading};
use crate::text::{
    decimal_text, decimal_text_reads_as_its_number, decimal_value, digit_char,
    digit_reads_as_its_value,
};
use vstd::arithmetic::div_mod::lemma_fundamental_div_mod;
use vstd::arithmetic::power2::{
    lemma2_to64, lemma2_to64_rest, lemma_pow2_adds, lemma_pow2_pos, lemma_pow2_strictly_increases,
    pow2,
};
use vstd::prelude::*;
use vstd::string::*;

verus! {

/// The magnitude of a finite number in single precision, in multiples of the smallest
/// positive one, which is 2^-149.
pub open spec fn single_units(x: Real32) -> int {
    x.significand() * pow2((x.lead() - 1) as nat)
}

proof fn lemma_pow2_order(a: nat, b: nat)
    requires
        a <= b,
    ensures
        0 < pow2(a) <= pow2(b),
{
    lemma_pow2_pos(a);
    if a < b {
        lemma_pow2_strictly_increases(a, b);
    }
}

/// A number is below one in magnitude where its value is.
pub proof fn below_one_is_by_value(x: Real32)
    ensures
        x.below_one() <==> x.finite() && single_units(x) < pow2(149),
{
    lemma2_to64();
    lemma2_to64_rest();
    let p = pow2((x.lead() - 1) as nat) as int;
    let m = x.significand();
    lemma_pow2_pos((x.lead() - 1) as nat);
    assert(x.magnitude() == x.exponent_field() * 0x80_0000 + x.fraction());
    if x.exponent_field() < 127 {
        lemma_pow2_order((x.lead() - 1) as nat, 125);
        lemma_pow2_adds(24, 125);
        let q = pow2(125) as int;
        assert(m * p < 0x100_0000 * q) by (nonlinear_arith)
            requires
                0 <= m < 0x100_0000,
                0 < p <= q,
        ;
    } else if x.finite() {
        lemma_pow2_order(126, (x.lead() - 1) as nat);
        lemma_pow2_adds(23, 126);
        let q = pow2(126) as int;
        assert(m * p >= 0x80_0000 * q) by (nonlinear_arith)
            requires
                m >= 0x80_0000,
                p >= q,
                q > 0,
        ;
    }
}

/// A number is positive where its value is above zero. What is no number is not.
pub proof fn positive_is_by_value(x: Real32)
    ensures
        x.finite() ==> (x.positive() <==> !x.negative() && single_units(x) > 0),
        !x.finite() ==> (x.positive() <==> !x.negative() && x.fraction() == 0),
{
    let p = pow2((x.lead() - 1) as nat) as int;
    let m = x.significand();
    lemma_pow2_pos((x.lead() - 1) as nat);
    assert(x.magnitude() == x.exponent_field() * 0x80_0000 + x.fraction());
    assert(m > 0 ==> m * p > 0) by (nonlinear_arith)
        requires
            p > 0,
    ;
    assert(m == 0 ==> m * p == 0) by (nonlinear_arith);
}

/// A number of the unit interval is kept. One below is moved to zero, and one above to
/// one.
pub proof fn clamping_moves_to_the_nearest_bound(x: Real32)
    ensures
        x.negative() ==> single_units(x.clamped_to_unit()) == 0,
        !x.negative() && x.finite() && single_units(x) <= pow2(149) ==> x.clamped_to_unit() == x,
        !x.negative() && !(x.finite() && single_units(x) <= pow2(149)) ==> single_units(
            x.clamped_to_unit(),
        ) == pow2(149),
        x.clamped_to_unit().finite(),
        !x.clamped_to_unit().negative(),
        single_units(x.clamped_to_unit()) <= pow2(149),
{
    let (zero, one) = (Real32::zero(), Real32::one());
    below_one_is_by_value(x);
    below_one_is_by_value(x.clamped_to_unit());
    lemma2_to64();
    lemma2_to64_rest();
    assert(zero.significand() == 0);
    assert(single_units(zero) == 0);
    lemma_pow2_pos(149);
    assert(one.exponent_field() == 127);
    assert(one.significand() == 0x80_0000);
    lemma_pow2_adds(23, 126);
    assert(single_units(one) == pow2(149));
    if x.magnitude() > one.magnitude() && x.finite() {
        // Above one there is a larger significand or a larger exponent.
        let p = pow2((x.lead() - 1) as nat) as int;
        let m = x.significand();
        let q = pow2(126) as int;
        assert(x.magnitude() == x.exponent_field() * 0x80_0000 + x.fraction());
        if x.exponent_field() == 127 {
            assert(x.fraction() > 0);
            lemma_pow2_pos(126);
            assert(m * q > 0x80_0000 * q) by (nonlinear_arith)
                requires
                    m > 0x80_0000,
                    q > 0,
            ;
        } else {
            lemma_pow2_order(127, (x.lead() - 1) as nat);
            lemma_pow2_adds(1, 126);
            lemma_pow2_pos(126);
            assert(m * p > 0x80_0000 * q) by (nonlinear_arith)
                requires
                    m >= 0x80_0000,
                    p >= 2 * q,
                    q > 0,
            ;
        }
    }
}

/// The magnitude of a single follows from its step and significand.
proof fn lemma_single_units(t: nat, q: int, x: Real32)
    requires
        0 <= q <= 0x100_0000,
        t > 0 ==> q >= 0x80_0000,
        x.magnitude() == t * 0x80_0000 + q,
        x.magnitude() < 0x7f80_0000,
    ensures
        single_units(x) == q * pow2(t),
{
    lemma2_to64();
    assert(x.bits == x.magnitude() || x.bits == x.magnitude() + 0x8000_0000);
    if q < 0x80_0000 {
        assert(t == 0);
        assert(x.exponent_field() == 0);
        assert(x.fraction() == q);
    } else if q < 0x100_0000 {
        assert(x.exponent_field() == t + 1);
        assert(x.fraction() == q - 0x80_0000);
    } else {
        assert(x.exponent_field() == t + 2);
        assert(x.fraction() == 0);
        lemma_pow2_adds(1, t);
        assert(0x80_0000 * (2 * pow2(t)) == 0x100_0000 * pow2(t));
    }
}

/// In single precision a number keeps its sign, and its value to one part in 2^24 or
/// to half of the smallest single. A number below 2^127 stays finite.
pub proof fn narrowing_is_close(x: Real64)
    requires
        x.finite(),
    ensures
        x.narrowed().negative() == x.negative(),
        units(x) < pow2(1201) ==> x.narrowed().finite(),
        x.narrowed().finite() ==> {
            let off = single_units(x.narrowed()) * pow2(925) - units(x);
            let slack = units(x) + pow2(948);
            -slack <= 0x100_0000 * off <= slack
        },
{
    lemma2_to64();
    lemma2_to64_rest();
    let r = x.narrowed();
    let (m, lead) = (x.significand(), x.lead());
    let p = pow2((lead - 1) as nat) as int;
    lemma_pow2_pos((lead - 1) as nat);
    assert(0 <= m < 0x20_0000_0000_0000);
    if lead >= 1151 {
        assert(m >= 0x10_0000_0000_0000);
        lemma_pow2_order(1150, (lead - 1) as nat);
        lemma_pow2_adds(52, 1150);
        lemma_pow2_order(1201, 1202);
        let q = pow2(1150) as int;
        assert(m * p >= 0x10_0000_0000_0000 * q) by (nonlinear_arith)
            requires
                m >= 0x10_0000_0000_0000,
                p >= q,
                q > 0,
        ;
        lemma_sign_of_bits(x, 0x7f80_0000);
        assert(r.exponent_field() == 255);
    } else if lead > 896 {
        let t = (lead - 897) as nat;
        let q = round_half_even(m, 0x2000_0000);
        lemma_round_bounds(m, 0x2000_0000, 0x80_0000, 0x100_0000);
        rounding_is_nearest(m, 0x2000_0000);
        lemma_sign_of_bits(x, t * 0x80_0000 + q);
        if units(x) < pow2(1201) && lead == 1150 {
            lemma_pow2_adds(52, 1149);
            let z = pow2(1149) as int;
            assert(m * z >= 0x10_0000_0000_0000 * z) by (nonlinear_arith)
                requires
                    m >= 0x10_0000_0000_0000,
                    z > 0,
            ;
            assert(false);
        }
        if r.finite() {
            lemma_single_units(t, q, r);
            lemma_pow2_adds(t, 925);
            lemma_pow2_adds(29, (lead - 1) as nat);
            let (a, b) = (pow2(t) as int, pow2(925) as int);
            assert(a * b == 0x2000_0000 * p);
            let off = (q * a) * b - m * p;
            assert((q * a) * b == q * (a * b)) by (nonlinear_arith);
            lemma_narrow_chain(q, m, p, 0x2000_0000, q * (a * b) - m * p);
            lemma_pow2_pos(948);
            assert(0x10_0000_0000_0000 * p <= m * p) by (nonlinear_arith)
                requires
                    m >= 0x10_0000_0000_0000,
                    p > 0,
            ;
        }
    } else {
        let k = (926 - lead) as nat;
        let d = pow2(k) as int;
        let q = round_half_even(m, d);
        lemma_pow2_order(30, k);
        assert(0x80_0000 * d >= 0x20_0000_0000_0000) by (nonlinear_arith)
            requires
                d >= 0x4000_0000,
        ;
        lemma_round_bounds(m, d, 0, 0x80_0000);
        rounding_is_nearest(m, d);
        lemma_sign_of_bits(x, q);
        lemma_single_units(0, q, r);
        lemma_pow2_adds(k, (lead - 1) as nat);
        lemma_narrow_chain(q, m, p, d, q * (d * p) - m * p);
        lemma_pow2_adds(23, 925);
        lemma_pow2_pos(925);
        assert(m * p >= 0) by (nonlinear_arith)
            requires
                m >= 0,
                p > 0,
        ;
        assert((q * pow2(0)) * pow2(925) == q * pow2(925)) by (nonlinear_arith)
            requires
                pow2(0) == 1,
        ;
    }
}

proof fn lemma_sign_of_bits(x: Real64, magnitude: int)
    requires
        0 <= magnitude <= 0x7f80_0000,
        x.narrowed().bits == (if x.negative() {
            0x8000_0000int
        } else {
            0
        }) + magnitude,
    ensures
        x.narrowed().negative() == x.negative(),
        x.narrowed().magnitude() == magnitude,
        x.narrowed().finite() <==> magnitude < 0x7f80_0000,
{
}

/// Rounding keeps between whole bounds.
proof fn lemma_round_bounds(n: int, d: int, low: int, high: int)
    requires
        d > 0,
        n >= 0,
        low * d <= n < high * d,
    ensures
        low <= round_half_even(n, d) <= high,
{
    lemma_fundamental_div_mod(n, d);
    let q = n / d;
    assert(low <= q < high) by (nonlinear_arith)
        requires
            n == d * q + n % d,
            0 <= n % d < d,
            low * d <= n < high * d,
            d > 0,
    ;
}

proof fn lemma_narrow_chain(q: int, m: int, p: int, d: int, off: int)
    requires
        p > 0,
        -d <= 2 * (q * d - m) <= d,
        off == q * (d * p) - m * p,
    ensures
        -(d * p) <= 2 * off <= d * p,
{
    let g = q * d - m;
    assert(off == g * p) by (nonlinear_arith)
        requires
            off == q * (d * p) - m * p,
            g == q * d - m,
    ;
    assert(-(d * p) <= 2 * (g * p) <= d * p) by (nonlinear_arith)
        requires
            -d <= 2 * g <= d,
            p > 0,
    ;
}

/// A float is a percentage where its value is of 0..=100, and is then read as the
/// nearest whole one, a half upwards.
pub proof fn float_percentage_is_the_nearest(f: Real64)
    ensures
        AttrModel::Float(f).percent() is Some <==> f.finite() && 0 <= signed_units(f) <= 100
            * pow2(1074),
        AttrModel::Float(f).percent() matches Some(p) ==> {
            let one = pow2(1074) as int;
            -one < 2 * (p * one - units(f)) <= one
        },
{
    lemma2_to64();
    lemma2_to64_rest();
    lemma_pow2_pos(1074);
    let one = pow2(1074) as int;
    let (m, lead) = (f.significand(), f.lead());
    let p = pow2((lead - 1) as nat) as int;
    lemma_pow2_pos((lead - 1) as nat);
    if m == 0 {
        assert(m * p == 0) by (nonlinear_arith)
            requires
                m == 0,
        ;
        assert(0 * one == 0);
    } else if lead < 1075 {
        let unit = pow2((1075 - lead) as nat) as int;
        lemma_pow2_pos((1075 - lead) as nat);
        lemma_pow2_adds((1075 - lead) as nat, (lead - 1) as nat);
        assert(unit * p == one);
        assert(m * p > 0) by (nonlinear_arith)
            requires
                m > 0,
                p > 0,
        ;
        assert(100 * one == (100 * unit) * p) by (nonlinear_arith)
            requires
                unit * p == one,
        ;
        assert(m <= 100 * unit <==> m * p <= (100 * unit) * p) by (nonlinear_arith)
            requires
                p > 0,
        ;
        let n = f.rounded();
        lemma_fundamental_div_mod(2 * m + unit, 2 * unit);
        let g = n * unit - m;
        assert(2 * m + unit == (2 * unit) * n + (2 * m + unit) % (2 * unit));
        assert((2 * unit) * n == 2 * (n * unit)) by (nonlinear_arith);
        assert(-unit < 2 * g <= unit);
        assert(n * one - m * p == g * p) by (nonlinear_arith)
            requires
                unit * p == one,
                g == n * unit - m,
        ;
        assert(-one < 2 * (g * p) <= one) by (nonlinear_arith)
            requires
                -unit < 2 * g <= unit,
                unit * p == one,
                p > 0,
        ;
    } else if f.finite() {
        assert(m >= 0x10_0000_0000_0000);
        lemma_pow2_order(1074, (lead - 1) as nat);
        assert(m * p > 100 * one) by (nonlinear_arith)
            requires
                m >= 0x10_0000_0000_0000,
                p >= one,
                one > 0,
        ;
    }
}

/// A reading with one decimal reads as the number of tenths that is nearest to its
/// value: a sign where it is negative, the whole part, a point and one digit.
pub proof fn one_decimal_reads_as_the_nearest_tenth(x: Real32) -> (r: (Seq<char>, char))
    requires
        x.finite(),
    ensures
        one_decimal_text(x) == (if x.negative() {
            seq!['-']
        } else {
            Seq::empty()
        }) + r.0 + seq!['.'] + seq![r.1],
        r.0.len() > 0,
        forall|i: int| 0 <= i < r.0.len() ==> '0' <= #[trigger] r.0[i] <= '9',
        r.0[0] == '0' ==> r.0.len() == 1,
        '0' <= r.1 <= '9',
        ({
            let n = 10 * decimal_value(r.0) + (r.1 as int - '0' as int);
            let one = pow2(149) as int;
            -one <= 2 * (n * one - 10 * single_units(x)) <= one
        }),
{
    let t = tenths(x);
    let (m, p) = (x.significand(), pow2((x.lead() - 1) as nat) as int);
    lemma_pow2_pos((x.lead() - 1) as nat);
    lemma_pow2_pos(149);
    lemma2_to64();
    lemma_pow2_adds(1, (x.lead() - 1) as nat);
    lemma_pow2_adds(1, 149);
    let one = pow2(149) as int;
    assert(m * (2 * p) == 2 * (m * p)) by (nonlinear_arith);
    let n = 10 * (m * (2 * p));
    assert(m * p >= 0) by (nonlinear_arith)
        requires
            m >= 0,
            p > 0,
    ;
    rounding_is_nearest(n, 2 * one);
    assert(t == round_half_even(n, 2 * one));
    assert(t * (2 * one) == 2 * (t * one)) by (nonlinear_arith);
    assert(t >= 0) by {
        lemma_fundamental_div_mod(n, 2 * one);
        assert(n / (2 * one) >= 0) by (nonlinear_arith)
            requires
                n >= 0,
                one > 0,
        ;
    }
    decimal_text_reads_as_its_number(t / 10);
    digit_reads_as_its_value(t % 10);
    reveal_strlit("-");
    reveal_strlit("");
    reveal_strlit(".");
    assert("-"@ =~= seq!['-']);
    assert(""@ =~= Seq::<char>::empty());
    assert("."@ =~= seq!['.']);
    assert(decimal_text(t % 10) == seq![digit_char(t % 10)]);
    (decimal_text(t / 10), digit_char(t % 10))
}

/// What is no finite number is written as a word.
pub proof fn boundless_reading_is_a_word(x: Real32)
    requires
        !x.finite(),
    ensures
        x.fraction() != 0 ==> one_decimal_text(x) == "NaN"@,
        x.fraction() == 0 && !x.negative() ==> one_decimal_text(x) == "inf"@,
        x.fraction() == 0 && x.negative() ==> one_decimal_text(x) == seq!['-'] + "inf"@,
{
    reveal_strlit("-");
    reveal_strlit("");
    assert("-"@ =~= seq!['-']);
    assert(""@ + "inf"@ =~= "inf"@);
}

/// A whole number keeps its sign in double precision.
pub proof fn integer_keeps_its_sign(n: int)
    requires
        -0x8000_0000_0000_0000 <= n < 0x1_0000_0000_0000_0000,
    ensures
        n >= 0 ==> Real64::nearest_integer(n) == Real64::nearest_natural(n),
        n < 0 ==> Real64::nearest_integer(n).bits == 0x8000_0000_0000_0000
            + Real64::nearest_natural(-n).bits,
{
    if n < 0 {
        crate::number::lemma_natural_size(-n);
    }
}

/// A number is a reading where it is finite in single precision, and nothing else is.
pub proof fn reading_is_a_finite_number(v: AttrModel)
    ensures
        v matches AttrModel::Float(f) ==> if f.finite() && f.narrowed().finite() {
            v.reading() == Some(f.narrowed())
        } else {
            v.reading() is None
        },
        v matches AttrModel::Float(f) ==> (v.narrowed() is Some <==> f.finite()),
        v matches AttrModel::Integer(n) ==> v.narrowed() == Some(
            Real64::nearest_integer(n).narrowed(),
        ),
        v.reading() matches Some(x) ==> x.finite() && v.narrowed() == Some(x),
        !(v is Float) && !(v is Integer) ==> v.reading() is None && v.narrowed() is None,
{
}

/// A flow is read from the number in a state, unless the entity is out of reach or the
/// number is not finite in single precision.
pub proof fn flow_is_the_number_of_the_state(e: EntityModel)
    ensures
        e.state_number is None ==> state_reading(e) is None,
        e.state == "unavailable"@ || e.state == "unknown"@ ==> state_reading(e) is None,
        e.state_number matches Some(n) ==> if n.finite() && n.narrowed().finite() && e.state
            != "unavailable"@ && e.state != "unknown"@ {
            state_reading(e) == Some(n.narrowed())
        } else {
            state_reading(e) is None
        },
{
}

/// A charge is a flow's number that lies between nothing and a hundred percent.
pub proof fn charge_is_a_percentage(e: EntityModel)
    ensures
        e.state_number matches Some(n) ==> if n.finite() && 0 <= signed_units(n) <= 100 * pow2(
            1074,
        ) {
            state_charge(e) == state_reading(e)
        } else {
            state_charge(e) is None
        },
        e.state_number is None ==> state_charge(e) is None,
{
    if e.state_number is Some {
        float_percentage_is_the_nearest(e.state_number.unwrap());
    }
}

/// A volume is the number of its attribute: kept between nothing and full, moved to
/// the nearer of the two where it lies outside.
pub proof fn volume_is_the_number_within_bounds(e: EntityModel)
    ensures
        volume(e) is Some <==> e.narrowed("volume_level"@) is Some,
        e.narrowed("volume_level"@) matches Some(x) ==> {
            let v = volume(e).unwrap();
            &&& v.finite()
            &&& !v.negative()
            &&& x.negative() ==> single_units(v) == 0
            &&& !x.negative() && x.finite() && single_units(x) <= pow2(149) ==> v == x
            &&& !x.negative() && !(x.finite() && single_units(x) <= pow2(149)) ==> single_units(v)
                == pow2(149)
        },
{
    if e.narrowed("volume_level"@) is Some {
        clamping_moves_to_the_nearest_bound(e.narrowed("volume_level"@).unwrap());
    }
}

/// A number that lies halfway between two singles becomes the one with the even
/// significand.
pub proof fn halfway_number_is_narrowed_to_even(x: Real64)
    requires
        x.finite(),
        x.narrowed().finite(),
        ({
            let off = single_units(x.narrowed()) * pow2(925) - units(x);
            let step = if x.lead() > 896 {
                pow2((x.lead() + 28) as nat) as int
            } else {
                pow2(925) as int
            };
            2 * off == step || 2 * off == -step
        }),
    ensures
        x.narrowed().bits % 2 == 0,
{
    lemma2_to64();
    lemma2_to64_rest();
    let r = x.narrowed();
    let (m, lead) = (x.significand(), x.lead());
    let p = pow2((lead - 1) as nat) as int;
    lemma_pow2_pos((lead - 1) as nat);
    assert(0 <= m < 0x20_0000_0000_0000);
    if lead >= 1151 {
        lemma_sign_of_bits(x, 0x7f80_0000);
    } else if lead > 896 {
        let t = (lead - 897) as nat;
        let d = 0x2000_0000int;
        let q = round_half_even(m, d);
        lemma_round_bounds(m, d, 0x80_0000, 0x100_0000);
        lemma_sign_of_bits(x, t * 0x80_0000 + q);
        lemma_single_units(t, q, r);
        lemma_pow2_adds(t, 925);
        lemma_pow2_adds(29, (lead - 1) as nat);
        let (a, b) = (pow2(t) as int, pow2(925) as int);
        assert((q * a) * b == q * (a * b)) by (nonlinear_arith);
        assert(a * b == d * p);
        lemma_halfway(q, m, p, d);
        rounding_breaks_ties_to_even(m, d);
    } else {
        let k = (926 - lead) as nat;
        let d = pow2(k) as int;
        let q = round_half_even(m, d);
        lemma_pow2_order(30, k);
        assert(0x80_0000 * d >= 0x20_0000_0000_0000) by (nonlinear_arith)
            requires
                d >= 0x4000_0000,
        ;
        lemma_round_bounds(m, d, 0, 0x80_0000);
        lemma_sign_of_bits(x, q);
        lemma_single_units(0, q, r);
        lemma_pow2_adds(k, (lead - 1) as nat);
        assert((q * pow2(0)) * pow2(925) == q * pow2(925)) by (nonlinear_arith)
            requires
                pow2(0) == 1,
        ;
        lemma_halfway(q, m, p, d);
        rounding_breaks_ties_to_even(m, d);
    }
}

proof fn lemma_halfway(q: int, m: int, p: int, d: int)
    requires
        p > 0,
        2 * (q * (d * p) - m * p) == d * p || 2 * (q * (d * p) - m * p) == -(d * p),
    ensures
        2 * (q * d - m) == d || 2 * (q * d - m) == -d,
{
    let g = q * d - m;
    assert(q * (d * p) - m * p == g * p) by (nonlinear_arith)
        requires
            g == q * d - m,
    ;
    assert(2 * g == d || 2 * g == -d) by (nonlinear_arith)
        requires
            p > 0,
            2 * (g * p) == d * p || 2 * (g * p) == -(d * p),
    ;
}

/// A reading that lies halfway between two tenths is rounded to the even one.
pub proof fn halfway_tenth_is_rounded_to_even(x: Real32)
    requires
        x.finite(),
        ({
            let off = tenths(x) * pow2(149) - 10 * single_units(x);
            2 * off == pow2(149) || 2 * off == -pow2(149)
        }),
    ensures
        tenths(x) % 2 == 0,
{
    let (m, p) = (x.significand(), pow2((x.lead() - 1) as nat) as int);
    lemma_pow2_pos((x.lead() - 1) as nat);
    lemma_pow2_pos(149);
    lemma2_to64();
    lemma_pow2_adds(1, (x.lead() - 1) as nat);
    lemma_pow2_adds(1, 149);
    let (one, t) = (pow2(149) as int, tenths(x));
    assert(m * (2 * p) == 2 * (m * p)) by (nonlinear_arith);
    let n = 10 * (m * (2 * p));
    assert(m * p >= 0) by (nonlinear_arith)
        requires
            m >= 0,
            p > 0,
    ;
    assert(t == round_half_even(n, 2 * one));
    assert(t * (2 * one) == 2 * (t * one)) by (nonlinear_arith);
    rounding_breaks_ties_to_even(n, 2 * one);
}

} // verus!
