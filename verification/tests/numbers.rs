//! Numbers by their bits.
use hanui::arith::{complement_of, proportion_of, subtract};
use hanui::number::{Real32, Real64};
use hanui::split::power_format_watts;

fn narrow(x: f64) -> u32 {
    Real64 { bits: x.to_bits() }.narrow().bits
}

/// Single precision comes out as the hardware has it.
#[test]
fn narrowing_is_exact() {
    let mut samples = vec![
        0.0, -0.0, 1.0, -1.0, 21.5, 0.1, 33.7, -200.5, 1e-300, 1e300, -1e300, 3.4e38, 3.5e38,
        1.401298464324817e-45, 7.006492321624085e-46, 7.006492321624086e-46, 1.1754943508222875e-38,
        1.1754942807573642e-38, 16777217.0, 16777219.0, 3.4028235677973366e38,
        3.4028235677973362e38, f64::MIN_POSITIVE, f64::MAX, 5e-324,
    ];
    let mut bits: u64 = 0x9e37_79b9_7f4a_7c15;
    for _ in 0..4000 {
        bits = bits.wrapping_mul(6364136223846793005).wrapping_add(1442695040888963407);
        samples.push(f64::from_bits(bits));
        let near = (bits & 0x800f_ffff_ffff_ffff) | ((860 + (bits >> 40) % 300) << 52);
        samples.push(f64::from_bits(near));
        samples.push(f64::from_bits(near & !0x1fff_ffff | 0x1000_0000));
    }
    for x in samples {
        if x.is_finite() {
            assert_eq!(narrow(x), (x as f32).to_bits(), "{x:e}");
        }
    }
}

/// Integers come out in double precision as the hardware has them.
#[test]
fn integers_widen_exactly() {
    let mut n: u64 = 0x1234_5678_9abc_def1;
    let mut samples = vec![0, 1, 2, 3, (1 << 53) - 1, 1 << 53, (1 << 53) + 1, (1 << 53) + 3, u64::MAX];
    for shift in 0..64 {
        n = n.wrapping_mul(6364136223846793005).wrapping_add(1442695040888963407);
        samples.push(n >> shift);
        samples.push(1 << shift);
    }
    for n in samples {
        assert_eq!(Real64::from_natural(n).bits, (n as f64).to_bits(), "{n}");
        let i = n as i64;
        assert_eq!(Real64::from_integer(i).bits, (i as f64).to_bits(), "{i}");
    }
    assert_eq!(Real64::from_integer(i64::MIN).bits, (i64::MIN as f64).to_bits());
}

/// A float of 0..=100 is a percentage, rounded half away from zero.
#[test]
fn percentages_round_half_up() {
    let percent = |x: f64| Real64 { bits: x.to_bits() }.to_percent();
    assert_eq!(percent(33.7), Some(34));
    assert_eq!(percent(0.5), Some(1));
    assert_eq!(percent(0.49999999999999994), Some(0));
    assert_eq!(percent(2.5), Some(3));
    assert_eq!(percent(99.5), Some(100));
    assert_eq!(percent(100.0), Some(100));
    assert_eq!(percent(100.00000000000001), None);
    assert_eq!(percent(0.0), Some(0));
    assert_eq!(percent(-0.0), Some(0));
    assert_eq!(percent(-0.1), None);
    assert_eq!(percent(5e-324), Some(0));
    assert_eq!(percent(1e20), None);
    assert_eq!(percent(f64::NAN), None);
    assert_eq!(percent(f64::INFINITY), None);
    let mut x = 0.0;
    while x <= 100.0 {
        assert_eq!(percent(x), Some(x.round() as u8));
        x += 0.1;
    }
}

/// Differences and proportions come out as the hardware has them.
#[test]
fn arithmetic_agrees_with_the_machine() {
    let mut seed: u64 = 7;
    let mut next = || {
        seed = seed.wrapping_mul(6364136223846793005).wrapping_add(1442695040888963407);
        seed ^ (seed >> 29)
    };
    for round in 0..20_000 {
        let a = f64::from_bits(next());
        let near = f64::from_bits(a.to_bits() ^ (next() >> (8 + next() % 56)));
        let b = match round % 4 {
            0 => f64::from_bits(next()),
            1 => near,
            2 => a * ((next() % 4096) as f64 / 512.0 - 4.0),
            _ => f64::from_bits(next() & 0x800f_ffff_ffff_ffff),
        };
        if !a.is_finite() || !b.is_finite() {
            continue;
        }
        let (high, low) = if a >= b { (a, b) } else { (b, a) };
        let bits = |x: f64| Real64 { bits: x.to_bits() };
        let d = subtract(bits(high), bits(low));
        assert_eq!(f64::from_bits(d.bits), high - low, "{high:e} - {low:e}");
        let (part, whole) = if a.abs() < b.abs() {
            (a.abs(), b.abs())
        } else {
            (b.abs(), a.abs())
        };
        if whole > 0.0 {
            let p = proportion_of(bits(part), bits(whole)).expect("a number");
            assert_eq!(f64::from_bits(p.bits), part / whole, "{part:e} / {whole:e}");
            let c = complement_of(p);
            assert_eq!(f64::from_bits(c.bits), 1.0 - part / whole);
        }
    }
}

/// One decimal is written as the machine writes it.
#[test]
fn one_decimal_agrees_with_the_machine() {
    let mut samples = vec![
        0.0, -0.0, 1500.0, -300.0, 0.05, 0.25, 0.75, 0.35, -0.04, 99.95, 1e-45, 16777216.0, 3.4028235e38,
        -3.4028235e38, f32::INFINITY, f32::NEG_INFINITY, f32::NAN, 8388607.5, 4194303.75,
    ];
    let mut seed: u64 = 3;
    for _ in 0..20_000 {
        seed = seed.wrapping_mul(6364136223846793005).wrapping_add(1442695040888963407);
        samples.push(f32::from_bits((seed >> 32) as u32));
        samples.push(((seed >> 40) % 400_000) as f32 / 20.0 - 10_000.0);
        samples.push(((seed >> 40) % 4096) as f32 / 64.0);
    }
    for w in samples {
        let label = power_format_watts(Real32 { bits: w.to_bits() });
        assert_eq!(label, format!("{w:.1} W"));
    }
}

#[test]
fn keys_order_numbers() {
    let key = |x: f64| Real64 { bits: x.to_bits() }.key();
    let rising = [f64::NEG_INFINITY, -1e300, -1.0, -5e-324, 0.0, 5e-324, 1.0, 1e300, f64::INFINITY];
    for pair in rising.windows(2) {
        assert!(key(pair[0]) < key(pair[1]));
    }
    assert_eq!(key(0.0), key(-0.0));
}

#[test]
fn unit_interval_is_kept() {
    let clamp = |x: f32| f32::from_bits(Real32 { bits: x.to_bits() }.clamp_to_unit().bits);
    assert_eq!(clamp(0.55), 0.55);
    assert_eq!(clamp(1.0), 1.0);
    assert_eq!(clamp(1.7), 1.0);
    assert_eq!(clamp(-0.25), 0.0);
    assert_eq!(clamp(f32::INFINITY), 1.0);
}
