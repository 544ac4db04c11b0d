//! Concrete instances of the fixed-point laws.

use sim::Fx;

const LIMIT: i32 = 1 << 23;

fn samples() -> Vec<Fx> {
    [
        -LIMIT + 1,
        -5_000_000,
        -65536,
        -32768,
        -3,
        -1,
        0,
        1,
        7,
        32768,
        65536,
        98304,
        1_234_567,
        LIMIT - 1,
    ]
    .iter()
    .map(|&b| Fx::from_bits(b))
    .collect()
}

fn divisors() -> Vec<Fx> {
    [65536, 65537, 100_000, 3 * 65536 + 5, LIMIT - 1]
        .iter()
        .flat_map(|&b| [Fx::from_bits(b), Fx::from_bits(-b)])
        .collect()
}

#[test]
fn multiplication_then_division_round_trips() {
    for a in samples() {
        for b in divisors() {
            let round_tripped = a.mul(b).div(b);
            let error = (round_tripped.to_bits() as i64 - a.to_bits() as i64).abs();
            assert!(error <= 1, "{a:?} * {b:?} / {b:?} = {round_tripped:?}");
        }
    }
}

#[test]
fn multiplication_is_commutative() {
    for a in samples() {
        for b in samples() {
            assert_eq!(a.mul(b), b.mul(a));
        }
    }
    let big = Fx::from_bits(i32::MIN);
    assert_eq!(big.mul(Fx::max_value()), Fx::max_value().mul(big));
}

#[test]
fn multiplying_by_one_is_the_identity() {
    for a in samples() {
        assert_eq!(a.mul(Fx::one()), a);
    }
    assert_eq!(Fx::max_value().mul(Fx::one()), Fx::max_value());
    assert_eq!(Fx::min_value().mul(Fx::one()), Fx::min_value());
    // The one input outside the law: i32::MIN saturates to -i32::MAX.
    assert_eq!(Fx::from_bits(i32::MIN).mul(Fx::one()), Fx::min_value());
}

#[test]
fn addition_is_reversible() {
    for a in samples() {
        for b in samples() {
            assert_eq!(a + b - b, a);
        }
    }
    // Outside the law: the sum saturated, so subtracting does not undo it.
    assert_eq!(Fx::max_value() + Fx::one() - Fx::one(), Fx::from_bits(i32::MAX - 65536));
}

#[test]
fn negation_is_its_own_inverse() {
    for a in samples() {
        assert_eq!(-(-a), a);
    }
    assert_eq!(-(-Fx::min_value()), Fx::min_value());
}

#[test]
fn abs_is_never_negative() {
    for a in samples() {
        assert!(a.abs() >= Fx::zero());
    }
}

#[test]
fn sqrt_is_the_floor_of_the_true_root() {
    for bits in [0, 1, 2, 3, 65535, 65536, 131072, 1 << 20, 123_456_789, i32::MAX] {
        let value = Fx::from_bits(bits);
        let root = value.sqrt().to_bits() as i64;
        let scaled = (bits as i64) << 16;
        assert!(root * root <= scaled);
        assert!((root + 1) * (root + 1) > scaled);
    }
}

#[test]
fn ordering_follows_the_underlying_bits() {
    for a in samples() {
        for b in samples() {
            assert_eq!(a < b, a.to_bits() < b.to_bits());
            assert_eq!(a == b, a.to_bits() == b.to_bits());
        }
    }
}

#[test]
fn arithmetic_stays_in_range() {
    let edges = [i32::MIN, i32::MIN + 1, -1, 0, 1, i32::MAX - 1, i32::MAX];
    for &x in &edges {
        for &y in &edges {
            let a = Fx::from_bits(x);
            let b = Fx::from_bits(y);
            for result in [a + b, a - b, a.mul(b)] {
                assert!(result >= Fx::min_value() && result <= Fx::max_value());
            }
            if y != 0 {
                let q = a.div(b);
                assert!(q >= Fx::min_value() && q <= Fx::max_value());
            }
        }
    }
}

#[test]
fn whole_numbers_round_trip_at_the_range_ends() {
    assert_eq!(Fx::from_int(32767).to_int(), 32767);
    assert_eq!(Fx::from_int(-32768).to_int(), -32768);
}

#[test]
fn scaled_fractions_build_the_same_value() {
    for k in [1, -1, 2, -3, 7, 1000] {
        assert_eq!(Fx::from_frac(3 * k, 7 * k), Fx::from_frac(3, 7));
        assert_eq!(Fx::from_frac(-5 * k, 9 * k), Fx::from_frac(-5, 9));
    }
}

#[test]
fn bits_round_trip() {
    for bits in [i32::MIN, -1, 0, 1, 65536, i32::MAX] {
        assert_eq!(Fx::from_bits(bits).to_bits(), bits);
    }
}
