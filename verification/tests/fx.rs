use sim::Fx;

#[test]
fn whole_numbers_survive_a_round_trip() {
    assert_eq!(Fx::from_int(0).to_int(), 0);
    assert_eq!(Fx::from_int(1).to_int(), 1);
    assert_eq!(Fx::from_int(12345).to_int(), 12345);
    assert_eq!(Fx::from_int(-7).to_int(), -7);
}

#[test]
fn one_represents_a_whole_unit() {
    assert_eq!(Fx::one(), Fx::from_int(1));
}

#[test]
fn equivalent_fractions_are_equal() {
    assert_eq!(Fx::from_frac(1, 2), Fx::from_frac(2, 4));
    assert_eq!(Fx::from_frac(4, 2), Fx::from_int(2));
    assert_eq!(Fx::from_frac(-1, 2), Fx::from_frac(1, -2));
}

#[test]
fn to_int_floors_rather_than_truncating_towards_zero() {
    assert_eq!(Fx::from_frac(1, 2).to_int(), 0);
    assert_eq!(Fx::from_frac(3, 2).to_int(), 1);
    assert_eq!(Fx::from_frac(-1, 2).to_int(), -1);
    assert_eq!(Fx::from_frac(-3, 2).to_int(), -2);
}

#[test]
fn multiplication_preserves_the_fixed_point_scale() {
    assert_eq!(Fx::from_int(3).mul(Fx::from_int(4)), Fx::from_int(12));
    assert_eq!(Fx::from_int(-3).mul(Fx::from_int(4)), Fx::from_int(-12));
    assert_eq!(Fx::from_int(-3).mul(Fx::from_int(-4)), Fx::from_int(12));
    assert_eq!(
        Fx::from_frac(1, 2).mul(Fx::from_frac(1, 2)),
        Fx::from_frac(1, 4)
    );
    assert_eq!(Fx::from_int(5).mul(Fx::one()), Fx::from_int(5));
    assert_eq!(Fx::from_int(5).mul(Fx::zero()), Fx::zero());
}

#[test]
fn division_preserves_the_fixed_point_scale() {
    assert_eq!(Fx::from_int(12).div(Fx::from_int(4)), Fx::from_int(3));
    assert_eq!(Fx::from_int(-12).div(Fx::from_int(4)), Fx::from_int(-3));
    assert_eq!(Fx::from_int(1).div(Fx::from_int(2)), Fx::from_frac(1, 2));
    assert_eq!(Fx::from_int(5).div(Fx::one()), Fx::from_int(5));
    assert_eq!(
        Fx::from_frac(1, 4).div(Fx::from_frac(1, 2)),
        Fx::from_frac(1, 2)
    );
}

#[test]
fn addition_and_subtraction_combine_whole_and_fractional_parts() {
    assert_eq!(Fx::from_int(3) + Fx::from_int(4), Fx::from_int(7));
    assert_eq!(Fx::from_frac(1, 2) + Fx::from_frac(1, 2), Fx::one());
    assert_eq!(Fx::from_int(3) - Fx::from_int(4), Fx::from_int(-1));
    assert_eq!(Fx::one() - Fx::from_frac(1, 4), Fx::from_frac(3, 4));
}

#[test]
fn negation_flips_sign() {
    assert_eq!(-Fx::from_int(5), Fx::from_int(-5));
    assert_eq!(-Fx::zero(), Fx::zero());
    assert_eq!(-(-Fx::from_frac(1, 3)), Fx::from_frac(1, 3));
}

#[test]
fn arithmetic_saturates_so_debug_and_release_builds_agree() {
    assert_eq!(Fx::max_value() + Fx::one(), Fx::max_value());
    assert_eq!(Fx::min_value() - Fx::one(), Fx::min_value());
    assert_eq!(-Fx::min_value(), Fx::max_value());
    assert_eq!(Fx::max_value().mul(Fx::from_int(2)), Fx::max_value());
    assert_eq!(Fx::min_value().mul(Fx::from_int(2)), Fx::min_value());
    assert_eq!(Fx::max_value().div(Fx::from_frac(1, 2)), Fx::max_value());
}

#[test]
fn sqrt_of_perfect_squares_is_exact() {
    assert_eq!(Fx::zero().sqrt(), Fx::zero());
    assert_eq!(Fx::one().sqrt(), Fx::one());
    assert_eq!(Fx::from_int(4).sqrt(), Fx::from_int(2));
    assert_eq!(Fx::from_int(144).sqrt(), Fx::from_int(12));
    assert_eq!(Fx::from_frac(1, 4).sqrt(), Fx::from_frac(1, 2));
}

#[test]
fn sqrt_of_non_squares_is_within_one_unit_in_the_last_place() {
    // sqrt(2) = 1.41421356..., which is 92681.9 in 16.16.
    let two = Fx::from_int(2).sqrt();
    let expected = Fx::from_frac(92681, 65536);
    assert!(
        (two - expected).abs() <= Fx::from_frac(1, 65536),
        "sqrt(2) was {two:?}, expected within 1 ulp of {expected:?}"
    );

    // The defining property matters more than the digits: r*r must be close
    // to the input, and never overshoot by more than rounding allows.
    for n in 1..200 {
        let x = Fx::from_int(n);
        let r = x.sqrt();
        assert!(r.mul(r) <= x, "sqrt({n}) overshot: {r:?}^2 > {x:?}");
    }
}

#[test]
fn constants_have_the_documented_bits() {
    assert_eq!(Fx::zero().to_bits(), 0);
    assert_eq!(Fx::one().to_bits(), 65536);
    assert_eq!(Fx::max_value().to_bits(), i32::MAX);
    assert_eq!(Fx::min_value().to_bits(), -i32::MAX);
}

#[test]
fn from_int_saturates_outside_the_representable_range() {
    assert_eq!(Fx::from_int(32767).to_bits(), 32767 << 16);
    assert_eq!(Fx::from_int(-32767).to_bits(), -32767 << 16);
    assert_eq!(Fx::from_int(-32768), Fx::min_value());
    assert_eq!(Fx::from_int(32768), Fx::max_value());
    assert_eq!(Fx::from_int(65536), Fx::max_value());
    assert_eq!(Fx::from_int(i32::MIN), Fx::min_value());
    assert_eq!(Fx::from_int(-32768).abs(), Fx::max_value());
}

#[test]
fn from_frac_rounds_towards_zero() {
    assert_eq!(Fx::from_frac(1, 3).to_bits(), 21845);
    assert_eq!(Fx::from_frac(-1, 3).to_bits(), -21845);
    assert_eq!(Fx::from_frac(1, -3).to_bits(), -21845);
    assert_eq!(Fx::from_frac(-1, -3).to_bits(), 21845);
}

#[test]
fn from_frac_saturates_a_quotient_out_of_range() {
    assert_eq!(Fx::from_frac(40000, 1), Fx::max_value());
    assert_eq!(Fx::from_frac(65536, 1), Fx::max_value());
    assert_eq!(Fx::from_frac(-32768, 1), Fx::min_value());
    assert_eq!(Fx::from_frac(1, -1), Fx::from_int(-1));
    assert_eq!(Fx::from_frac(i32::MAX, 2), Fx::max_value());
    assert_eq!(Fx::from_frac(i32::MIN, 65536), Fx::min_value());
}

#[test]
fn multiplication_floors_the_rescaled_product() {
    // 3 * 3 bits = 9, 9 / 65536 floors to 0; -3 * 3 = -9 floors to -1.
    assert_eq!(Fx::from_bits(3).mul(Fx::from_bits(3)).to_bits(), 0);
    assert_eq!(Fx::from_bits(-3).mul(Fx::from_bits(3)).to_bits(), -1);
}

#[test]
fn division_rounds_towards_zero() {
    // -1 bit / 3 units = -1/3 bit, which rounds to 0 rather than -1.
    assert_eq!(Fx::from_bits(-1).div(Fx::from_int(3)).to_bits(), 0);
    assert_eq!(Fx::from_bits(1).div(Fx::from_int(-3)).to_bits(), 0);
    assert_eq!(Fx::from_int(7).div(Fx::from_int(-2)), Fx::from_frac(-7, 2));
}

#[test]
fn division_saturates_at_both_ends() {
    assert_eq!(Fx::min_value().div(Fx::from_frac(1, 2)), Fx::min_value());
    assert_eq!(Fx::max_value().div(Fx::from_frac(-1, 2)), Fx::min_value());
}

#[test]
fn to_int_of_the_extremes() {
    assert_eq!(Fx::max_value().to_int(), 32767);
    assert_eq!(Fx::min_value().to_int(), -32768);
    assert_eq!(Fx::from_bits(-1).to_int(), -1);
}

#[test]
fn abs_of_the_extremes() {
    assert_eq!(Fx::min_value().abs(), Fx::max_value());
    assert_eq!(Fx::from_int(-3).abs(), Fx::from_int(3));
    assert_eq!(Fx::zero().abs(), Fx::zero());
}

#[test]
fn sqrt_of_the_largest_value() {
    let root = Fx::max_value().sqrt().to_bits() as i64;
    let scaled = (i32::MAX as i64) << 16;
    assert!(root * root <= scaled);
    assert!((root + 1) * (root + 1) > scaled);
    assert_eq!(root, 11863283);
}

#[test]
fn ordering_follows_the_numbers_represented() {
    assert!(Fx::from_int(-1) < Fx::zero());
    assert!(Fx::from_frac(1, 3) < Fx::from_frac(1, 2));
    assert!(Fx::max_value() > Fx::min_value());
    assert!(Fx::one() <= Fx::one());
    assert_eq!(
        Fx::from_int(2).partial_cmp(&Fx::from_int(3)),
        Some(std::cmp::Ordering::Less)
    );
}
