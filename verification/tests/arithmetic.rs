use particle_kernel::math::fixed::{
    clamp_to_limit, divide_away_from_zero, divide_toward_zero, integer_sqrt, LIMIT, ONE,
};

#[test]
fn one_is_a_million_steps() {
    assert_eq!(ONE, 1_000_000);
    assert_eq!(LIMIT, 1_000_000_000 * ONE);
}

#[test]
fn clamp_keeps_values_in_range() {
    assert_eq!(clamp_to_limit(0), 0);
    assert_eq!(clamp_to_limit(-17), -17);
    assert_eq!(clamp_to_limit(LIMIT as i128), LIMIT);
    assert_eq!(clamp_to_limit(-(LIMIT as i128)), -LIMIT);
}

#[test]
fn clamp_saturates_beyond_the_limit() {
    assert_eq!(clamp_to_limit(LIMIT as i128 + 1), LIMIT);
    assert_eq!(clamp_to_limit(-(LIMIT as i128) - 1), -LIMIT);
    assert_eq!(clamp_to_limit(i128::MAX), LIMIT);
    assert_eq!(clamp_to_limit(i128::MIN), -LIMIT);
}

#[test]
fn division_toward_zero_drops_the_fraction() {
    assert_eq!(divide_toward_zero(7, 2), 3);
    assert_eq!(divide_toward_zero(-7, 2), -3);
    assert_eq!(divide_toward_zero(6, 2), 3);
    assert_eq!(divide_toward_zero(-6, 2), -3);
    assert_eq!(divide_toward_zero(1, 5), 0);
    assert_eq!(divide_toward_zero(-1, 5), 0);
    assert_eq!(divide_toward_zero(0, 5), 0);
}

#[test]
fn division_away_from_zero_completes_the_fraction() {
    assert_eq!(divide_away_from_zero(7, 2), 4);
    assert_eq!(divide_away_from_zero(-7, 2), -4);
    assert_eq!(divide_away_from_zero(6, 2), 3);
    assert_eq!(divide_away_from_zero(-6, 2), -3);
    assert_eq!(divide_away_from_zero(1, 5), 1);
    assert_eq!(divide_away_from_zero(-1, 5), -1);
    assert_eq!(divide_away_from_zero(0, 5), 0);
}

#[test]
fn division_handles_wide_operands() {
    assert_eq!(divide_toward_zero(i128::MAX, 1), i128::MAX);
    assert_eq!(divide_away_from_zero(i128::MAX, 1), i128::MAX);
    assert_eq!(divide_away_from_zero(i128::MAX, 2), i128::MAX / 2 + 1);
    assert_eq!(divide_away_from_zero(-i128::MAX, i128::MAX), -1);
}

#[test]
fn square_root_rounds_down() {
    assert_eq!(integer_sqrt(0), 0);
    assert_eq!(integer_sqrt(1), 1);
    assert_eq!(integer_sqrt(2), 1);
    assert_eq!(integer_sqrt(3), 1);
    assert_eq!(integer_sqrt(4), 2);
    assert_eq!(integer_sqrt(8), 2);
    assert_eq!(integer_sqrt(9), 3);
    assert_eq!(integer_sqrt(99), 9);
    assert_eq!(integer_sqrt(100), 10);
}

#[test]
fn square_root_of_large_numbers() {
    assert_eq!(integer_sqrt(2_250_000_000_000), 1_500_000);
    assert_eq!(integer_sqrt(2_250_000_000_000 - 1), 1_499_999);
    assert_eq!(integer_sqrt(u128::MAX), u64::MAX);
    let r: u128 = 3_000_000_000_000_000;
    assert_eq!(integer_sqrt(r * r), r as u64);
    assert_eq!(integer_sqrt(r * r + 2 * r), r as u64);
    assert_eq!(integer_sqrt(r * r + 2 * r + 1), r as u64 + 1);
}

#[test]
fn square_root_brackets_its_argument() {
    let mut n: u128 = 0;
    while n < 5000 {
        let r = integer_sqrt(n) as u128;
        assert!(r * r <= n);
        assert!(n < (r + 1) * (r + 1));
        n += 1;
    }
}
