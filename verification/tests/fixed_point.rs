use tinyraytrace::fixed::{floor_sqrt, Fixed, SCALE};

const ONE: i64 = 1 << 32;

fn fx(v: f64) -> Fixed {
    Fixed::from_raw((v * 4294967296.0).round() as i64)
}

#[test]
fn floor_sqrt_of_small_numbers() {
    assert_eq!(floor_sqrt(0), 0);
    assert_eq!(floor_sqrt(1), 1);
    assert_eq!(floor_sqrt(2), 1);
    assert_eq!(floor_sqrt(3), 1);
    assert_eq!(floor_sqrt(4), 2);
    assert_eq!(floor_sqrt(8), 2);
    assert_eq!(floor_sqrt(9), 3);
    assert_eq!(floor_sqrt(99), 9);
    assert_eq!(floor_sqrt(100), 10);
}

#[test]
fn floor_sqrt_at_the_top_of_the_range() {
    let top: u128 = u64::MAX as u128;
    assert_eq!(floor_sqrt(u128::MAX), u64::MAX);
    assert_eq!(floor_sqrt(top * top), u64::MAX);
    assert_eq!(floor_sqrt(top * top - 1), u64::MAX - 1);
    assert_eq!(floor_sqrt(1 << 126), 1 << 63);
}

#[test]
fn floor_sqrt_brackets_every_sample() {
    let mut n: u128 = 1;
    while n < (1 << 120) {
        let r = floor_sqrt(n) as u128;
        assert!(r * r <= n);
        assert!((r + 1) * (r + 1) > n);
        n = n * 3 + 7;
    }
}

#[test]
fn constants() {
    assert_eq!(SCALE, 4294967296);
    assert_eq!(Fixed::zero().raw, 0);
    assert_eq!(Fixed::one().raw, ONE);
    assert_eq!(Fixed::max_value().raw, i64::MAX);
    assert_eq!(Fixed::from_raw(-7).raw, -7);
    assert_eq!(Fixed::from_int(3).raw, 3 * ONE);
    assert_eq!(Fixed::from_int(-2).raw, -2 * ONE);
    assert_eq!(Fixed::from_int(i32::MAX).raw, (i32::MAX as i64) * ONE);
    assert_eq!(Fixed::from_int(i32::MIN).raw, i64::MIN);
}

#[test]
fn addition_and_subtraction() {
    assert_eq!((fx(1.5) + fx(2.25)).raw, fx(3.75).raw);
    assert_eq!((fx(1.5) - fx(2.25)).raw, fx(-0.75).raw);
    assert_eq!((Fixed::from_raw(5) + Fixed::from_raw(-9)).raw, -4);
}

#[test]
fn addition_and_subtraction_saturate() {
    let max = Fixed::max_value();
    let min = Fixed::from_raw(i64::MIN);
    assert_eq!((max + Fixed::from_raw(1)).raw, i64::MAX);
    assert_eq!((max + max).raw, i64::MAX);
    assert_eq!((min + min).raw, i64::MIN);
    assert_eq!((min - Fixed::from_raw(1)).raw, i64::MIN);
    assert_eq!((max - min).raw, i64::MAX);
    assert_eq!((min - max).raw, i64::MIN);
}

#[test]
fn negation() {
    assert_eq!((-fx(2.5)).raw, fx(-2.5).raw);
    assert_eq!((-Fixed::zero()).raw, 0);
    assert_eq!((-Fixed::max_value()).raw, -i64::MAX);
    assert_eq!((-Fixed::from_raw(i64::MIN)).raw, i64::MAX);
}

#[test]
fn multiplication() {
    assert_eq!((fx(1.5) * fx(2.0)).raw, fx(3.0).raw);
    assert_eq!((fx(-1.5) * fx(2.0)).raw, fx(-3.0).raw);
    assert_eq!((fx(-1.5) * fx(-2.0)).raw, fx(3.0).raw);
    assert_eq!((fx(0.5) * fx(0.5)).raw, fx(0.25).raw);
    assert_eq!((Fixed::one() * Fixed::from_raw(12345)).raw, 12345);
    assert_eq!((Fixed::one() * Fixed::from_raw(-12345)).raw, -12345);
    assert_eq!((Fixed::zero() * Fixed::max_value()).raw, 0);
}

#[test]
fn multiplication_rounds_down() {
    // three units times a half is a unit and a half
    assert_eq!((Fixed::from_raw(3) * fx(0.5)).raw, 1);
    assert_eq!((Fixed::from_raw(-3) * fx(0.5)).raw, -2);
    assert_eq!((Fixed::from_raw(1) * fx(0.5)).raw, 0);
    assert_eq!((Fixed::from_raw(-1) * fx(0.5)).raw, -1);
    assert_eq!((Fixed::from_raw(1) * Fixed::from_raw(1)).raw, 0);
    assert_eq!((Fixed::from_raw(-1) * Fixed::from_raw(1)).raw, -1);
}

#[test]
fn multiplication_saturates() {
    assert_eq!((fx(50000.0) * fx(50000.0)).raw, i64::MAX);
    assert_eq!((fx(-50000.0) * fx(50000.0)).raw, i64::MIN);
    assert_eq!((Fixed::from_raw(i64::MIN) * Fixed::from_raw(i64::MIN)).raw, i64::MAX);
    assert_eq!((Fixed::from_raw(i64::MIN) * Fixed::from_raw(i64::MAX)).raw, i64::MIN);
    // 46340^2 = 2147395600 is below 2^31, 46341^2 is not
    assert_eq!((fx(46340.0) * fx(46340.0)).raw, 2147395600 * ONE);
    assert_eq!((fx(46341.0) * fx(46341.0)).raw, i64::MAX);
}

#[test]
fn division() {
    assert_eq!((fx(3.0) / fx(2.0)).raw, fx(1.5).raw);
    assert_eq!((fx(-3.0) / fx(2.0)).raw, fx(-1.5).raw);
    assert_eq!((fx(3.0) / fx(-2.0)).raw, fx(-1.5).raw);
    assert_eq!((fx(-3.0) / fx(-2.0)).raw, fx(1.5).raw);
}

#[test]
fn division_rounds_down() {
    assert_eq!((Fixed::one() / fx(3.0)).raw, 1431655765);
    assert_eq!((-Fixed::one() / fx(3.0)).raw, -1431655766);
    assert_eq!((Fixed::one() / fx(-3.0)).raw, -1431655766);
    assert_eq!((-Fixed::one() / fx(-3.0)).raw, 1431655765);
    assert_eq!((Fixed::one() / fx(1.5)).raw, 2863311530);
}

#[test]
fn division_saturates() {
    assert_eq!((fx(100.0) / Fixed::from_raw(1)).raw, i64::MAX);
    assert_eq!((fx(-100.0) / Fixed::from_raw(1)).raw, i64::MIN);
    assert_eq!((fx(100.0) / Fixed::from_raw(-1)).raw, i64::MIN);
    assert_eq!((Fixed::from_raw(i64::MIN) / -Fixed::one()).raw, i64::MAX);
}

#[test]
fn division_by_zero() {
    assert_eq!((fx(1.0) / Fixed::zero()).raw, i64::MAX);
    assert_eq!((fx(-1.0) / Fixed::zero()).raw, i64::MIN);
    assert_eq!((Fixed::zero() / Fixed::zero()).raw, 0);
}

#[test]
fn square_root() {
    assert_eq!(fx(4.0).sqrt().raw, fx(2.0).raw);
    assert_eq!(fx(0.25).sqrt().raw, fx(0.5).raw);
    assert_eq!(Fixed::one().sqrt().raw, ONE);
    assert_eq!(Fixed::zero().sqrt().raw, 0);
    // sqrt(2) = 1.41421356237309..., times 2^32 = 6074000999.95
    assert_eq!(fx(2.0).sqrt().raw, 6074000999);
    // sqrt(2^31) = 46340.95..., times 2^32
    assert_eq!(Fixed::max_value().sqrt().raw, 199032864766430);
}

#[test]
fn square_root_of_a_negative_number_is_zero() {
    assert_eq!(fx(-4.0).sqrt().raw, 0);
    assert_eq!(Fixed::from_raw(-1).sqrt().raw, 0);
    assert_eq!(Fixed::from_raw(i64::MIN).sqrt().raw, 0);
}

#[test]
fn leg_of_a_right_triangle() {
    assert_eq!(fx(5.0).leg(fx(3.0)).raw, fx(4.0).raw);
    assert_eq!(fx(5.0).leg(fx(4.0)).raw, fx(3.0).raw);
    assert_eq!(fx(5.0).leg(fx(-4.0)).raw, fx(3.0).raw);
    assert_eq!(fx(2.0).leg(Fixed::zero()).raw, fx(2.0).raw);
    assert_eq!(fx(2.0).leg(fx(2.0)).raw, 0);
    assert_eq!(fx(2.0).leg(fx(3.0)).raw, 0);
    assert_eq!(Fixed::from_raw(i64::MIN).leg(Fixed::zero()).raw, i64::MAX);
    assert_eq!(Fixed::max_value().leg(Fixed::zero()).raw, i64::MAX);
    // sqrt(2^2 - 1^2) = 1.7320508075688..., times 2^32 = 7439101573.7
    assert_eq!(fx(2.0).leg(fx(1.0)).raw, 7439101573);
}

#[test]
fn max_and_min() {
    assert_eq!(fx(1.0).max(fx(2.0)).raw, fx(2.0).raw);
    assert_eq!(fx(1.0).min(fx(2.0)).raw, fx(1.0).raw);
    assert_eq!(fx(-1.0).max(Fixed::zero()).raw, 0);
    assert_eq!(fx(-1.0).min(Fixed::zero()).raw, fx(-1.0).raw);
}

#[test]
fn clamp_to_the_unit_interval() {
    assert_eq!(fx(0.5).clamp_unit().raw, fx(0.5).raw);
    assert_eq!(fx(-0.5).clamp_unit().raw, 0);
    assert_eq!(fx(1.5).clamp_unit().raw, ONE);
    assert_eq!(Fixed::zero().clamp_unit().raw, 0);
    assert_eq!(Fixed::one().clamp_unit().raw, ONE);
    assert_eq!(Fixed::max_value().clamp_unit().raw, ONE);
    assert_eq!(Fixed::from_raw(i64::MIN).clamp_unit().raw, 0);
}

#[test]
fn copysign_takes_the_sign_of_its_argument() {
    let j = Fixed::from_raw(66);
    assert_eq!(j.copysign(fx(2.0)).raw, 66);
    assert_eq!(j.copysign(fx(-2.0)).raw, -66);
    assert_eq!(j.copysign(Fixed::zero()).raw, 66);
    assert_eq!((-j).copysign(fx(2.0)).raw, 66);
    assert_eq!((-j).copysign(fx(-2.0)).raw, -66);
    assert_eq!(Fixed::from_raw(i64::MIN).copysign(j).raw, i64::MAX);
}

#[test]
fn integer_powers() {
    assert_eq!(fx(0.3).powi(0).raw, ONE);
    assert_eq!(Fixed::zero().powi(0).raw, ONE);
    assert_eq!(fx(0.5).powi(1).raw, ONE / 2);
    assert_eq!(fx(0.5).powi(2).raw, ONE / 4);
    assert_eq!(fx(0.5).powi(3).raw, ONE / 8);
    assert_eq!(fx(0.5).powi(32).raw, 1);
    assert_eq!(fx(0.5).powi(33).raw, 0);
    assert_eq!(fx(2.0).powi(10).raw, fx(1024.0).raw);
    assert_eq!(fx(2.0).powi(30).raw, 1 << 62);
    assert_eq!(fx(2.0).powi(31).raw, i64::MAX);
    assert_eq!(fx(-2.0).powi(3).raw, fx(-8.0).raw);
    assert_eq!(Fixed::one().powi(1425).raw, ONE);
    assert_eq!(Fixed::zero().powi(50).raw, 0);
}

#[test]
fn integer_power_rounds_each_product() {
    // x = three units: x^2 rounds to zero, so x^3 = x * x^2 is zero.
    assert_eq!(Fixed::from_raw(3).powi(3).raw, 0);
    // 0.9 is 3865470566 units; its square is 3478923509.04 units
    let x = Fixed::from_raw(3865470566);
    assert_eq!(x.powi(2).raw, 3478923509);
    // x^3 = x * x^2 = 3865470566 * 3478923509 / 2^32 = 3131031157.3
    assert_eq!(x.powi(3).raw, 3131031157);
    // x^4 = (x^2)^2 = 3478923509^2 / 2^32 = 2817928041.4
    assert_eq!(x.powi(4).raw, 2817928041);
}
