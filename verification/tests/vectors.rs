use tinyraytrace::fixed::Fixed;
use tinyraytrace::voxel::Vox;

const ONE: i64 = 1 << 32;

fn fx(v: f64) -> Fixed {
    Fixed::from_raw((v * 4294967296.0).round() as i64)
}

fn vox(x: f64, y: f64, z: f64) -> Vox {
    Vox::new((fx(x), fx(y), fx(z)))
}

fn raw(x: i64, y: i64, z: i64) -> Vox {
    Vox::new((Fixed::from_raw(x), Fixed::from_raw(y), Fixed::from_raw(z)))
}

fn as_f64(v: Fixed) -> f64 {
    v.raw as f64 / 4294967296.0
}

#[test]
fn origin_and_new() {
    assert_eq!(Vox::orig(), raw(0, 0, 0));
    let v = Vox::new((fx(1.0), fx(-2.0), fx(3.5)));
    assert_eq!(v.x.raw, ONE);
    assert_eq!(v.y.raw, -2 * ONE);
    assert_eq!(v.z.raw, 7 * ONE / 2);
}

#[test]
fn sum_and_difference() {
    assert_eq!(vox(1.0, 2.0, 3.0) + vox(0.5, -2.0, 4.0), vox(1.5, 0.0, 7.0));
    assert_eq!(vox(1.0, 2.0, 3.0) - vox(0.5, -2.0, 4.0), vox(0.5, 4.0, -1.0));
    assert_eq!(-vox(1.0, -2.0, 0.0), vox(-1.0, 2.0, 0.0));
}

#[test]
fn sum_saturates_by_coordinate() {
    let big = raw(i64::MAX, i64::MIN, 5);
    assert_eq!(big + raw(1, -1, 1), raw(i64::MAX, i64::MIN, 6));
    assert_eq!(big - raw(-1, 1, 1), raw(i64::MAX, i64::MIN, 4));
    assert_eq!(-big, raw(-i64::MAX, i64::MAX, -5));
}

#[test]
fn length() {
    assert_eq!(vox(3.0, 4.0, 0.0).l2().raw, fx(5.0).raw);
    assert_eq!(vox(0.0, 0.0, -2.5).l2().raw, fx(2.5).raw);
    assert_eq!(vox(2.0, 3.0, 6.0).l2().raw, fx(7.0).raw);
    assert_eq!(Vox::orig().l2().raw, 0);
    // sqrt(3) = 1.7320508075688..., times 2^32 = 7439101573.7
    assert_eq!(vox(1.0, 1.0, 1.0).l2().raw, 7439101573);
    assert_eq!(raw(1, 0, 0).l2().raw, 1);
    assert_eq!(raw(1, 1, 1).l2().raw, 1);
    assert_eq!(raw(2, 2, 1).l2().raw, 3);
}

#[test]
fn length_saturates() {
    assert_eq!(raw(i64::MAX, i64::MAX, i64::MAX).l2().raw, i64::MAX);
    assert_eq!(raw(i64::MIN, i64::MIN, i64::MIN).l2().raw, i64::MAX);
    assert_eq!(raw(i64::MIN, 0, 0).l2().raw, i64::MAX);
    assert_eq!(raw(i64::MAX, 0, 0).l2().raw, i64::MAX);
}

#[test]
fn dot_product() {
    assert_eq!(vox(1.0, 2.0, 3.0).dot(&vox(4.0, -5.0, 6.0)).raw, fx(12.0).raw);
    assert_eq!(vox(1.0, 0.0, 0.0).dot(&vox(0.0, 1.0, 0.0)).raw, 0);
    assert_eq!(vox(0.5, 0.5, 0.5).dot(&vox(0.5, 0.5, 0.5)).raw, fx(0.75).raw);
    assert_eq!(vox(-1.5, 2.0, 0.0).dot(&vox(2.0, 0.25, 9.0)).raw, fx(-2.5).raw);
}

#[test]
fn dot_product_rounds_the_sum_once() {
    // Each product is a third of a unit; their sum is one whole unit.
    let a = raw(1, 1, 1);
    let b = raw(1431655766, 1431655765, 1431655765);
    assert_eq!(a.dot(&b).raw, 1);
    assert_eq!(a.dot(&-b).raw, -1);
    assert_eq!(raw(1, 1, 0).dot(&b).raw, 0);
    assert_eq!(raw(1, 1, 0).dot(&-b).raw, -1);
}

#[test]
fn dot_product_saturates() {
    let big = raw(i64::MIN, i64::MIN, i64::MIN);
    assert_eq!(big.dot(&big).raw, i64::MAX);
    assert_eq!(big.dot(&raw(i64::MAX, i64::MAX, i64::MAX)).raw, i64::MIN);
    // two huge products cancel and leave the third
    // 2^126 - 2^63 (2^63 - 1) + 7 * 2^32 = 2^63 + 7 * 2^32
    assert_eq!(raw(i64::MIN, i64::MIN, ONE).dot(&raw(i64::MIN, i64::MAX, 7)).raw, (1 << 31) + 7);
    assert_eq!(raw(i64::MAX, i64::MAX, ONE).dot(&raw(i64::MAX, -i64::MAX, 7)).raw, 7);
}

#[test]
fn normalized_axis_vectors() {
    assert_eq!(vox(0.0, 0.0, -7.0).normalized(), vox(0.0, 0.0, -1.0));
    assert_eq!(vox(2.5, 0.0, 0.0).normalized(), vox(1.0, 0.0, 0.0));
    assert_eq!(raw(0, 1, 0).normalized(), vox(0.0, 1.0, 0.0));
    assert_eq!(raw(i64::MIN, 0, 0).normalized(), vox(-1.0, 0.0, 0.0));
    assert_eq!(raw(0, 0, i64::MAX).normalized(), vox(0.0, 0.0, 1.0));
}

#[test]
fn normalized_three_four_five() {
    // 3/5 and 4/5 of 2^32 are 2576980377.6 and 3435973836.8, rounded down
    assert_eq!(vox(3.0, 4.0, 0.0).normalized(), raw(2576980377, 3435973836, 0));
    assert_eq!(vox(-3.0, 0.0, -4.0).normalized(), raw(-2576980378, 0, -3435973837));
}

#[test]
fn normalized_zero_vector_is_zero() {
    assert_eq!(Vox::orig().normalized(), Vox::orig());
}

#[test]
fn normalized_has_length_near_one() {
    let samples = [
        vox(1.0, 2.0, 3.0),
        vox(-7.5, 0.25, 11.0),
        vox(0.001, 0.002, -0.003),
        vox(30.0, 50.0, -25.0),
        vox(-20.0, 20.0, 20.0),
        vox(1000.0, -2000.0, 1500.0),
        vox(1e9, -1e9, 1e9),
    ];
    for v in samples {
        let n = v.normalized();
        let len = as_f64(n.l2());
        assert!((len - 1.0).abs() < 1e-6, "{:?} has length {}", v, len);
        assert!(n.x.raw.abs() <= ONE && n.y.raw.abs() <= ONE && n.z.raw.abs() <= ONE);
    }
}

#[test]
fn normalized_is_within_a_few_units_of_unit_length() {
    let samples = [
        vox(0.5, 0.0, 0.0),
        vox(0.3, 0.3, 0.3),
        vox(1.0, 2.0, 3.0),
        vox(-7.5, 0.25, 11.0),
        vox(30.0, 50.0, -25.0),
        vox(1e9, -1e9, 1e9),
        raw(i64::MAX, i64::MIN, i64::MAX),
        raw(1 << 31, 1, -1),
    ];
    for v in samples {
        assert!(v.l2().raw >= ONE / 2);
        let len = v.normalized().l2().raw;
        assert!(ONE - 4 <= len && len <= ONE + 6, "{:?} has length {}", v, len);
    }
}

#[test]
fn unit_vectors_are_their_own_normalization() {
    let units = [
        vox(1.0, 0.0, 0.0),
        vox(0.0, -1.0, 0.0),
        vox(0.0, 0.0, 1.0),
        raw(2576980378, 3435973837, 0),
        raw(2479700525, 2479700525, 2479700525),
        raw(-ONE, 1, 1),
        raw(ONE, 70000, 50000),
    ];
    for v in units {
        assert_eq!(v.l2().raw, ONE, "{:?}", v);
        assert_eq!(v.normalized(), v);
        assert_eq!(v.normalized().l2().raw, ONE);
    }
}

#[test]
fn stretching() {
    assert_eq!(vox(1.0, -2.0, 0.5).walk_dir(fx(2.0)), vox(2.0, -4.0, 1.0));
    assert_eq!(vox(1.0, -2.0, 0.5).walk_dir(fx(-0.5)), vox(-0.5, 1.0, -0.25));
    assert_eq!(vox(1.0, -2.0, 0.5).walk_dir(Fixed::zero()), Vox::orig());
    assert_eq!(raw(3, -3, 1).walk_dir(fx(0.5)), raw(1, -2, 0));
}

#[test]
fn projection() {
    assert_eq!(vox(3.0, 4.0, 5.0).project_on(&vox(0.0, 0.0, 2.0)), vox(0.0, 0.0, 5.0));
    assert_eq!(vox(3.0, 4.0, 5.0).project_on(&vox(-9.0, 0.0, 0.0)), vox(3.0, 0.0, 0.0));
    assert_eq!(vox(0.0, 4.0, 0.0).project_on(&vox(1.0, 0.0, 0.0)), Vox::orig());
    assert_eq!(vox(1.0, 2.0, 3.0).project_on(&Vox::orig()), Vox::orig());
}

#[test]
fn projection_on_a_diagonal() {
    let p = vox(2.0, 0.0, 0.0).project_on(&vox(1.0, 1.0, 0.0));
    assert!((as_f64(p.x) - 1.0).abs() < 1e-8);
    assert!((as_f64(p.y) - 1.0).abs() < 1e-8);
    assert_eq!(p.z.raw, 0);
}

#[test]
fn cross_product() {
    assert_eq!(vox(1.0, 0.0, 0.0).cross(&vox(0.0, 1.0, 0.0)), vox(0.0, 0.0, 1.0));
    assert_eq!(vox(0.0, 1.0, 0.0).cross(&vox(1.0, 0.0, 0.0)), vox(0.0, 0.0, -1.0));
    assert_eq!(vox(0.0, 1.0, 0.0).cross(&vox(0.0, 0.0, 1.0)), vox(1.0, 0.0, 0.0));
    assert_eq!(vox(1.0, 2.0, 3.0).cross(&vox(4.0, 5.0, 6.0)), vox(-3.0, 6.0, -3.0));
    assert_eq!(vox(1.0, 2.0, 3.0).cross(&vox(2.0, 4.0, 6.0)), Vox::orig());
}

#[test]
fn cross_product_saturates() {
    let a = raw(0, i64::MIN, i64::MIN);
    let b = raw(0, i64::MAX, i64::MIN);
    // x = y1 z2 - z1 y2 = 2^126 + 2^63 (2^63 - 1)
    assert_eq!(a.cross(&b).x.raw, i64::MAX);
    assert_eq!(b.cross(&a).x.raw, i64::MIN);
}

#[test]
fn reflection_about_a_normal() {
    let n = vox(0.0, 1.0, 0.0);
    assert_eq!(vox(1.0, -1.0, 0.0).reflect(n), vox(1.0, 1.0, 0.0));
    assert_eq!(vox(0.0, -1.0, 0.0).reflect(n), vox(0.0, 1.0, 0.0));
    assert_eq!(vox(0.0, 0.0, 1.0).reflect(n), vox(0.0, 0.0, 1.0));
    assert_eq!(vox(0.5, 0.25, -2.0).reflect(vox(0.0, 0.0, 1.0)), vox(0.5, 0.25, 2.0));
}

#[test]
fn reflection_keeps_the_length() {
    let d = vox(1.0, -2.0, 0.5).normalized();
    let n = vox(-1.0, 3.0, 2.0).normalized();
    let r = d.reflect(n);
    assert!((as_f64(r.l2()) - 1.0).abs() < 1e-8);
    // the part along the normal is turned round
    assert!((as_f64(r.dot(&n)) + as_f64(d.dot(&n))).abs() < 1e-8);
}

#[test]
fn refraction_straight_on_keeps_the_direction() {
    let d = vox(0.0, 0.0, -1.0);
    let n = vox(0.0, 0.0, 1.0);
    let r = d.refract(n, fx(1.5));
    assert_eq!((r.x.raw, r.y.raw), (0, 0));
    assert!((r.z.raw + ONE).abs() <= 2, "{}", r.z.raw);
    // leaving: the normal points along the ray
    assert_eq!(d.refract(vox(0.0, 0.0, -1.0), fx(1.5)), vox(0.0, 0.0, -1.0));
}

#[test]
fn refraction_with_index_one_keeps_the_direction() {
    let d = raw(2576980377, -3435973837, 0);
    let n = vox(0.0, 1.0, 0.0);
    let r = d.refract(n, Fixed::one());
    assert!((r.x.raw - d.x.raw).abs() <= 2);
    assert!((r.y.raw - d.y.raw).abs() <= 2);
    assert_eq!(r.z.raw, 0);
}

#[test]
fn refraction_bends_toward_the_normal_on_entering() {
    // 45 degrees onto glass of index 1.5: sin t = sin 45 / 1.5
    let s = std::f64::consts::FRAC_1_SQRT_2;
    let d = vox(s, -s, 0.0);
    let n = vox(0.0, 1.0, 0.0);
    let r = d.refract(n, fx(1.5));
    let sin_t = s / 1.5;
    let cos_t = (1.0 - sin_t * sin_t).sqrt();
    assert!((as_f64(r.x) - sin_t).abs() < 1e-8, "{}", as_f64(r.x));
    assert!((as_f64(r.y) + cos_t).abs() < 1e-8, "{}", as_f64(r.y));
    assert_eq!(r.z.raw, 0);
}

#[test]
fn refraction_bends_away_from_the_normal_on_leaving() {
    // from inside glass of index 1.5 at 30 degrees: sin t = 1.5 sin 30
    let d = vox(0.5, 0.75f64.sqrt(), 0.0);
    let n = vox(0.0, 1.0, 0.0);
    let r = d.refract(n, fx(1.5));
    let sin_t: f64 = 0.75;
    let cos_t = (1.0 - sin_t * sin_t).sqrt();
    assert!((as_f64(r.x) - sin_t).abs() < 1e-8, "{}", as_f64(r.x));
    assert!((as_f64(r.y) - cos_t).abs() < 1e-8, "{}", as_f64(r.y));
}

#[test]
fn total_internal_reflection_gives_the_reflection() {
    // from inside glass of index 1.5 at 60 degrees: 1.5 sin 60 > 1
    let d = vox(0.75f64.sqrt(), 0.5, 0.0);
    let n = vox(0.0, 1.0, 0.0);
    assert_eq!(d.refract(n, fx(1.5)), d.reflect(n));
    assert_eq!(d.refract(n, fx(1.5)), vox(0.75f64.sqrt(), -0.5, 0.0));
}
