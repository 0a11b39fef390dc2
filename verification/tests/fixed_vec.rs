use rtweekend::fixed::{Fixed, SCALE};
use rtweekend::random::{random_double, random_double_in, Rng};
use rtweekend::vec3::{near_zero, random_in_unit_disk, random_unit_vector, reflect, refract, Vec3};

fn fx(i: i64) -> Fixed {
    Fixed::from_int(i)
}

fn v3i(x: i64, y: i64, z: i64) -> Vec3 {
    Vec3::new(fx(x), fx(y), fx(z))
}

#[test]
fn fixed_from_ratio_truncates_toward_zero() {
    assert_eq!(Fixed::from_ratio(1, 2).m, 2147483648);
    assert_eq!(Fixed::from_ratio(-1, 3).m, -1431655765);
    assert_eq!(Fixed::from_ratio(1, 3).m, 1431655765);
}

#[test]
fn fixed_arithmetic_exact_on_integers() {
    assert_eq!(fx(3).add(fx(4)), fx(7));
    assert_eq!(fx(3).sub(fx(4)), fx(-1));
    assert_eq!(fx(3).mul(fx(4)), fx(12));
    assert_eq!(fx(-12).div(fx(4)), fx(-3));
    assert_eq!(fx(-3).neg(), fx(3));
    assert_eq!(fx(-3).abs(), fx(3));
    assert_eq!(fx(5).min(fx(2)), fx(2));
    assert_eq!(fx(5).max(fx(2)), fx(5));
    assert_eq!(fx(7).clamp(fx(0), fx(5)), fx(5));
    assert_eq!(fx(-7).clamp(fx(0), fx(5)), fx(0));
}

#[test]
fn fixed_sqrt_exact_on_squares_and_bracketing_otherwise() {
    assert_eq!(fx(4).sqrt(), fx(2));
    assert_eq!(fx(0).sqrt(), fx(0));
    let r = fx(2).sqrt();
    // r is the floor of sqrt(2) in the representation.
    let target: i128 = 2 * SCALE * SCALE;
    assert!(r.m * r.m <= target);
    assert!((r.m + 1) * (r.m + 1) > target);
}

#[test]
fn vec3_dot_cross_norm() {
    let a = v3i(1, 2, 3);
    let b = v3i(4, 5, 6);
    assert_eq!(a.dot(b), fx(32));
    assert_eq!(v3i(1, 0, 0).cross(v3i(0, 1, 0)), v3i(0, 0, 1));
    assert_eq!(a.norm_squared(), fx(14));
    assert_eq!(a.add(b), v3i(5, 7, 9));
    assert_eq!(a.sub(b), v3i(-3, -3, -3));
    assert_eq!(a.neg(), v3i(-1, -2, -3));
    assert_eq!(a.scale(fx(2)), v3i(2, 4, 6));
    assert_eq!(a.component_mul(b), v3i(4, 10, 18));
    assert_eq!(a.div_by(fx(1)), a);
}

#[test]
fn vec3_normalize_three_four_five() {
    let v = v3i(3, 4, 0);
    let u = v.normalize();
    // 3/5 and 4/5 of the unit scale, truncated.
    assert_eq!(u.x.m, 2576980377);
    assert_eq!(u.y.m, 3435973836);
    assert_eq!(u.z.m, 0);
}

#[test]
fn vec3_normalize_axis_is_exact() {
    assert_eq!(v3i(0, 7, 0).normalize(), v3i(0, 1, 0));
}

#[test]
fn near_zero_threshold() {
    assert!(near_zero(Vec3::new(Fixed { m: 4 }, Fixed { m: -4 }, Fixed { m: 0 })));
    assert!(!near_zero(Vec3::new(Fixed { m: 43 }, Fixed { m: 0 }, Fixed { m: 0 })));
    assert!(!near_zero(v3i(1, 0, 0)));
}

#[test]
fn reflect_about_axis() {
    // v - 2 (v.n) n about the y axis flips the y component.
    let v = v3i(1, -1, 0);
    let n = v3i(0, 1, 0);
    assert_eq!(reflect(v, n), v3i(1, 1, 0));
}

#[test]
fn reflect_is_involution_about_unit_axis() {
    let v = v3i(3, -7, 2);
    let n = v3i(0, 1, 0);
    assert_eq!(reflect(reflect(v, n), n), v);
    let n2 = v3i(1, 0, 0);
    assert_eq!(reflect(reflect(v, n2), n2), v);
}

#[test]
fn refract_straight_through_at_unit_ratio() {
    // Head-on incidence with ratio one: the direction is unchanged.
    let uv = v3i(0, -1, 0);
    let n = v3i(0, 1, 0);
    assert_eq!(refract(uv, n, Fixed::one()), uv);
}

#[test]
fn refract_bends_toward_normal_entering_dense_medium() {
    // Entering glass (ratio 1/1.5 < 1) at 45 degrees: the refracted
    // direction is closer to the inward normal than the incident one.
    let uv = v3i(1, -1, 0).normalize();
    let n = v3i(0, 1, 0);
    let ratio = Fixed::one().div(Fixed::from_ratio(3, 2));
    let r = refract(uv, n, ratio);
    // Unit-ish result whose sideways component shrank.
    assert!(r.x.m > 0 && r.x.m < uv.x.m);
    assert!(r.y.m < 0);
}

#[test]
fn random_double_is_in_unit_range_and_reproducible() {
    let mut a = Rng::new(7);
    let mut b = Rng::new(7);
    let mut last = Fixed::zero();
    let mut varied = false;
    for _ in 0..32 {
        let x = random_double(&mut a);
        let y = random_double(&mut b);
        assert_eq!(x, y);
        assert!(0 <= x.m && x.m < SCALE);
        if x != last {
            varied = true;
        }
        last = x;
    }
    assert!(varied);
}

#[test]
fn random_double_in_stays_in_range() {
    let mut rng = Rng::new(11);
    for _ in 0..64 {
        let x = random_double_in(fx(-1), fx(1), &mut rng);
        // The range is half-open: at least the minimum, strictly
        // below the maximum.
        assert!(-SCALE <= x.m && x.m < SCALE);
    }
}

#[test]
fn random_unit_vector_has_unit_length_within_tolerance() {
    let mut rng = Rng::new(13);
    for _ in 0..16 {
        let u = random_unit_vector(&mut rng);
        let n2 = u.norm_squared();
        assert!((n2.m - SCALE).abs() < 10_000_000, "norm2 {}", n2.m);
    }
}

#[test]
fn random_in_unit_disk_is_flat_and_inside() {
    let mut rng = Rng::new(17);
    for _ in 0..16 {
        let p = random_in_unit_disk(&mut rng);
        assert_eq!(p.z.m, 0);
        assert!(p.norm_squared().m < SCALE);
    }
}
