use rtweekend::fixed::Fixed;
use rtweekend::hittable::HitRecord;
use rtweekend::hittable_list::HittableList;
use rtweekend::interval::Interval;
use rtweekend::material::{Lambertian, Material};
use rtweekend::ray::Ray;
use rtweekend::sphere::Sphere;
use rtweekend::vec3::Vec3;

fn fx(i: i64) -> Fixed {
    Fixed::from_int(i)
}

fn v3i(x: i64, y: i64, z: i64) -> Vec3 {
    Vec3::new(fx(x), fx(y), fx(z))
}

fn grey() -> Material {
    Material::Lambertian(Lambertian::new(Vec3::new(
        Fixed::from_ratio(1, 2),
        Fixed::from_ratio(1, 2),
        Fixed::from_ratio(1, 2),
    )))
}

#[test]
fn interval_contains_is_closed_at_both_ends() {
    let i = Interval::new(fx(1), fx(2));
    assert!(i.contains(fx(1)));
    assert!(i.contains(fx(2)));
    assert!(i.contains(Fixed::from_ratio(3, 2)));
    assert!(!i.contains(Fixed { m: fx(1).m - 1 }));
    assert!(!i.contains(Fixed { m: fx(2).m + 1 }));
}

#[test]
fn interval_surrounds_is_open_at_both_ends() {
    let i = Interval::new(fx(1), fx(2));
    assert!(!i.surrounds(fx(1)));
    assert!(!i.surrounds(fx(2)));
    assert!(i.surrounds(Fixed::from_ratio(3, 2)));
}

#[test]
fn interval_clamp() {
    let i = Interval::new(fx(0), fx(1));
    assert_eq!(i.clamp(fx(5)), fx(1));
    assert_eq!(i.clamp(fx(-5)), fx(0));
}

#[test]
fn sphere_head_on_hit_at_distance_minus_radius() {
    let s = Sphere::new(v3i(0, 0, -2), fx(1), grey());
    let r = Ray::new(v3i(0, 0, 0), v3i(0, 0, -1));
    let rec = s.hit(&r, Interval::new(Fixed::from_ratio(1, 1000), fx(100))).unwrap();
    assert_eq!(rec.t, fx(1));
    assert_eq!(rec.p, v3i(0, 0, -1));
    assert!(rec.front_face);
    assert_eq!(rec.normal, v3i(0, 0, 1));
}

#[test]
fn sphere_hit_prefers_near_root_then_far_root() {
    let s = Sphere::new(v3i(0, 0, -2), fx(1), grey());
    let r = Ray::new(v3i(0, 0, 0), v3i(0, 0, -1));
    // With the near root (t = 1) excluded, the far root (t = 3) is
    // returned; its normal faces backwards along the ray.
    let rec = s.hit(&r, Interval::new(fx(2), fx(100))).unwrap();
    assert_eq!(rec.t, fx(3));
    assert!(!rec.front_face);
    assert_eq!(rec.normal, v3i(0, 0, 1));
}

#[test]
fn sphere_boundary_hit_at_exact_interval_min() {
    // The closed interval accepts a root exactly at its lower bound.
    let s = Sphere::new(v3i(0, 0, -2), fx(1), grey());
    let r = Ray::new(v3i(0, 0, 0), v3i(0, 0, -1));
    let rec = s.hit(&r, Interval::new(fx(1), fx(100))).unwrap();
    assert_eq!(rec.t, fx(1));
}

#[test]
fn sphere_miss_perpendicular_distance_exceeds_radius() {
    let s = Sphere::new(v3i(0, 0, -2), fx(1), grey());
    let r = Ray::new(v3i(0, 0, 0), v3i(0, 1, 0));
    assert!(s.hit(&r, Interval::new(Fixed::from_ratio(1, 1000), fx(100))).is_none());
    let r2 = Ray::new(v3i(0, 2, 0), v3i(0, 0, -1));
    assert!(s.hit(&r2, Interval::new(Fixed::from_ratio(1, 1000), fx(100))).is_none());
}

#[test]
fn sphere_behind_origin_is_rejected() {
    let s = Sphere::new(v3i(0, 0, 2), fx(1), grey());
    let r = Ray::new(v3i(0, 0, 0), v3i(0, 0, -1));
    assert!(s.hit(&r, Interval::new(Fixed::from_ratio(1, 1000), fx(100))).is_none());
}

#[test]
fn sphere_negative_radius_clamps_to_zero_and_never_hits() {
    let s = Sphere::new(v3i(0, 0, -2), fx(-3), grey());
    assert_eq!(s.radius, Fixed::zero());
    let r = Ray::new(v3i(0, 0, 0), v3i(0, 0, -1));
    assert!(s.hit(&r, Interval::new(Fixed::from_ratio(1, 1000), fx(100))).is_none());
}

#[test]
fn hit_record_front_face_iff_direction_opposes_outward_normal() {
    let incoming = Ray::new(v3i(0, 0, 0), v3i(0, 0, -1));
    let outward = v3i(0, 0, 1);
    let rec = HitRecord::new(fx(1), v3i(0, 0, -1), &incoming, outward, grey());
    assert!(rec.front_face);
    assert_eq!(rec.normal, outward);

    // Leaving the surface: the outward normal points along the ray,
    // so the record flips it.
    let outward_back = v3i(0, 0, -1);
    let rec2 = HitRecord::new(fx(1), v3i(0, 0, -1), &incoming, outward_back, grey());
    assert!(!rec2.front_face);
    assert_eq!(rec2.normal, v3i(0, 0, 1));
}

#[test]
fn list_returns_nearest_hit_regardless_of_order() {
    let near = Sphere::new(v3i(0, 0, -2), fx(1), grey());
    let far = Sphere::new(v3i(0, 0, -6), fx(1), grey());
    let r = Ray::new(v3i(0, 0, 0), v3i(0, 0, -1));
    let iv = Interval::new(Fixed::from_ratio(1, 1000), fx(1000));

    let mut world = HittableList::new();
    world.add(far);
    world.add(near);
    assert_eq!(world.hit(&r, iv).unwrap().t, fx(1));

    let mut world2 = HittableList::new();
    world2.add(near);
    world2.add(far);
    assert_eq!(world2.hit(&r, iv).unwrap().t, fx(1));
}

#[test]
fn list_tie_keeps_first_listed_member() {
    // Two coincident spheres with different materials: the hit
    // parameters tie exactly, and only a strictly closer hit may
    // replace the current best, so the first-listed member's
    // material is returned, whichever way the tie is listed.
    let red = Material::Lambertian(Lambertian::new(Vec3::new(
        Fixed::one(),
        Fixed::zero(),
        Fixed::zero(),
    )));
    let blue = Material::Lambertian(Lambertian::new(Vec3::new(
        Fixed::zero(),
        Fixed::zero(),
        Fixed::one(),
    )));
    let a = Sphere::new(v3i(0, 0, -2), fx(1), red);
    let b = Sphere::new(v3i(0, 0, -2), fx(1), blue);
    let r = Ray::new(v3i(0, 0, 0), v3i(0, 0, -1));
    let iv = Interval::new(Fixed::from_ratio(1, 1000), fx(1000));

    let mut world = HittableList::new();
    world.add(a);
    world.add(b);
    assert_eq!(world.hit(&r, iv).unwrap().mat, red);

    let mut world2 = HittableList::new();
    world2.add(b);
    world2.add(a);
    assert_eq!(world2.hit(&r, iv).unwrap().mat, blue);
}

#[test]
fn list_empty_never_hits() {
    let world = HittableList::new();
    let r = Ray::new(v3i(0, 0, 0), v3i(0, 0, -1));
    assert!(world.hit(&r, Interval::new(fx(0), fx(1000))).is_none());
}

#[test]
fn ray_at_evaluates_origin_plus_scaled_direction() {
    let r = Ray::new(v3i(1, 2, 3), v3i(0, 0, -2));
    assert_eq!(r.at(fx(2)), v3i(1, 2, -1));
    assert_eq!(r.orig(), v3i(1, 2, 3));
    assert_eq!(r.dir(), v3i(0, 0, -2));
}
