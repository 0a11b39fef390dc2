use rtweekend::fixed::{Fixed, SCALE};
use rtweekend::hittable::HitRecord;
use rtweekend::material::{Dielectric, Lambertian, Material, Metal};
use rtweekend::random::Rng;
use rtweekend::ray::Ray;
use rtweekend::vec3::Vec3;

fn fx(i: i64) -> Fixed {
    Fixed::from_int(i)
}

fn v3i(x: i64, y: i64, z: i64) -> Vec3 {
    Vec3::new(fx(x), fx(y), fx(z))
}

fn white() -> Vec3 {
    v3i(1, 1, 1)
}

fn ground_record(mat: Material) -> HitRecord {
    // A hit on a horizontal surface at the origin, seen from above.
    HitRecord {
        t: fx(1),
        p: v3i(0, 0, 0),
        front_face: true,
        normal: v3i(0, 1, 0),
        mat,
    }
}

#[test]
fn lambertian_scatter_always_succeeds() {
    let mat = Lambertian::new(white());
    let rec = ground_record(Material::Lambertian(mat));
    let incoming = Ray::new(v3i(0, 1, 0), v3i(0, -1, 0));
    let mut rng = Rng::new(3);
    for _ in 0..64 {
        let sc = mat.scatter(&incoming, &rec, &mut rng).unwrap();
        assert_eq!(sc.attenuation, white());
        assert_eq!(sc.scattered.orig(), rec.p);
    }
}

#[test]
fn metal_scatter_mirror_with_no_fuzz() {
    let mat = Metal::new(white(), Fixed::zero());
    let rec = ground_record(Material::Metal(mat));
    // Incident at 45 degrees; the perturbation-free reflection leaves
    // the surface, so scattering succeeds and points away from it.
    let incoming = Ray::new(v3i(-1, 1, 0), v3i(1, -1, 0));
    let mut rng = Rng::new(5);
    let sc = mat.scatter(&incoming, &rec, &mut rng).unwrap();
    let d = sc.scattered.dir();
    assert!(d.y.m > 0);
    assert!(d.x.m > 0);
    assert_eq!(sc.attenuation, white());
}

#[test]
fn metal_scatter_absorbs_when_reflection_points_inside() {
    // A (nonphysical) incident direction along the outward normal
    // reflects to the inside of the surface, which must absorb the
    // ray whatever the random perturbation, since fuzz is zero.
    let mat = Metal::new(white(), Fixed::zero());
    let rec = ground_record(Material::Metal(mat));
    let incoming = Ray::new(v3i(0, -1, 0), v3i(0, 1, 0));
    let mut rng = Rng::new(7);
    assert!(mat.scatter(&incoming, &rec, &mut rng).is_none());
}

#[test]
fn metal_fuzz_is_clamped_into_unit_range() {
    assert_eq!(Metal::new(white(), fx(5)).fuzz, Fixed::one());
    assert_eq!(Metal::new(white(), fx(-5)).fuzz, Fixed::zero());
    assert_eq!(Metal::new(white(), Fixed::from_ratio(1, 4)).fuzz, Fixed::from_ratio(1, 4));
}

#[test]
fn dielectric_unit_index_head_on_passes_straight_through() {
    // Refraction index 1: no optical boundary; at normal incidence
    // the ray continues unchanged and nothing is absorbed.
    let mat = Dielectric::new(Fixed::one());
    let rec = ground_record(Material::Dielectric(mat));
    let incoming = Ray::new(v3i(0, 1, 0), v3i(0, -2, 0));
    let mut rng = Rng::new(9);
    for _ in 0..32 {
        let sc = mat.scatter(&incoming, &rec, &mut rng).unwrap();
        assert_eq!(sc.attenuation, white());
        // The scattered direction is the normalized incident one.
        assert_eq!(sc.scattered.dir(), v3i(0, -1, 0));
    }
}

#[test]
fn dielectric_unit_index_never_reflects_even_at_grazing_incidence() {
    // With no optical boundary the Schlick branch is off: even at
    // grazing incidence, where the reflectance approximation is close
    // to one, the ray keeps going downward through the surface.
    let mat = Dielectric::new(Fixed::one());
    let rec = ground_record(Material::Dielectric(mat));
    let incoming = Ray::new(v3i(-1000, 1, 0), v3i(1000, -1, 0));
    let mut rng = Rng::new(19);
    for _ in 0..32 {
        let sc = mat.scatter(&incoming, &rec, &mut rng).unwrap();
        assert!(sc.scattered.dir().y.m < 0);
    }
}

#[test]
fn dielectric_scatter_always_succeeds_with_white_attenuation() {
    let mat = Dielectric::new(Fixed::from_ratio(3, 2));
    let rec = ground_record(Material::Dielectric(mat));
    let incoming = Ray::new(v3i(-1, 1, 0), v3i(1, -1, 0));
    let mut rng = Rng::new(11);
    for _ in 0..64 {
        let sc = mat.scatter(&incoming, &rec, &mut rng).unwrap();
        assert_eq!(sc.attenuation, white());
        assert_eq!(sc.scattered.orig(), rec.p);
    }
}

#[test]
fn dielectric_total_internal_reflection_reflects() {
    // Exiting glass (back face, ratio 1.5) at a grazing angle: the
    // Snell condition fails, so the ray must reflect, whatever the
    // reflectance draw.
    let mat = Dielectric::new(Fixed::from_ratio(3, 2));
    let rec = HitRecord {
        t: fx(1),
        p: v3i(0, 0, 0),
        front_face: false,
        normal: v3i(0, 1, 0),
        mat: Material::Dielectric(mat),
    };
    let incoming = Ray::new(v3i(-4, 1, 0), v3i(4, -1, 0));
    let mut rng = Rng::new(13);
    for _ in 0..32 {
        let sc = mat.scatter(&incoming, &rec, &mut rng).unwrap();
        // Reflection flips the vertical component up.
        assert!(sc.scattered.dir().y.m > 0);
    }
}

#[test]
fn material_enum_dispatches_to_each_variant() {
    let mut rng = Rng::new(15);
    let lam = Material::Lambertian(Lambertian::new(white()));
    let rec = ground_record(lam);
    assert!(lam.scatter(&Ray::new(v3i(0, 1, 0), v3i(0, -1, 0)), &rec, &mut rng).is_some());

    let die = Material::Dielectric(Dielectric::new(Fixed::from_ratio(3, 2)));
    let rec2 = ground_record(die);
    assert!(die.scatter(&Ray::new(v3i(0, 1, 0), v3i(0, -1, 0)), &rec2, &mut rng).is_some());

    let met = Material::Metal(Metal::new(white(), Fixed::zero()));
    let rec3 = ground_record(met);
    assert!(met.scatter(&Ray::new(v3i(0, -1, 0), v3i(0, 1, 0)), &rec3, &mut rng).is_none());
}

#[test]
fn scatter_attenuation_matches_albedo() {
    let albedo = Vec3::new(
        Fixed::from_ratio(1, 2),
        Fixed::from_ratio(7, 10),
        Fixed::from_ratio(9, 10),
    );
    let mat = Lambertian::new(albedo);
    let rec = ground_record(Material::Lambertian(mat));
    let mut rng = Rng::new(17);
    let sc = mat.scatter(&Ray::new(v3i(0, 1, 0), v3i(0, -1, 0)), &rec, &mut rng).unwrap();
    assert_eq!(sc.attenuation, albedo);
}
