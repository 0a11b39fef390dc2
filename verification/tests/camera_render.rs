use rtweekend::camera::{Camera, CameraBuilder};
use rtweekend::colour::write_colour;
use rtweekend::fixed::{Fixed, SCALE};
use rtweekend::hittable_list::HittableList;
use rtweekend::material::{Lambertian, Material};
use rtweekend::random::Rng;
use rtweekend::sphere::Sphere;
use rtweekend::trig::{degrees_to_radians, tan, PI_FIXED};
use rtweekend::vec3::Vec3;

fn fx(i: i64) -> Fixed {
    Fixed::from_int(i)
}

fn v3i(x: i64, y: i64, z: i64) -> Vec3 {
    Vec3::new(fx(x), fx(y), fx(z))
}

#[test]
fn degrees_to_radians_exact_at_half_turn() {
    assert_eq!(degrees_to_radians(fx(180)).m, PI_FIXED);
    assert_eq!(degrees_to_radians(fx(0)).m, 0);
}

#[test]
fn tan_of_eighth_turn_is_close_to_one() {
    let t = tan(degrees_to_radians(fx(45)));
    assert!((t.m - SCALE).abs() < 10_000, "tan 45deg = {}", t.m);
}

#[test]
fn quantization_of_channel_values() {
    // Linear 0.25 -> gamma 0.5 -> byte 128; 0 -> 0; 1 -> clamped 255.
    let quarter = Fixed::from_ratio(1, 4);
    let c = Vec3::new(quarter, Fixed::zero(), Fixed::one());
    assert_eq!(write_colour(c), b"128 0 255\n".to_vec());
}

#[test]
fn builder_defaults_and_basis_are_exact() {
    let cam = CameraBuilder::default().build();
    assert_eq!(cam.image_width, 100);
    assert_eq!(cam.image_height, 100);
    assert_eq!(cam.samples_per_pixel, 10);
    assert_eq!(cam.max_depth, 10);
    // Looking down the negative z axis with y up gives the canonical
    // basis, exactly.
    assert_eq!(cam.w, v3i(0, 0, 1));
    assert_eq!(cam.u, v3i(1, 0, 0));
    assert_eq!(cam.v, v3i(0, 1, 0));
    assert_eq!(cam.center, v3i(0, 0, 0));
    assert!(cam.is_well_formed());
}

#[test]
fn builder_viewport_height_tracks_fov_and_focus() {
    let mut b = CameraBuilder::default();
    b.image_width(200);
    b.image_height(100);
    b.vfov(fx(90));
    b.focus_dist(fx(1));
    let cam = b.build();
    // vfov 90 means tan(theta/2) is one: the pixel grid spans a
    // viewport two units tall and four wide, so one pixel step is
    // about 0.02 units.
    let expect = Fixed::from_ratio(2, 100).m;
    assert!((cam.pixel_delta_u.x.m - expect).abs() < 100_000);
    assert!((cam.pixel_delta_v.y.m + expect).abs() < 100_000);
    assert!(cam.is_well_formed());
}

#[test]
fn pinhole_rays_originate_at_the_camera_center() {
    let mut b = CameraBuilder::default();
    b.image_width(4);
    b.image_height(4);
    b.lookfrom(v3i(1, 2, 3));
    let cam = b.build();
    assert!(cam.is_well_formed());
    let mut rng = Rng::new(21);
    for i in 0..4 {
        let r = cam.get_ray(i, 2, &mut rng);
        assert_eq!(r.orig(), v3i(1, 2, 3));
    }
}

#[test]
fn ray_colour_on_empty_world_is_the_sky_gradient() {
    let world = HittableList::new();
    let mut rng = Rng::new(23);
    // Straight up: the gradient's blue end.
    let up = Camera::ray_colour(&rtweekend::ray::Ray::new(v3i(0, 0, 0), v3i(0, 1, 0)), 5, &world, &mut rng);
    assert_eq!(up.x, Fixed::from_ratio(1, 2));
    assert_eq!(up.y, Fixed { m: 3006477107 });
    assert_eq!(up.z, Fixed::one());
    // Straight down: the white end.
    let down = Camera::ray_colour(&rtweekend::ray::Ray::new(v3i(0, 0, 0), v3i(0, -1, 0)), 5, &world, &mut rng);
    assert_eq!(down.x, Fixed::one());
    assert_eq!(down.y, Fixed::one());
    assert_eq!(down.z, Fixed::one());
    // Depth zero renders black.
    let black = Camera::ray_colour(&rtweekend::ray::Ray::new(v3i(0, 0, 0), v3i(0, 1, 0)), 0, &world, &mut rng);
    assert_eq!(black, v3i(0, 0, 0));
}

#[test]
fn render_empty_world_emits_header_and_exact_sky_triplets() {
    // Two pixels, one sample, depth one, no objects: the image is the
    // sky gradient evaluated at each pixel's primary ray, and with a
    // fixed seed it is reproducible exactly.
    let mut b = CameraBuilder::default();
    b.image_width(2);
    b.image_height(1);
    b.samples_per_pixel(1);
    b.max_depth(1);
    let cam = b.build();
    assert!(cam.is_well_formed());

    let world = HittableList::new();
    let mut rng = Rng::new(42);
    let out = cam.render(&world, &mut rng);

    // Replay the identical draw sequence: per pixel, one jittered ray
    // (two draws) whose miss colour consumes no randomness.
    let mut expected: Vec<u8> = b"P3\n2 1\n255\n".to_vec();
    let mut rng2 = Rng::new(42);
    for i in 0..2 {
        let ray = cam.get_ray(i, 0, &mut rng2);
        let c = Camera::ray_colour(&ray, 1, &world, &mut rng2);
        // One sample and an averaging factor of one: the pixel is the
        // sample itself.
        let mut line = write_colour(c);
        expected.append(&mut line);
    }
    assert_eq!(out, expected);

    // Exactly two data lines follow the three header lines.
    let text = String::from_utf8(out).unwrap();
    let lines: Vec<&str> = text.lines().collect();
    assert_eq!(lines.len(), 5);
    assert_eq!(lines[0], "P3");
    assert_eq!(lines[1], "2 1");
    assert_eq!(lines[2], "255");
    for line in &lines[3..] {
        let parts: Vec<&str> = line.split(' ').collect();
        assert_eq!(parts.len(), 3);
        for p in parts {
            let v: i64 = p.parse().unwrap();
            assert!((0..=255).contains(&v));
        }
    }
}

#[test]
fn render_converges_to_hemisphere_average_over_white_ground() {
    // A white diffuse ground sphere filling the frame from just
    // above: every primary ray hits, every bounce goes to the sky, so
    // the pixel converges to the cosine-weighted hemisphere average
    // of the gradient: linear (7/12, 3/4, 1), bytes about
    // (195, 221, 255).
    let white = Lambertian::new(v3i(1, 1, 1));
    let mut world = HittableList::new();
    world.add(Sphere::new(v3i(0, -1000, 0), fx(1000), Material::Lambertian(white)));

    let mut b = CameraBuilder::default();
    b.image_width(1);
    b.image_height(1);
    b.samples_per_pixel(400);
    b.max_depth(8);
    b.vfov(fx(40));
    b.lookfrom(Vec3::new(Fixed::zero(), Fixed::from_ratio(1, 10), Fixed::zero()));
    b.lookat(v3i(0, 0, 0));
    b.vup(v3i(1, 0, 0));
    b.focus_dist(fx(1));
    let cam = b.build();
    assert!(cam.is_well_formed());

    let mut rng = Rng::new(1234);
    let out = cam.render(&world, &mut rng);
    let text = String::from_utf8(out).unwrap();
    let lines: Vec<&str> = text.lines().collect();
    assert_eq!(lines.len(), 4);
    let parts: Vec<i64> = lines[3].split(' ').map(|p| p.parse().unwrap()).collect();
    assert!((parts[0] - 195).abs() <= 6, "red byte {}", parts[0]);
    assert!((parts[1] - 221).abs() <= 5, "green byte {}", parts[1]);
    assert_eq!(parts[2], 255);
}
