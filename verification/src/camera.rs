//! The camera and the integrator: viewport geometry derived once from
//! user parameters, per-pixel jittered ray generation with optional
//! defocus blur, and the depth-bounded recursive colour estimator.

use vstd::prelude::*;
use crate::colour::{colour_line, write_colour};
use crate::fixed::{absi, clamp_m, div_m, mul_m, tdiv, Fixed, SCALE};
use crate::hittable::HitRecord;
use crate::hittable_list::{list_hit_m, list_wf, HittableList};
use crate::material::{scatter_outcome, Scattering};
use crate::sphere::Sphere;
use crate::interval::Interval;
use crate::random::{random_double, Rng};
use crate::ray::{ray_wf, Ray, T_LIMIT};
use crate::trig::{deg2rad_m, tan_m};
use crate::vec3::{unit_m, v3_of, vec_in, cross_m, Vec3};

verus! {

/// Half, in the representation.
pub const HALF: i128 = 2147483648;

/// The parameters a camera is built from; unset ones take defaults.
#[derive(Clone, Copy, Debug, PartialEq, Eq, Structural, Default)]
pub struct CameraBuilder {
    pub image_width: Option<i32>,
    pub image_height: Option<i32>,
    pub samples_per_pixel: Option<i32>,
    pub max_depth: Option<i32>,
    pub vfov: Option<Fixed>,
    pub lookfrom: Option<Vec3>,
    pub lookat: Option<Vec3>,
    pub vup: Option<Vec3>,
    pub defocus_angle: Option<Fixed>,
    pub focus_dist: Option<Fixed>,
}

/// The camera's render-time geometry, computed once by `build`.
#[derive(Clone, Copy, Debug, PartialEq, Eq, Structural)]
pub struct Camera {
    pub image_width: i32,
    pub image_height: i32,
    pub samples_per_pixel: i32,
    pub max_depth: i32,
    pub vfov: Fixed,
    pub defocus_angle: Fixed,
    pub focus_dist: Fixed,
    pub pixel_samples_scale: Fixed,
    pub center: Vec3,
    pub pixel00_loc: Vec3,
    pub pixel_delta_u: Vec3,
    pub pixel_delta_v: Vec3,
    pub u: Vec3,
    pub v: Vec3,
    pub w: Vec3,
    pub defocus_disk_u: Vec3,
    pub defocus_disk_v: Vec3,
}

/// The default for an unset builder field.
pub open spec fn or_default<T>(o: Option<T>, d: T) -> T {
    match o {
        Some(v) => v,
        None => d,
    }
}

/// Componentwise sum of mantissa triples.
pub open spec fn add3(a: (int, int, int), b: (int, int, int)) -> (int, int, int) {
    (a.0 + b.0, a.1 + b.1, a.2 + b.2)
}

/// Truncated scalar multiple of a mantissa triple.
pub open spec fn scale3(s: int, v: Vec3) -> (int, int, int) {
    (
        tdiv(s * v.x.m, SCALE as int),
        tdiv(s * v.y.m, SCALE as int),
        tdiv(s * v.z.m, SCALE as int),
    )
}

/// The averaging factor: one over the sample count.
pub open spec fn psc_m(spp: int) -> int {
    div_m(SCALE as int, spp * SCALE)
}

/// The viewport height: `2 * tan(theta/2) * focus_dist`, with `theta`
/// the field of view in radians.
#[verifier::opaque]
pub open spec fn viewport_h_m(vfov_m: int, focus_m: int) -> int {
    mul_m(mul_m(2 * SCALE as int, tan_m(div_m(deg2rad_m(vfov_m), 2 * SCALE as int))), focus_m)
}

/// The width/height aspect ratio of the image.
pub open spec fn ratio_m(w: int, h: int) -> int {
    div_m(w * SCALE, h * SCALE)
}

/// The basis vector pointing from the scene toward the eye.
#[verifier::opaque]
pub open spec fn basis_w_m(lookfrom: Vec3, lookat: Vec3) -> Vec3 {
    v3_of(
        unit_m(
            v3_of(
                (
                    lookfrom.x.m - lookat.x.m,
                    lookfrom.y.m - lookat.y.m,
                    lookfrom.z.m - lookat.z.m,
                ),
            ),
        ),
    )
}

/// The basis vector pointing to the camera's right.
#[verifier::opaque]
pub open spec fn basis_u_m(vup: Vec3, w: Vec3) -> Vec3 {
    v3_of(unit_m(v3_of(cross_m(vup, w))))
}

/// The basis vector pointing up in the camera's frame.
#[verifier::opaque]
pub open spec fn basis_v_m(w: Vec3, u: Vec3) -> Vec3 {
    v3_of(unit_m(v3_of(cross_m(w, u))))
}

/// The defocus disk radius: `focus_dist * tan(defocus_angle / 2)`.
#[verifier::opaque]
pub open spec fn defocus_radius_m(angle_m: int, focus_m: int) -> int {
    mul_m(focus_m, tan_m(deg2rad_m(div_m(angle_m, 2 * SCALE as int))))
}

/// The camera that `build` derives from the builder's parameters:
/// image geometry, orthonormal basis, viewport spans, pixel deltas and
/// the defocus disk, each step in the camera's fixed-point arithmetic.
pub open spec fn build_m(b: CameraBuilder) -> Camera {
    let s = SCALE as int;
    let image_width = or_default(b.image_width, 100);
    let image_height = or_default(b.image_height, 100);
    let samples_per_pixel = or_default(b.samples_per_pixel, 10);
    let max_depth = or_default(b.max_depth, 10);
    let vfov = or_default(b.vfov, Fixed { m: (90 * SCALE) as i128 });
    let lookfrom = or_default(b.lookfrom, v3_of((0, 0, 0)));
    let lookat = or_default(b.lookat, v3_of((0, 0, -s)));
    let vup = or_default(b.vup, v3_of((0, s, 0)));
    let defocus_angle = or_default(b.defocus_angle, Fixed { m: 0 });
    let focus_dist = or_default(b.focus_dist, Fixed { m: (10 * SCALE) as i128 });
    let viewport_height = viewport_h_m(vfov.m as int, focus_dist.m as int);
    let viewport_width = mul_m(viewport_height, ratio_m(image_width as int, image_height as int));
    let w = basis_w_m(lookfrom, lookat);
    let u = basis_u_m(vup, w);
    let v = basis_v_m(w, u);
    let viewport_u = v3_of(scale3(viewport_width, u));
    let viewport_v = v3_of(scale3(-viewport_height, v));
    let pixel_delta_u = v3_of(
        (
            div_m(viewport_u.x.m as int, image_width * s),
            div_m(viewport_u.y.m as int, image_width * s),
            div_m(viewport_u.z.m as int, image_width * s),
        ),
    );
    let pixel_delta_v = v3_of(
        (
            div_m(viewport_v.x.m as int, image_height * s),
            div_m(viewport_v.y.m as int, image_height * s),
            div_m(viewport_v.z.m as int, image_height * s),
        ),
    );
    let focus_w = v3_of(scale3(focus_dist.m as int, w));
    let vsum = v3_of(
        add3(
            (viewport_u.x.m as int, viewport_u.y.m as int, viewport_u.z.m as int),
            (viewport_v.x.m as int, viewport_v.y.m as int, viewport_v.z.m as int),
        ),
    );
    let half_vsum = v3_of(scale3(HALF as int, vsum));
    let viewport_upper_left = v3_of(
        (
            lookfrom.x.m - focus_w.x.m - half_vsum.x.m,
            lookfrom.y.m - focus_w.y.m - half_vsum.y.m,
            lookfrom.z.m - focus_w.z.m - half_vsum.z.m,
        ),
    );
    let dsum = v3_of(
        add3(
            (pixel_delta_u.x.m as int, pixel_delta_u.y.m as int, pixel_delta_u.z.m as int),
            (pixel_delta_v.x.m as int, pixel_delta_v.y.m as int, pixel_delta_v.z.m as int),
        ),
    );
    let half_dsum = v3_of(scale3(HALF as int, dsum));
    let pixel00_loc = v3_of(
        (
            viewport_upper_left.x.m + half_dsum.x.m,
            viewport_upper_left.y.m + half_dsum.y.m,
            viewport_upper_left.z.m + half_dsum.z.m,
        ),
    );
    let defocus_radius = defocus_radius_m(defocus_angle.m as int, focus_dist.m as int);
    let defocus_disk_u = v3_of(scale3(defocus_radius, u));
    let defocus_disk_v = v3_of(scale3(defocus_radius, v));
    Camera {
        image_width,
        image_height,
        samples_per_pixel,
        max_depth,
        vfov,
        defocus_angle,
        focus_dist,
        pixel_samples_scale: Fixed { m: psc_m(samples_per_pixel as int) as i128 },
        center: lookfrom,
        pixel00_loc,
        pixel_delta_u,
        pixel_delta_v,
        u,
        v,
        w,
        defocus_disk_u,
        defocus_disk_v,
    }
}

/// The viewport height for a field of view and focus distance.
fn viewport_height_of(vfov: Fixed, focus_dist: Fixed) -> (r: Fixed)
    requires
        0 < vfov.m < 180 * SCALE,
        0 < focus_dist.m <= 1024 * SCALE,
    ensures
        r.m == viewport_h_m(vfov.m as int, focus_dist.m as int),
        -(70368744177664 * SCALE) <= r.m <= 70368744177664 * SCALE,
{
    let theta = crate::trig::degrees_to_radians(vfov);
    let two = Fixed::from_int(2);
    proof {
        assert((2 * SCALE as int) * (2 * SCALE as int) == 4 * SCALE * SCALE) by (nonlinear_arith);
        crate::fixed::lemma_tdiv_bound(theta.m * SCALE, 2 * SCALE as int, 2 * SCALE as int);
    }
    let half_theta = theta.div(two);
    let h = crate::trig::tan(half_theta);
    proof {
        crate::fixed::lemma_scaled_prod(two.m as int, h.m as int, 2, 34359738368);
    }
    let vh0 = two.mul(h);
    proof {
        crate::fixed::lemma_scaled_prod(vh0.m as int, focus_dist.m as int, 68719476736, 1024);
        reveal(viewport_h_m);
    }
    vh0.mul(focus_dist)
}

/// The orthonormal basis `(u, v, w)` of the camera's frame.
fn basis_of(lookfrom: Vec3, lookat: Vec3, vup: Vec3) -> (r: (Vec3, Vec3, Vec3))
    requires
        vec_in(lookfrom, 1024 * SCALE as int),
        vec_in(lookat, 1024 * SCALE as int),
        vec_in(vup, 1024 * SCALE as int),
    ensures
        r.2 == basis_w_m(lookfrom, lookat),
        r.0 == basis_u_m(vup, r.2),
        r.1 == basis_v_m(r.2, r.0),
        vec_in(r.0, 2 * SCALE as int),
        vec_in(r.1, 2 * SCALE as int),
        vec_in(r.2, 2 * SCALE as int),
{
    let w = lookfrom.sub(lookat).normalize();
    proof {
        crate::vec3::lemma_cross_m_bound(vup, w, 1024, 2);
        reveal(basis_w_m);
    }
    let u = vup.cross(w).normalize();
    proof {
        crate::vec3::lemma_cross_m_bound(w, u, 2, 2);
        reveal(basis_u_m);
    }
    let v = w.cross(u).normalize();
    proof {
        reveal(basis_v_m);
    }
    (u, v, w)
}

/// The defocus disk radius for an aperture angle and focus distance.
fn defocus_radius_of(defocus_angle: Fixed, focus_dist: Fixed) -> (r: Fixed)
    requires
        0 <= defocus_angle.m < 180 * SCALE,
        0 < focus_dist.m <= 1024 * SCALE,
    ensures
        r.m == defocus_radius_m(defocus_angle.m as int, focus_dist.m as int),
        -(35184372088832 * SCALE) <= r.m <= 35184372088832 * SCALE,
{
    let two = Fixed::from_int(2);
    proof {
        assert((90 * SCALE as int) * (2 * SCALE as int) == 180 * SCALE * SCALE)
            by (nonlinear_arith);
        crate::fixed::lemma_tdiv_bound(
            defocus_angle.m * SCALE,
            2 * SCALE as int,
            90 * SCALE as int,
        );
    }
    let half_defocus = defocus_angle.div(two);
    let defocus_rad = crate::trig::degrees_to_radians(half_defocus);
    let dtan = crate::trig::tan(defocus_rad);
    proof {
        crate::fixed::lemma_scaled_prod(focus_dist.m as int, dtan.m as int, 1024, 34359738368);
        reveal(defocus_radius_m);
    }
    focus_dist.mul(dtan)
}

/// The bounds render-time geometry must respect so every per-pixel
/// computation stays within the representation; checked at run time by
/// `is_well_formed`.
pub open spec fn camera_wf(c: Camera) -> bool {
    &&& 1 <= c.image_width <= 10000
    &&& 1 <= c.image_height <= 10000
    &&& 1 <= c.samples_per_pixel <= 100000
    &&& 0 <= c.pixel_samples_scale.m <= SCALE
    &&& c.pixel_samples_scale.m * c.samples_per_pixel <= SCALE
    &&& vec_in(c.center, 4398046511104)
    &&& vec_in(c.pixel00_loc, 4398046511104)
    &&& vec_in(c.pixel_delta_u, 137438953472)
    &&& vec_in(c.pixel_delta_v, 137438953472)
    &&& -4398046511104 <= c.image_width * c.pixel_delta_u.x.m <= 4398046511104
    &&& -4398046511104 <= c.image_width * c.pixel_delta_u.y.m <= 4398046511104
    &&& -4398046511104 <= c.image_width * c.pixel_delta_u.z.m <= 4398046511104
    &&& -4398046511104 <= c.image_height * c.pixel_delta_v.x.m <= 4398046511104
    &&& -4398046511104 <= c.image_height * c.pixel_delta_v.y.m <= 4398046511104
    &&& -4398046511104 <= c.image_height * c.pixel_delta_v.z.m <= 4398046511104
    &&& vec_in(c.defocus_disk_u, 137438953472)
    &&& vec_in(c.defocus_disk_v, 137438953472)
}

impl CameraBuilder {
    /// Sets the output image width in pixels.
    pub fn image_width(&mut self, image_width: i32)
        ensures
            *final(self) == (CameraBuilder { image_width: Some(image_width), ..*old(self) }),
    {
        self.image_width = Some(image_width);
    }

    /// Sets the output image height in pixels.
    pub fn image_height(&mut self, image_height: i32)
        ensures
            *final(self) == (CameraBuilder { image_height: Some(image_height), ..*old(self) }),
    {
        self.image_height = Some(image_height);
    }

    /// Sets the number of jittered samples averaged per pixel.
    pub fn samples_per_pixel(&mut self, samples_per_pixel: i32)
        ensures
            *final(self) == (CameraBuilder {
                samples_per_pixel: Some(samples_per_pixel),
                ..*old(self)
            }),
    {
        self.samples_per_pixel = Some(samples_per_pixel);
    }

    /// Sets the recursion bound of the estimator.
    pub fn max_depth(&mut self, max_depth: i32)
        ensures
            *final(self) == (CameraBuilder { max_depth: Some(max_depth), ..*old(self) }),
    {
        self.max_depth = Some(max_depth);
    }

    /// Sets the vertical field of view, in degrees.
    pub fn vfov(&mut self, vfov: Fixed)
        ensures
            *final(self) == (CameraBuilder { vfov: Some(vfov), ..*old(self) }),
    {
        self.vfov = Some(vfov);
    }

    /// Sets the eye point.
    pub fn lookfrom(&mut self, lookfrom: Vec3)
        ensures
            *final(self) == (CameraBuilder { lookfrom: Some(lookfrom), ..*old(self) }),
    {
        self.lookfrom = Some(lookfrom);
    }

    /// Sets the point looked at.
    pub fn lookat(&mut self, lookat: Vec3)
        ensures
            *final(self) == (CameraBuilder { lookat: Some(lookat), ..*old(self) }),
    {
        self.lookat = Some(lookat);
    }

    /// Sets the camera-relative up direction.
    pub fn vup(&mut self, vup: Vec3)
        ensures
            *final(self) == (CameraBuilder { vup: Some(vup), ..*old(self) }),
    {
        self.vup = Some(vup);
    }

    /// Sets the aperture cone angle, in degrees.
    pub fn defocus_angle(&mut self, defocus_angle: Fixed)
        ensures
            *final(self) == (CameraBuilder { defocus_angle: Some(defocus_angle), ..*old(self) }),
    {
        self.defocus_angle = Some(defocus_angle);
    }

    /// Sets the focus distance.
    pub fn focus_dist(&mut self, focus_dist: Fixed)
        ensures
            *final(self) == (CameraBuilder { focus_dist: Some(focus_dist), ..*old(self) }),
    {
        self.focus_dist = Some(focus_dist);
    }

    /// Derives the camera's render-time geometry from the parameters,
    /// filling defaults for the unset ones.
    #[verifier::rlimit(100)]
    pub fn build(&self) -> (r: Camera)
        requires
            match self.image_width {
                Some(w) => 1 <= w <= 10000,
                None => true,
            },
            match self.image_height {
                Some(h) => 1 <= h <= 10000,
                None => true,
            },
            match self.samples_per_pixel {
                Some(n) => 1 <= n <= 100000,
                None => true,
            },
            match self.vfov {
                Some(v) => 0 < v.m < 180 * SCALE,
                None => true,
            },
            match self.lookfrom {
                Some(v) => vec_in(v, 1024 * SCALE as int),
                None => true,
            },
            match self.lookat {
                Some(v) => vec_in(v, 1024 * SCALE as int),
                None => true,
            },
            match self.vup {
                Some(v) => vec_in(v, 1024 * SCALE as int),
                None => true,
            },
            match self.defocus_angle {
                Some(a) => 0 <= a.m < 180 * SCALE,
                None => true,
            },
            match self.focus_dist {
                Some(f) => 0 < f.m <= 1024 * SCALE,
                None => true,
            },
        ensures
            r == build_m(*self),
    {
        let image_width = self.image_width.unwrap_or(100);
        let image_height = self.image_height.unwrap_or(100);
        let samples_per_pixel = self.samples_per_pixel.unwrap_or(10);
        let max_depth = self.max_depth.unwrap_or(10);
        let vfov = self.vfov.unwrap_or(Fixed::from_int(90));
        let lookfrom = self.lookfrom.unwrap_or(Vec3::zero());
        let lookat = self.lookat.unwrap_or(
            Vec3::new(Fixed::zero(), Fixed::zero(), Fixed::from_int(-1)),
        );
        let vup = self.vup.unwrap_or(Vec3::new(Fixed::zero(), Fixed::one(), Fixed::zero()));
        let defocus_angle = self.defocus_angle.unwrap_or(Fixed::zero());
        let focus_dist = self.focus_dist.unwrap_or(Fixed::from_int(10));

        let pixel_samples_scale = Fixed::one().div(Fixed::from_int(samples_per_pixel as i64));
        let center = lookfrom;

        let viewport_height = viewport_height_of(vfov, focus_dist);
        let wf = Fixed::from_int(image_width as i64);
        let hf = Fixed::from_int(image_height as i64);
        proof {
            assert(-((10000 * SCALE as int) * hf.m) <= wf.m * SCALE <= (10000 * SCALE as int)
                * hf.m) by (nonlinear_arith)
                requires
                    wf.m == image_width * SCALE,
                    hf.m == image_height * SCALE,
                    1 <= image_width <= 10000,
                    1 <= image_height <= 10000,
                    SCALE == 4294967296,
            ;
            crate::fixed::lemma_tdiv_bound(wf.m * SCALE, hf.m as int, 10000 * SCALE as int);
        }
        let ratio = wf.div(hf);
        proof {
            crate::fixed::lemma_scaled_prod(
                viewport_height.m as int,
                ratio.m as int,
                70368744177664,
                10000,
            );
        }
        let viewport_width = viewport_height.mul(ratio);

        let basis = basis_of(lookfrom, lookat, vup);
        let u = basis.0;
        let v = basis.1;
        let w = basis.2;

        let viewport_u = scale_checked(u, viewport_width, Ghost(703687441776640000), Ghost(2));
        let viewport_v = scale_checked(
            v,
            viewport_height.neg(),
            Ghost(70368744177664),
            Ghost(2),
        );

        proof {
            crate::fixed::lemma_div_m_shrinks(viewport_u.x.m as int, wf.m as int);
            crate::fixed::lemma_div_m_shrinks(viewport_u.y.m as int, wf.m as int);
            crate::fixed::lemma_div_m_shrinks(viewport_u.z.m as int, wf.m as int);
            crate::fixed::lemma_div_m_shrinks(viewport_v.x.m as int, hf.m as int);
            crate::fixed::lemma_div_m_shrinks(viewport_v.y.m as int, hf.m as int);
            crate::fixed::lemma_div_m_shrinks(viewport_v.z.m as int, hf.m as int);
        }
        let pixel_delta_u = viewport_u.div_by(wf);
        let pixel_delta_v = viewport_v.div_by(hf);

        let focus_w = scale_checked(w, focus_dist, Ghost(1024), Ghost(2));
        let vsum = viewport_u.add(viewport_v);
        let half = Fixed { m: HALF };
        let half_vsum = scale_checked(vsum, half, Ghost(1), Ghost(1500000000000000000));
        let viewport_upper_left = center.sub(focus_w).sub(half_vsum);
        let dsum = pixel_delta_u.add(pixel_delta_v);
        let half_dsum = scale_checked(dsum, half, Ghost(1), Ghost(1500000000000000000));
        let pixel00_loc = viewport_upper_left.add(half_dsum);

        let defocus_radius = defocus_radius_of(defocus_angle, focus_dist);
        let defocus_disk_u = scale_checked(u, defocus_radius, Ghost(35184372088832), Ghost(2));
        let defocus_disk_v = scale_checked(v, defocus_radius, Ghost(35184372088832), Ghost(2));

        Camera {
            image_width,
            image_height,
            samples_per_pixel,
            max_depth,
            vfov,
            defocus_angle,
            focus_dist,
            pixel_samples_scale,
            center,
            pixel00_loc,
            pixel_delta_u,
            pixel_delta_v,
            u,
            v,
            w,
            defocus_disk_u,
            defocus_disk_v,
        }
    }
}

/// The lower end of the intersection interval the integrator queries:
/// one thousandth, which keeps a scattered ray from immediately
/// re-hitting its own origin surface.
pub const ACNE_MIN: i128 = 4294967;

/// A jitter offset drawn from the half-open unit square around zero.
pub open spec fn sample_ok(ox: int, oy: int) -> bool {
    &&& -HALF <= ox < HALF
    &&& -HALF <= oy < HALF
}

/// A defocus sample drawn from the unit disk.
pub open spec fn disk_ok(dx: int, dy: int) -> bool {
    &&& -SCALE <= dx <= SCALE
    &&& -SCALE <= dy <= SCALE
    &&& tdiv(dx * dx + dy * dy, SCALE as int) < SCALE
}

/// The point on the defocus disk for the drawn pair `(dx, dy)`.
pub open spec fn disk_sample_m(c: Camera, dx: int, dy: int) -> Vec3 {
    let s = SCALE as int;
    v3_of(
        (
            c.center.x.m + tdiv(dx * c.defocus_disk_u.x.m, s) + tdiv(dy * c.defocus_disk_v.x.m, s),
            c.center.y.m + tdiv(dx * c.defocus_disk_u.y.m, s) + tdiv(dy * c.defocus_disk_v.y.m, s),
            c.center.z.m + tdiv(dx * c.defocus_disk_u.z.m, s) + tdiv(dy * c.defocus_disk_v.z.m, s),
        ),
    )
}

/// The primary ray for pixel `(i, j)` once the jitter offsets and the
/// defocus draw are fixed: its origin is the camera center (or the
/// defocus-disk point when the aperture is open), its direction runs
/// from the origin to the jittered sample point on the viewport.
pub open spec fn get_ray_m(c: Camera, i: int, j: int, ox: int, oy: int, dx: int, dy: int) -> Ray {
    let s = SCALE as int;
    let px = i * s + ox;
    let py = j * s + oy;
    let t1 = scale3(px, c.pixel_delta_u);
    let t2 = scale3(py, c.pixel_delta_v);
    let sample = (
        c.pixel00_loc.x.m + t1.0 + t2.0,
        c.pixel00_loc.y.m + t1.1 + t2.1,
        c.pixel00_loc.z.m + t1.2 + t2.2,
    );
    let orig = if c.defocus_angle.m <= 0 {
        c.center
    } else {
        disk_sample_m(c, dx, dy)
    };
    Ray {
        orig,
        dir: v3_of((sample.0 - orig.x.m, sample.1 - orig.y.m, sample.2 - orig.z.m)),
    }
}

/// The background a ray that escapes the scene sees: a vertical blend
/// between white and sky blue, by the direction's height.
pub open spec fn sky_m(r: Ray) -> (int, int, int) {
    let s = SCALE as int;
    let ut = unit_m(r.dir);
    let a = clamp_m(mul_m(HALF as int, ut.1 + s), 0, s);
    (
        (s - a) + mul_m(a, HALF as int),
        (s - a) + mul_m(a, 3006477107),
        (s - a) + mul_m(a, s),
    )
}

/// The colours the estimator may return for a ray, whichever values
/// the hidden random draws took.  Once the recursion budget is spent
/// the colour is black; on a miss it is the sky gradient; on a hit,
/// some scattering result admitted by the surface's material either
/// absorbs the ray (black) or yields a colour that is the truncated
/// componentwise product of its attenuation with a colour admissible
/// for the scattered ray at one less depth.
pub open spec fn colour_outcome(objs: Seq<Sphere>, r: Ray, depth: int, c: Vec3) -> bool
    decreases depth, 2int,
{
    if depth <= 0 {
        c.x.m == 0 && c.y.m == 0 && c.z.m == 0
    } else {
        match list_hit_m(objs, r, ACNE_MIN as int, T_LIMIT as int) {
            Some(rec) => exists|res: Option<Scattering>|
                #[trigger] scatter_outcome(rec.mat, r, rec, res) && scatter_then_colour(
                    objs,
                    res,
                    depth,
                    c,
                ),
            None => (c.x.m as int, c.y.m as int, c.z.m as int) == sky_m(r),
        }
    }
}

/// What the estimator does with one scattering result: an absorbed ray
/// contributes black; a scattered one contributes the truncated
/// componentwise product of the attenuation with a colour admissible
/// for the scattered ray at one less depth.
pub open spec fn scatter_then_colour(
    objs: Seq<Sphere>,
    res: Option<Scattering>,
    depth: int,
    c: Vec3,
) -> bool
    decreases depth, 1int,
{
    match res {
        Some(sc) => attenuated_outcome(objs, sc, depth, c),
        None => c.x.m == 0 && c.y.m == 0 && c.z.m == 0,
    }
}

/// `c` is the truncated componentwise product of the scattering's
/// attenuation with the colour `c2`.
pub open spec fn attenuates(sc: Scattering, c2: Vec3, c: Vec3) -> bool {
    &&& c.x.m == mul_m(sc.attenuation.x.m as int, c2.x.m as int)
    &&& c.y.m == mul_m(sc.attenuation.y.m as int, c2.y.m as int)
    &&& c.z.m == mul_m(sc.attenuation.z.m as int, c2.z.m as int)
}

/// The colour a successful scatter contributes: the attenuation,
/// channel by channel, times some colour admissible for the scattered
/// ray at one less depth.
pub open spec fn attenuated_outcome(objs: Seq<Sphere>, sc: Scattering, depth: int, c: Vec3) -> bool
    decreases depth, 0int,
{
    depth >= 1 && (exists|c2: Vec3|
        #[trigger] attenuates(sc, c2, c) && colour_outcome(objs, sc.scattered, depth - 1, c2))
}

/// Introduction form of `scatter_then_colour` for a successful
/// scatter, with the admissible recursive colour given explicitly.
proof fn lemma_scatter_then_colour_some(
    objs: Seq<Sphere>,
    sc: Scattering,
    depth: int,
    c2: Vec3,
    c: Vec3,
)
    requires
        depth >= 1,
        colour_outcome(objs, sc.scattered, depth - 1, c2),
        c.x.m == mul_m(sc.attenuation.x.m as int, c2.x.m as int),
        c.y.m == mul_m(sc.attenuation.y.m as int, c2.y.m as int),
        c.z.m == mul_m(sc.attenuation.z.m as int, c2.z.m as int),
    ensures
        scatter_then_colour(objs, Some(sc), depth, c),
{
    assert(attenuates(sc, c2, c));
    assert(attenuated_outcome(objs, sc, depth, c));
}

/// Introduction form of `colour_outcome` for a hit: the scattering
/// result the material admitted is given explicitly.
proof fn lemma_colour_outcome_hit(
    objs: Seq<Sphere>,
    r: Ray,
    depth: int,
    rec: HitRecord,
    res: Option<Scattering>,
    c: Vec3,
)
    requires
        depth >= 1,
        list_hit_m(objs, r, ACNE_MIN as int, T_LIMIT as int) == Some(rec),
        scatter_outcome(rec.mat, r, rec, res),
        scatter_then_colour(objs, res, depth, c),
    ensures
        colour_outcome(objs, r, depth, c),
{
    assert(exists|res2: Option<Scattering>|
        #[trigger] scatter_outcome(rec.mat, r, rec, res2) && scatter_then_colour(
            objs,
            res2,
            depth,
            c,
        ));
}

/// `sum` is `prev` plus `col`, componentwise and exactly.
pub open spec fn adds_to(prev: Vec3, col: Vec3, sum: Vec3) -> bool {
    &&& sum.x.m == prev.x.m + col.x.m
    &&& sum.y.m == prev.y.m + col.y.m
    &&& sum.z.m == prev.z.m + col.z.m
}

/// The sums the per-pixel sample loop may reach after `n` samples for
/// pixel `(i, j)`: zero to start with, and each step adds a colour the
/// estimator admits for a jittered primary ray of that pixel.
pub open spec fn sample_sum_outcome(
    c: Camera,
    objs: Seq<Sphere>,
    i: int,
    j: int,
    n: int,
    sum: Vec3,
) -> bool
    decreases n,
{
    if n <= 0 {
        sum.x.m == 0 && sum.y.m == 0 && sum.z.m == 0
    } else {
        exists|prev: Vec3, col: Vec3, ox: int, oy: int, dx: int, dy: int|
            #![trigger adds_to(prev, col, sum), get_ray_m(c, i, j, ox, oy, dx, dy)]
            adds_to(prev, col, sum) && sample_ok(ox, oy) && disk_ok(dx, dy)
                && sample_sum_outcome(c, objs, i, j, n - 1, prev) && colour_outcome(
                objs,
                get_ray_m(c, i, j, ox, oy, dx, dy),
                c.max_depth as int,
                col,
            )
    }
}

/// `p` is the averaging factor times `sum`, componentwise and
/// truncated.
pub open spec fn averages_to(c: Camera, sum: Vec3, p: Vec3) -> bool {
    &&& p.x.m == mul_m(c.pixel_samples_scale.m as int, sum.x.m as int)
    &&& p.y.m == mul_m(c.pixel_samples_scale.m as int, sum.y.m as int)
    &&& p.z.m == mul_m(c.pixel_samples_scale.m as int, sum.z.m as int)
}

/// The values the renderer may emit for pixel `(i, j)`: the truncated
/// scaled sum of one admissible colour estimate per sample.
pub open spec fn pixel_outcome(c: Camera, objs: Seq<Sphere>, i: int, j: int, p: Vec3) -> bool {
    exists|sum: Vec3|
        #[trigger] averages_to(c, sum, p) && sample_sum_outcome(
            c,
            objs,
            i,
            j,
            c.samples_per_pixel as int,
            sum,
        )
}

/// Introduction form of one step of `sample_sum_outcome`, with the
/// draws and the admitted colour given explicitly.
proof fn lemma_sample_sum_step(
    c: Camera,
    objs: Seq<Sphere>,
    i: int,
    j: int,
    n: int,
    prev: Vec3,
    col: Vec3,
    ox: int,
    oy: int,
    dx: int,
    dy: int,
    sum: Vec3,
)
    requires
        n >= 1,
        sample_sum_outcome(c, objs, i, j, n - 1, prev),
        sample_ok(ox, oy),
        disk_ok(dx, dy),
        colour_outcome(objs, get_ray_m(c, i, j, ox, oy, dx, dy), c.max_depth as int, col),
        adds_to(prev, col, sum),
    ensures
        sample_sum_outcome(c, objs, i, j, n, sum),
{
    assert(adds_to(prev, col, sum));
}

/// Introduction form of `pixel_outcome`, with the reached sum given
/// explicitly.
proof fn lemma_pixel_outcome_intro(
    c: Camera,
    objs: Seq<Sphere>,
    i: int,
    j: int,
    sum: Vec3,
    p: Vec3,
)
    requires
        sample_sum_outcome(c, objs, i, j, c.samples_per_pixel as int, sum),
        averages_to(c, sum, p),
    ensures
        pixel_outcome(c, objs, i, j, p),
{
    assert(averages_to(c, sum, p));
}

/// The image header: the plain-pixmap format tag, the dimensions, and
/// the channel maximum of 255.
pub open spec fn ppm_header(w: int, h: int) -> Seq<u8> {
    seq![80u8, 51u8, 10u8] + crate::colour::dec_rep(w) + seq![32u8] + crate::colour::dec_rep(h)
        + seq![10u8] + seq![50u8, 53u8, 53u8, 10u8]
}

/// The concatenated pixel lines of an image body, in row-major order.
pub open spec fn colour_lines(pix: Seq<Vec3>) -> Seq<u8>
    decreases pix.len(),
{
    if pix.len() == 0 {
        Seq::empty()
    } else {
        colour_lines(pix.drop_last()) + colour_line(pix.last())
    }
}

impl Camera {
    /// Checks at run time that the derived geometry lies within the
    /// bounds the per-pixel arithmetic needs.
    pub fn is_well_formed(&self) -> (b: bool)
        ensures
            b == camera_wf(*self),
    {
        if !(1 <= self.image_width && self.image_width <= 10000) {
            return false;
        }
        if !(1 <= self.image_height && self.image_height <= 10000) {
            return false;
        }
        if !(1 <= self.samples_per_pixel && self.samples_per_pixel <= 100000) {
            return false;
        }
        if !(0 <= self.pixel_samples_scale.m && self.pixel_samples_scale.m <= SCALE) {
            return false;
        }
        proof {
            assert(0 <= self.pixel_samples_scale.m * (self.samples_per_pixel as i128) <= SCALE
                * 100000) by (nonlinear_arith)
                requires
                    0 <= self.pixel_samples_scale.m <= SCALE,
                    1 <= self.samples_per_pixel <= 100000,
            ;
        }
        if !(self.pixel_samples_scale.m * (self.samples_per_pixel as i128) <= SCALE) {
            return false;
        }
        if !(in_box(self.pixel_delta_u, 137438953472) && in_box(
            self.pixel_delta_v,
            137438953472,
        )) {
            return false;
        }
        let iw = self.image_width as i128;
        let ih = self.image_height as i128;
        proof {
            assert(-1500000000000000000 <= iw * self.pixel_delta_u.x.m <= 1500000000000000000
                && -1500000000000000000 <= iw * self.pixel_delta_u.y.m <= 1500000000000000000
                && -1500000000000000000 <= iw * self.pixel_delta_u.z.m <= 1500000000000000000
                && -1500000000000000000 <= ih * self.pixel_delta_v.x.m <= 1500000000000000000
                && -1500000000000000000 <= ih * self.pixel_delta_v.y.m <= 1500000000000000000
                && -1500000000000000000 <= ih * self.pixel_delta_v.z.m <= 1500000000000000000)
                by (nonlinear_arith)
                requires
                    1 <= iw <= 10000,
                    1 <= ih <= 10000,
                    vec_in(self.pixel_delta_u, 137438953472),
                    vec_in(self.pixel_delta_v, 137438953472),
            ;
        }
        if !(-4398046511104 <= iw * self.pixel_delta_u.x.m && iw * self.pixel_delta_u.x.m
            <= 4398046511104 && -4398046511104 <= iw * self.pixel_delta_u.y.m && iw
            * self.pixel_delta_u.y.m <= 4398046511104 && -4398046511104 <= iw
            * self.pixel_delta_u.z.m && iw * self.pixel_delta_u.z.m <= 4398046511104) {
            return false;
        }
        if !(-4398046511104 <= ih * self.pixel_delta_v.x.m && ih * self.pixel_delta_v.x.m
            <= 4398046511104 && -4398046511104 <= ih * self.pixel_delta_v.y.m && ih
            * self.pixel_delta_v.y.m <= 4398046511104 && -4398046511104 <= ih
            * self.pixel_delta_v.z.m && ih * self.pixel_delta_v.z.m <= 4398046511104) {
            return false;
        }
        in_box(self.center, 4398046511104) && in_box(self.pixel00_loc, 4398046511104) && in_box(
            self.defocus_disk_u,
            137438953472,
        ) && in_box(self.defocus_disk_v, 137438953472)
    }

    /// A random offset in the half-open unit square around the origin,
    /// for pixel-area antialiasing.
    fn sample_square(rng: &mut Rng) -> (v: Vec3)
        ensures
            -HALF <= v.x.m < HALF,
            -HALF <= v.y.m < HALF,
            v.z.m == 0,
    {
        let rx = random_double(rng);
        let ry = random_double(rng);
        Vec3 {
            x: Fixed { m: rx.m - HALF },
            y: Fixed { m: ry.m - HALF },
            z: Fixed { m: 0 },
        }
    }

    /// A random origin on the camera's defocus disk.
    fn defocus_disk_sample(&self, rng: &mut Rng) -> (p: Vec3)
        requires
            camera_wf(*self),
        ensures
            exists|dx: int, dy: int| #[trigger] disk_ok(dx, dy) && p == disk_sample_m(*self, dx, dy),
            vec_in(p, 4674736676864),
    {
        let d = crate::vec3::random_in_unit_disk(rng);
        proof {
            crate::fixed::lemma_scaled_prod(d.x.m as int, self.defocus_disk_u.x.m as int, 1, 32);
            crate::fixed::lemma_scaled_prod(d.x.m as int, self.defocus_disk_u.y.m as int, 1, 32);
            crate::fixed::lemma_scaled_prod(d.x.m as int, self.defocus_disk_u.z.m as int, 1, 32);
            crate::fixed::lemma_scaled_prod(d.y.m as int, self.defocus_disk_v.x.m as int, 1, 32);
            crate::fixed::lemma_scaled_prod(d.y.m as int, self.defocus_disk_v.y.m as int, 1, 32);
            crate::fixed::lemma_scaled_prod(d.y.m as int, self.defocus_disk_v.z.m as int, 1, 32);
        }
        let p = self.center.add(self.defocus_disk_u.scale(d.x)).add(
            self.defocus_disk_v.scale(d.y),
        );
        proof {
            assert(disk_ok(d.x.m as int, d.y.m as int));
            assert(p == disk_sample_m(*self, d.x.m as int, d.y.m as int));
        }
        p
    }

    /// The jittered primary ray for pixel `(i, j)`: a random offset in
    /// the pixel's square, and, when the aperture is open, a random
    /// origin on the defocus disk.
    pub fn get_ray(&self, i: i32, j: i32, rng: &mut Rng) -> (r: Ray)
        requires
            camera_wf(*self),
            0 <= i < self.image_width,
            0 <= j < self.image_height,
        ensures
            ray_wf(r),
            self.defocus_angle.m <= 0 ==> r.orig == self.center,
            exists|ox: int, oy: int, dx: int, dy: int|
                #[trigger] sample_ok(ox, oy) && #[trigger] disk_ok(dx, dy) && r == get_ray_m(
                    *self,
                    i as int,
                    j as int,
                    ox,
                    oy,
                    dx,
                    dy,
                ),
    {
        let offset = Camera::sample_square(rng);
        let si = Fixed::from_int(i as i64).add(offset.x);
        let sj = Fixed::from_int(j as i64).add(offset.y);
        proof {
            let w = self.image_width as int;
            let h = self.image_height as int;
            lemma_pixel_step(si.m as int, self.pixel_delta_u.x.m as int, w);
            lemma_pixel_step(si.m as int, self.pixel_delta_u.y.m as int, w);
            lemma_pixel_step(si.m as int, self.pixel_delta_u.z.m as int, w);
            lemma_pixel_step(sj.m as int, self.pixel_delta_v.x.m as int, h);
            lemma_pixel_step(sj.m as int, self.pixel_delta_v.y.m as int, h);
            lemma_pixel_step(sj.m as int, self.pixel_delta_v.z.m as int, h);
        }
        let pixel_sample = self.pixel00_loc.add(self.pixel_delta_u.scale(si)).add(
            self.pixel_delta_v.scale(sj),
        );
        let ray_origin = if self.defocus_angle.m <= 0 {
            self.center
        } else {
            self.defocus_disk_sample(rng)
        };
        let ray_direction = pixel_sample.sub(ray_origin);
        let r = Ray::new(ray_origin, ray_direction);
        proof {
            if self.defocus_angle.m <= 0 {
                assert(disk_ok(0, 0)) by {
                    crate::fixed::lemma_tdiv_shrinks(0, SCALE as int);
                };
                assert(sample_ok(offset.x.m as int, offset.y.m as int));
                assert(r == get_ray_m(
                    *self,
                    i as int,
                    j as int,
                    offset.x.m as int,
                    offset.y.m as int,
                    0,
                    0,
                ));
            } else {
                let (dx, dy) = choose|dx: int, dy: int|
                    #[trigger] disk_ok(dx, dy) && ray_origin == disk_sample_m(*self, dx, dy);
                assert(sample_ok(offset.x.m as int, offset.y.m as int));
                assert(r == get_ray_m(
                    *self,
                    i as int,
                    j as int,
                    offset.x.m as int,
                    offset.y.m as int,
                    dx,
                    dy,
                ));
            }
        }
        r
    }

    /// The colour carried back along a ray: black once the recursion
    /// budget is spent, the attenuated colour of the scattered ray on
    /// a hit, and the sky gradient on a miss.
    pub fn ray_colour(r: &Ray, depth: i32, world: &HittableList, rng: &mut Rng) -> (c: Vec3)
        requires
            ray_wf(*r),
            list_wf(*world),
        ensures
            0 <= c.x.m <= SCALE,
            0 <= c.y.m <= SCALE,
            0 <= c.z.m <= SCALE,
            colour_outcome(world.objects@, *r, depth as int, c),
            depth <= 0 ==> c.x.m == 0 && c.y.m == 0 && c.z.m == 0,
            depth >= 1 && list_hit_m(world.objects@, *r, ACNE_MIN as int, T_LIMIT as int)
                is None ==> (c.x.m as int, c.y.m as int, c.z.m as int) == sky_m(*r),
        decreases depth,
    {
        if depth <= 0 {
            return Vec3::zero();
        }
        let hit = world.hit(r, Interval::new(Fixed { m: ACNE_MIN }, Fixed { m: T_LIMIT }));
        match hit {
            Some(rec) => {
                let res = rec.mat.scatter(r, &rec, rng);
                match res {
                    Some(sc) => {
                        let rc = Camera::ray_colour(&sc.scattered, depth - 1, world, rng);
                        proof {
                            crate::fixed::lemma_unit_mul_range(
                                sc.attenuation.x.m as int,
                                rc.x.m as int,
                            );
                            crate::fixed::lemma_unit_mul_range(
                                sc.attenuation.y.m as int,
                                rc.y.m as int,
                            );
                            crate::fixed::lemma_unit_mul_range(
                                sc.attenuation.z.m as int,
                                rc.z.m as int,
                            );
                        }
                        let out = sc.attenuation.component_mul(rc);
                        proof {
                            let objs = world.objects@;
                            let d = depth as int;
                            lemma_scatter_then_colour_some(objs, sc, d, rc, out);
                            lemma_colour_outcome_hit(objs, *r, d, rec, res, out);
                        }
                        out
                    },
                    None => {
                        let black = Vec3::zero();
                        proof {
                            let objs = world.objects@;
                            assert(scatter_then_colour(objs, res, depth as int, black));
                            lemma_colour_outcome_hit(objs, *r, depth as int, rec, res, black);
                        }
                        black
                    },
                }
            },
            None => {
                let unit_direction = r.dir().normalize();
                let one = Fixed::one();
                let half = Fixed { m: HALF };
                proof {
                    crate::fixed::lemma_scaled_prod(
                        half.m as int,
                        unit_direction.y.m + SCALE,
                        1,
                        3,
                    );
                }
                let a0 = half.mul(unit_direction.y.add(one));
                let a = a0.clamp(Fixed::zero(), one);
                proof {
                    crate::fixed::lemma_unit_mul_range(a.m as int, HALF as int);
                    crate::fixed::lemma_unit_mul_range(a.m as int, 3006477107);
                    crate::fixed::lemma_unit_mul_range(a.m as int, SCALE as int);
                }
                let oma = one.sub(a);
                let cx = oma.add(a.mul(half));
                let cy = oma.add(a.mul(Fixed { m: 3006477107 }));
                let cz = oma.add(a.mul(one));
                Vec3::new(cx, cy, cz)
            },
        }
    }

    /// Renders the scene: for every pixel, in row-major top-to-bottom
    /// order, the average of the jittered colour estimates, quantized
    /// to one text line; the result is the complete plain-pixmap
    /// image.
    pub fn render(&self, world: &HittableList, rng: &mut Rng) -> (out: Vec<u8>)
        requires
            camera_wf(*self),
            list_wf(*world),
        ensures
            exists|pix: Seq<Vec3>|
                pix.len() == self.image_width * self.image_height && (forall|k: int|
                    0 <= k < pix.len() ==> 0 <= #[trigger] pix[k].x.m <= SCALE && 0 <= pix[k].y.m
                        <= SCALE && 0 <= pix[k].z.m <= SCALE) && (forall|k: int|
                    0 <= k < pix.len() ==> #[trigger] pixel_outcome(
                        *self,
                        world.objects@,
                        k % (self.image_width as int),
                        k / (self.image_width as int),
                        pix[k],
                    )) && out@ == ppm_header(
                    self.image_width as int,
                    self.image_height as int,
                ) + #[trigger] colour_lines(pix),
    {
        let mut out: Vec<u8> = Vec::new();
        out.push(80);
        out.push(51);
        out.push(10);
        let mut wd = crate::colour::dec_bytes(self.image_width as u32);
        out.append(&mut wd);
        out.push(32);
        let mut hd = crate::colour::dec_bytes(self.image_height as u32);
        out.append(&mut hd);
        out.push(10);
        out.push(50);
        out.push(53);
        out.push(53);
        out.push(10);
        proof {
            assert(out@ =~= ppm_header(self.image_width as int, self.image_height as int));
        }
        let ghost header = out@;
        let ghost mut pix: Seq<Vec3> = Seq::empty();
        proof {
            assert(colour_lines(pix) =~= Seq::<u8>::empty());
            assert(out@ =~= header + colour_lines(pix));
        }
        let mut j: i32 = 0;
        while j < self.image_height
            invariant
                camera_wf(*self),
                list_wf(*world),
                0 <= j <= self.image_height,
                pix.len() == j * self.image_width,
                forall|k: int|
                    0 <= k < pix.len() ==> 0 <= #[trigger] pix[k].x.m <= SCALE && 0 <= pix[k].y.m
                        <= SCALE && 0 <= pix[k].z.m <= SCALE,
                forall|k: int|
                    0 <= k < pix.len() ==> #[trigger] pixel_outcome(
                        *self,
                        world.objects@,
                        k % (self.image_width as int),
                        k / (self.image_width as int),
                        pix[k],
                    ),
                header == ppm_header(self.image_width as int, self.image_height as int),
                out@ == header + colour_lines(pix),
            decreases self.image_height - j,
        {
            let mut i: i32 = 0;
            while i < self.image_width
                invariant
                    camera_wf(*self),
                    list_wf(*world),
                    0 <= j < self.image_height,
                    0 <= i <= self.image_width,
                    pix.len() == j * self.image_width + i,
                    forall|k: int|
                        0 <= k < pix.len() ==> 0 <= #[trigger] pix[k].x.m <= SCALE && 0
                            <= pix[k].y.m <= SCALE && 0 <= pix[k].z.m <= SCALE,
                    forall|k: int|
                        0 <= k < pix.len() ==> #[trigger] pixel_outcome(
                            *self,
                            world.objects@,
                            k % (self.image_width as int),
                            k / (self.image_width as int),
                            pix[k],
                        ),
                    header == ppm_header(self.image_width as int, self.image_height as int),
                    out@ == header + colour_lines(pix),
                decreases self.image_width - i,
            {
                let mut pixel_colour = Vec3::zero();
                let mut s: i32 = 0;
                while s < self.samples_per_pixel
                    invariant
                        camera_wf(*self),
                        list_wf(*world),
                        0 <= j < self.image_height,
                        0 <= i < self.image_width,
                        0 <= s <= self.samples_per_pixel,
                        0 <= pixel_colour.x.m <= s * SCALE,
                        0 <= pixel_colour.y.m <= s * SCALE,
                        0 <= pixel_colour.z.m <= s * SCALE,
                        sample_sum_outcome(
                            *self,
                            world.objects@,
                            i as int,
                            j as int,
                            s as int,
                            pixel_colour,
                        ),
                    decreases self.samples_per_pixel - s,
                {
                    let ray = self.get_ray(i, j, rng);
                    let c = Camera::ray_colour(&ray, self.max_depth, world, rng);
                    let ghost prev = pixel_colour;
                    pixel_colour = pixel_colour.add(c);
                    proof {
                        let objs = world.objects@;
                        let (ox, oy, dx, dy) = choose|ox: int, oy: int, dx: int, dy: int|
                            #[trigger] sample_ok(ox, oy) && #[trigger] disk_ok(dx, dy) && ray
                                == get_ray_m(*self, i as int, j as int, ox, oy, dx, dy);
                        assert(colour_outcome(objs, ray, self.max_depth as int, c));
                        lemma_sample_sum_step(
                            *self,
                            objs,
                            i as int,
                            j as int,
                            s as int + 1,
                            prev,
                            c,
                            ox,
                            oy,
                            dx,
                            dy,
                            pixel_colour,
                        );
                    }
                    s = s + 1;
                }
                proof {
                    lemma_average_in_unit(
                        self.pixel_samples_scale.m as int,
                        self.samples_per_pixel as int,
                        pixel_colour.x.m as int,
                    );
                    lemma_average_in_unit(
                        self.pixel_samples_scale.m as int,
                        self.samples_per_pixel as int,
                        pixel_colour.y.m as int,
                    );
                    lemma_average_in_unit(
                        self.pixel_samples_scale.m as int,
                        self.samples_per_pixel as int,
                        pixel_colour.z.m as int,
                    );
                }
                let pixel = pixel_colour.scale(self.pixel_samples_scale);
                proof {
                    assert(averages_to(*self, pixel_colour, pixel));
                    lemma_pixel_outcome_intro(
                        *self,
                        world.objects@,
                        i as int,
                        j as int,
                        pixel_colour,
                        pixel,
                    );
                }
                let mut line = write_colour(pixel);
                out.append(&mut line);
                proof {
                    let w = self.image_width as int;
                    let prev_pix = pix;
                    let k0 = prev_pix.len() as int;
                    pix = pix.push(pixel);
                    assert(pix.drop_last() =~= prev_pix);
                    assert(pix.last() == pixel);
                    assert(out@ =~= header + colour_lines(pix));
                    vstd::arithmetic::div_mod::lemma_fundamental_div_mod_converse(
                        k0,
                        w,
                        j as int,
                        i as int,
                    );
                    assert forall|k: int| 0 <= k < pix.len() implies #[trigger] pixel_outcome(
                        *self,
                        world.objects@,
                        k % w,
                        k / w,
                        pix[k],
                    ) by {
                        if k < k0 {
                            assert(pix[k] == prev_pix[k]);
                        } else {
                            assert(pix[k] == pixel);
                        }
                    };
                }
                i = i + 1;
            }
            proof {
                assert((j + 1) * self.image_width == j * self.image_width + self.image_width)
                    by (nonlinear_arith);
            }
            j = j + 1;
        }
        proof {
            assert(pix.len() == self.image_width * self.image_height) by (nonlinear_arith)
                requires
                    pix.len() == (self.image_height as int) * (self.image_width as int),
            ;
        }
        out
    }
}

/// Scalar-scales a vector whose magnitudes are certified by the given
/// ghost unit-scale bounds, re-certifying the result's bound.
fn scale_checked(v: Vec3, s: Fixed, Ghost(sl): Ghost<int>, Ghost(vl): Ghost<int>) -> (r: Vec3)
    requires
        0 <= sl,
        0 <= vl,
        sl * vl <= 4611686018427387904,
        absi(s.m as int) <= sl * SCALE,
        vec_in(v, vl * SCALE),
    ensures
        (r.x.m as int, r.y.m as int, r.z.m as int) == scale3(s.m as int, v),
        vec_in(r, sl * vl * SCALE),
{
    proof {
        crate::fixed::lemma_scaled_prod(s.m as int, v.x.m as int, sl, vl);
        crate::fixed::lemma_scaled_prod(s.m as int, v.y.m as int, sl, vl);
        crate::fixed::lemma_scaled_prod(s.m as int, v.z.m as int, sl, vl);
    }
    v.scale(s)
}

/// Componentwise box test for the well-formedness check.
fn in_box(v: Vec3, b: i128) -> (r: bool)
    requires
        b >= 0,
    ensures
        r == vec_in(v, b as int),
{
    -b <= v.x.m && v.x.m <= b && -b <= v.y.m && v.y.m <= b && -b <= v.z.m && v.z.m <= b
}

/// One pixel step stays within the scene: the index-plus-jitter
/// factor never exceeds the pixel count, and the whole viewport — the
/// delta times the pixel count — is bounded, so the step is too.
proof fn lemma_pixel_step(si: int, d: int, w: int)
    requires
        1 <= w <= 10000,
        -(w * SCALE) <= si <= w * SCALE,
        -137438953472 <= d <= 137438953472,
        -4398046511104 <= w * d <= 4398046511104,
    ensures
        i128::MIN <= si * d <= i128::MAX,
        -4398046511104 <= tdiv(si * d, SCALE as int) <= 4398046511104,
{
    assert(-(4398046511104 * SCALE) <= si * d <= 4398046511104 * SCALE) by (nonlinear_arith)
        requires
            1 <= w <= 10000,
            -(w * SCALE) <= si <= w * SCALE,
            -137438953472 <= d <= 137438953472,
            -4398046511104 <= w * d <= 4398046511104,
            SCALE == 4294967296,
    ;
    crate::fixed::lemma_tdiv_bound(si * d, SCALE as int, 4398046511104);
}

/// Scaling the sum of `n` unit-range samples by an averaging factor
/// whose product with `n` is at most one keeps the result in `[0, 1]`.
proof fn lemma_average_in_unit(scale: int, n: int, sum: int)
    requires
        0 <= scale <= SCALE,
        1 <= n,
        scale * n <= SCALE,
        0 <= sum <= n * SCALE,
    ensures
        i128::MIN <= scale * sum <= i128::MAX,
        0 <= tdiv(scale * sum, SCALE as int) <= SCALE,
{
    assert(0 <= scale * sum <= SCALE * SCALE) by (nonlinear_arith)
        requires
            0 <= scale <= SCALE,
            1 <= n,
            scale * n <= SCALE,
            0 <= sum <= n * SCALE,
    ;
    crate::fixed::lemma_tdiv_bound(scale * sum, SCALE as int, SCALE as int);
    crate::fixed::lemma_tdiv_shrinks(scale * sum, SCALE as int);
}

} // verus!
