//! The scene aggregate: an ordered list of spheres, intersected by
//! scanning every member and keeping the nearest hit.  The interval's
//! far bound shrinks to each accepted hit's parameter, and only a
//! strictly closer hit replaces the current best, so on a tie the
//! first-listed member wins.

use vstd::prelude::*;
use crate::hittable::{hit_record_wf, HitRecord};
use crate::interval::{contains_m, Interval};
use crate::ray::{ray_wf, Ray};
use crate::sphere::{sphere_hit_m, sphere_wf, Sphere};

verus! {

/// The nearest-hit scan, from member `i` on, with the current best
/// hit and the current far bound.  A later member's hit replaces the
/// best only when its parameter is strictly closer.
pub open spec fn list_hit_from(
    objs: Seq<Sphere>,
    i: int,
    ray: Ray,
    tmin: int,
    tmax: int,
    best: Option<HitRecord>,
) -> Option<HitRecord>
    decreases objs.len() - i,
{
    if i < 0 || i >= objs.len() {
        best
    } else {
        match sphere_hit_m(objs[i], ray, tmin, tmax) {
            Some(rec) => if best is None || rec.t.m < best->0.t.m {
                list_hit_from(objs, i + 1, ray, tmin, rec.t.m as int, Some(rec))
            } else {
                list_hit_from(objs, i + 1, ray, tmin, tmax, best)
            },
            None => list_hit_from(objs, i + 1, ray, tmin, tmax, best),
        }
    }
}

/// The nearest hit of the whole list over `[tmin, tmax]`.
pub open spec fn list_hit_m(objs: Seq<Sphere>, ray: Ray, tmin: int, tmax: int) -> Option<
    HitRecord,
> {
    list_hit_from(objs, 0, ray, tmin, tmax, None)
}

/// An ordered collection of spheres; append-only while the scene is
/// built, immutable during rendering.
#[derive(Clone, Debug)]
pub struct HittableList {
    pub objects: Vec<Sphere>,
}

/// Every member is well formed.
pub open spec fn list_wf(l: HittableList) -> bool {
    forall|k: int| 0 <= k < l.objects@.len() ==> sphere_wf(#[trigger] l.objects@[k])
}

impl HittableList {
    /// An empty scene.
    pub fn new() -> (r: HittableList)
        ensures
            r.objects@ =~= Seq::<Sphere>::empty(),
            list_wf(r),
    {
        HittableList { objects: Vec::new() }
    }

    /// Appends one object to the scene.
    pub fn add(&mut self, object: Sphere)
        requires
            sphere_wf(object),
        ensures
            final(self).objects@ =~= old(self).objects@.push(object),
            list_wf(*old(self)) ==> list_wf(*final(self)),
    {
        self.objects.push(object);
    }

    /// The nearest hit among all members whose parameter lies in the
    /// closed interval, if any; when two members tie at the same
    /// parameter, the first-listed one's record is kept.
    pub fn hit(&self, r: &Ray, ray_t: Interval) -> (res: Option<HitRecord>)
        requires
            list_wf(*self),
            ray_wf(*r),
        ensures
            res == list_hit_m(self.objects@, *r, ray_t.min.m as int, ray_t.max.m as int),
            res is Some ==> hit_record_wf(res->0) && contains_m(ray_t, res->0.t.m as int),
    {
        let ghost tmin = ray_t.min.m as int;
        let ghost tmax0 = ray_t.max.m as int;
        let mut closest = ray_t;
        let mut best: Option<HitRecord> = None;
        let n = self.objects.len();
        let mut i: usize = 0;
        while i < n
            invariant
                n == self.objects@.len(),
                0 <= i <= n,
                list_wf(*self),
                ray_wf(*r),
                closest.min == ray_t.min,
                tmin == ray_t.min.m as int,
                tmax0 == ray_t.max.m as int,
                best is None ==> closest.max == ray_t.max,
                best is Some ==> closest.max == best->0.t && hit_record_wf(best->0)
                    && contains_m(ray_t, best->0.t.m as int),
                list_hit_m(self.objects@, *r, tmin, tmax0) == list_hit_from(
                    self.objects@,
                    i as int,
                    *r,
                    tmin,
                    closest.max.m as int,
                    best,
                ),
            decreases n - i,
        {
            let obj = &self.objects[i];
            if let Some(rec) = obj.hit(r, closest) {
                proof {
                    assert(contains_m(closest, rec.t.m as int));
                }
                let strictly_closer = match &best {
                    None => true,
                    Some(b) => rec.t.m < b.t.m,
                };
                if strictly_closer {
                    closest = Interval::new(closest.min, rec.t);
                    best = Some(rec);
                }
            }
            i = i + 1;
        }
        best
    }
}

} // verus!
