//! The one concrete primitive: analytic ray-sphere intersection, mirrored
//! exactly by a model-level spec function.

use crate::fixed::{
    fdiv, fix_div, fix_mul, fix_sqrt, fmul, fsqrt, lemma_fmul_bound, lemma_tdiv_mag, sabs, SCALE,
};
use crate::hittable::{HitM, HitRecord, Hittable};
use crate::point3::Point3;
use crate::ray::{at_m, Ray, RayM};
use crate::vec3::{
    divv_m, dot_m, lemma_dot_bound, lemma_prod_bound, neg_m, sub_m, v3_within, V3, Vec3,
};
use vstd::prelude::*;

verus! {

/// Largest magnitude allowed for a sphere's center components and radius.
pub const SCENE_BOUND: i64 = 0x10_0000;

/// Smallest sphere radius that registers at this fixed-point scale.
pub const MIN_RADIUS: i64 = 256;

/// Largest magnitude allowed for a ray's origin and direction components.
pub const RAY_BOUND: i64 = 0x40_0000;

/// Largest magnitude allowed for the intersection parameter window.
pub const T_LIMIT: i64 = 0x80_0000;

/// The mathematical model of a sphere.
pub struct SphereM {
    pub center: V3,
    pub radius: int,
}

/// A well-formed sphere model: bounded center, positive bounded radius.
pub open spec fn sphere_ok(s: SphereM) -> bool {
    &&& v3_within(s.center, SCENE_BOUND as int)
    &&& MIN_RADIUS <= s.radius <= SCENE_BOUND
}

/// A ray fit for intersection: bounded components and a direction long enough
/// that its fixed-point squared length is positive.
pub open spec fn ray_ok(r: RayM) -> bool {
    &&& v3_within(r.origin, RAY_BOUND as int)
    &&& v3_within(r.direction, RAY_BOUND as int)
    &&& dot_m(r.direction, r.direction) >= 1
}

/// A bounded parameter window.
pub open spec fn window_ok(t_min: int, t_max: int) -> bool {
    &&& -(T_LIMIT as int) <= t_min <= T_LIMIT
    &&& -(T_LIMIT as int) <= t_max <= T_LIMIT
}

/// Ray-sphere intersection, exactly as the executable code computes it:
/// solve the fixed-point quadratic, prefer the nearer root, fall back to the
/// farther one, reject anything outside the window, then orient the normal
/// against the ray.
pub open spec fn sphere_hit_m(s: SphereM, ray: RayM, t_min: int, t_max: int) -> Option<HitM> {
    let oc = sub_m(ray.origin, s.center);
    let a = dot_m(ray.direction, ray.direction);
    let half_b = dot_m(oc, ray.direction);
    let c = dot_m(oc, oc) - fmul(s.radius, s.radius);
    let disc = fmul(half_b, half_b) - fmul(a, c);
    if disc < 0 {
        None
    } else {
        let sqrtd = fsqrt(disc);
        let root1 = fdiv(-half_b - sqrtd, a);
        let root = if root1 < t_min || t_max < root1 {
            fdiv(-half_b + sqrtd, a)
        } else {
            root1
        };
        if root < t_min || t_max < root {
            None
        } else {
            let p = at_m(ray, root);
            let outward = divv_m(sub_m(p, s.center), s.radius);
            let front = dot_m(ray.direction, outward) < 0;
            Some(
                HitM {
                    point: p,
                    normal: if front {
                        outward
                    } else {
                        neg_m(outward)
                    },
                    time: root,
                    front_face: front,
                },
            )
        }
    }
}

/// The two fixed-point roots of the quadratic are ordered: the preferred
/// root never lies beyond the fallback root.
proof fn lemma_roots_ordered(half_b: int, sqrtd: int, a: int)
    requires
        a >= 1,
        sqrtd >= 0,
    ensures
        fdiv(-half_b - sqrtd, a) <= fdiv(-half_b + sqrtd, a),
{
    assert((-half_b - sqrtd) * (SCALE as int) <= (-half_b + sqrtd) * (SCALE as int))
        by (nonlinear_arith)
        requires
            sqrtd >= 0,
    ;
    crate::fixed::lemma_tdiv_mono(
        (-half_b - sqrtd) * (SCALE as int),
        (-half_b + sqrtd) * (SCALE as int),
        a,
    );
}

/// Growing the far end of the window past an existing hit changes nothing:
/// the hit found in the smaller window is the hit of the larger one.
pub proof fn lemma_hit_window_extend(s: SphereM, ray: RayM, t_min: int, t1: int, t2: int)
    requires
        t1 <= t2,
        dot_m(ray.direction, ray.direction) >= 1,
        sphere_hit_m(s, ray, t_min, t1) is Some,
    ensures
        sphere_hit_m(s, ray, t_min, t2) == sphere_hit_m(s, ray, t_min, t1),
{
    let oc = sub_m(ray.origin, s.center);
    let a = dot_m(ray.direction, ray.direction);
    let half_b = dot_m(oc, ray.direction);
    let c = dot_m(oc, oc) - fmul(s.radius, s.radius);
    let disc = fmul(half_b, half_b) - fmul(a, c);
    let sqrtd = fsqrt(disc);
    let root1 = fdiv(-half_b - sqrtd, a);
    let root2 = fdiv(-half_b + sqrtd, a);
    assert(disc >= 0);
    lemma_roots_ordered(half_b, sqrtd, a);
    if t_min <= root1 <= t1 {
        assert(t_min <= root1 <= t2);
    } else {
        assert(t_min <= root2 <= t1);
        assert(root1 < t_min);
    }
}

/// Shrinking the far end of the window down to (or past) the hit's own time
/// changes nothing: the hit of the larger window is still found.
pub proof fn lemma_hit_window_shrink(s: SphereM, ray: RayM, t_min: int, t1: int, t2: int)
    requires
        t1 <= t2,
        dot_m(ray.direction, ray.direction) >= 1,
        sphere_hit_m(s, ray, t_min, t2) is Some,
        sphere_hit_m(s, ray, t_min, t2)->Some_0.time <= t1,
    ensures
        sphere_hit_m(s, ray, t_min, t1) == sphere_hit_m(s, ray, t_min, t2),
{
    let oc = sub_m(ray.origin, s.center);
    let a = dot_m(ray.direction, ray.direction);
    let half_b = dot_m(oc, ray.direction);
    let c = dot_m(oc, oc) - fmul(s.radius, s.radius);
    let disc = fmul(half_b, half_b) - fmul(a, c);
    let sqrtd = fsqrt(disc);
    let root1 = fdiv(-half_b - sqrtd, a);
    let root2 = fdiv(-half_b + sqrtd, a);
    assert(disc >= 0);
    lemma_roots_ordered(half_b, sqrtd, a);
    if t_min <= root1 <= t2 {
        assert(root1 <= t1);
    } else {
        assert(t_min <= root2 <= t2);
        assert(root2 <= t1);
        assert(root1 < t_min);
    }
}

/// A hit handed out by the sphere intersection always lies inside the
/// requested parameter window.
pub proof fn lemma_hit_time_in_window(s: SphereM, ray: RayM, t_min: int, t_max: int)
    ensures
        match sphere_hit_m(s, ray, t_min, t_max) {
            Some(h) => t_min <= h.time <= t_max,
            None => true,
        },
{
}

/// A sphere: center and radius, in fixed-point raw values.
#[derive(Clone, Copy, Debug, PartialEq, Eq, Structural)]
pub struct Sphere {
    pub radius: i64,
    pub center: Point3,
}

impl View for Sphere {
    type V = SphereM;

    open spec fn view(&self) -> SphereM {
        SphereM { center: self.center@, radius: self.radius as int }
    }
}

impl Hittable for Sphere {
    open spec fn hit_model(&self, ray: RayM, t_min: int, t_max: int) -> Option<HitM> {
        sphere_hit_m(self@, ray, t_min, t_max)
    }

    open spec fn hit_pre(&self, ray: RayM, t_min: int, t_max: int) -> bool {
        sphere_ok(self@) && ray_ok(ray) && window_ok(t_min, t_max)
    }

    #[verifier::rlimit(80)]
    fn hit(&self, ray: Ray, t_min: i64, t_max: i64) -> (r: Option<HitRecord>) {
        let oc: Vec3 = ray.origin.sub_point(self.center);
        proof {
            assert(v3_within(oc@, 0x50_0000));
            lemma_prod_bound(ray.direction.x as int, ray.direction.x as int, 0x40_0000, 0x40_0000);
            lemma_prod_bound(ray.direction.y as int, ray.direction.y as int, 0x40_0000, 0x40_0000);
            lemma_prod_bound(ray.direction.z as int, ray.direction.z as int, 0x40_0000, 0x40_0000);
            lemma_prod_bound(oc.x as int, ray.direction.x as int, 0x50_0000, 0x40_0000);
            lemma_prod_bound(oc.y as int, ray.direction.y as int, 0x50_0000, 0x40_0000);
            lemma_prod_bound(oc.z as int, ray.direction.z as int, 0x50_0000, 0x40_0000);
            lemma_prod_bound(oc.x as int, oc.x as int, 0x50_0000, 0x50_0000);
            lemma_prod_bound(oc.y as int, oc.y as int, 0x50_0000, 0x50_0000);
            lemma_prod_bound(oc.z as int, oc.z as int, 0x50_0000, 0x50_0000);
            lemma_prod_bound(self.radius as int, self.radius as int, 0x10_0000, 0x10_0000);
        }
        let a: i64 = ray.direction.dot(ray.direction);
        let half_b: i64 = oc.dot(ray.direction);
        let oc_ls: i64 = oc.dot(oc);
        let rr: i64 = fix_mul(self.radius, self.radius);
        proof {
            lemma_dot_bound(ray@.direction, ray@.direction, 0x40_0000, 0x40_0000);
            assert(sabs(a as int) <= 0x3000_0000);
            lemma_dot_bound(oc@, ray@.direction, 0x50_0000, 0x40_0000);
            assert(sabs(half_b as int) <= 0x3C00_0000);
            lemma_dot_bound(oc@, oc@, 0x50_0000, 0x50_0000);
            assert(sabs(oc_ls as int) <= 0x4B00_0000);
            lemma_tdiv_mag((self.radius as int) * (self.radius as int), SCALE as int);
            assert(sabs(rr as int) <= 0x100_0000);
        }
        let c2: i64 = oc_ls - rr;
        proof {
            assert(sabs(c2 as int) <= 0x4C00_0000);
            lemma_prod_bound(half_b as int, half_b as int, 0x3C00_0000, 0x3C00_0000);
            lemma_prod_bound(a as int, c2 as int, 0x3000_0000, 0x4C00_0000);
        }
        let hb2: i64 = fix_mul(half_b, half_b);
        let ac: i64 = fix_mul(a, c2);
        proof {
            lemma_tdiv_mag((half_b as int) * (half_b as int), SCALE as int);
            lemma_tdiv_mag((a as int) * (c2 as int), SCALE as int);
            assert(sabs(hb2 as int) <= 0xE10_0000_0000);
            assert(sabs(ac as int) <= 0xE40_0000_0000);
        }
        let disc: i64 = hb2 - ac;
        if disc < 0 {
            return None;
        }
        let sqrtd: i64 = fix_sqrt(disc);
        let neg_hb: i64 = -half_b;
        let mut root: i64 = fix_div(neg_hb - sqrtd, a);
        if root < t_min || t_max < root {
            root = fix_div(neg_hb + sqrtd, a);
            if root < t_min || t_max < root {
                return None;
            }
        }
        proof {
            assert(sabs(root as int) <= 0x80_0000);
            lemma_prod_bound(ray.direction.x as int, root as int, 0x40_0000, 0x80_0000);
            lemma_prod_bound(ray.direction.y as int, root as int, 0x40_0000, 0x80_0000);
            lemma_prod_bound(ray.direction.z as int, root as int, 0x40_0000, 0x80_0000);
        }
        let p: Point3 = ray.at(root);
        proof {
            lemma_fmul_bound(ray.direction.x as int, root as int, 0x40_0000, 0x80_0000);
            lemma_fmul_bound(ray.direction.y as int, root as int, 0x40_0000, 0x80_0000);
            lemma_fmul_bound(ray.direction.z as int, root as int, 0x40_0000, 0x80_0000);
            assert(v3_within(p@, 0x2040_0000));
        }
        let op: Vec3 = p.sub_point(self.center);
        proof {
            assert(v3_within(op@, 0x2050_0000));
        }
        let outward: Vec3 = op.div(self.radius);
        proof {
            lemma_tdiv_mag((op.x as int) * (SCALE as int), self.radius as int);
            lemma_tdiv_mag((op.y as int) * (SCALE as int), self.radius as int);
            lemma_tdiv_mag((op.z as int) * (SCALE as int), self.radius as int);
            assert(sabs(outward.x as int) * 256 <= sabs(outward.x as int) * (self.radius as int))
                by (nonlinear_arith)
                requires
                    0 <= sabs(outward.x as int),
                    self.radius >= 256,
            ;
            assert(sabs(outward.y as int) * 256 <= sabs(outward.y as int) * (self.radius as int))
                by (nonlinear_arith)
                requires
                    0 <= sabs(outward.y as int),
                    self.radius >= 256,
            ;
            assert(sabs(outward.z as int) * 256 <= sabs(outward.z as int) * (self.radius as int))
                by (nonlinear_arith)
                requires
                    0 <= sabs(outward.z as int),
                    self.radius >= 256,
            ;
            assert(v3_within(outward@, 0x80_0000_0000));
        }
        let mut rec: HitRecord = HitRecord {
            point: p,
            normal: outward,
            time: root,
            front_face: false,
        };
        rec.set_face_normal(ray, outward);
        Some(rec)
    }
}

} // verus!
