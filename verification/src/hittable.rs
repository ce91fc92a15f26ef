//! The result of a ray hitting a surface, and the capability any primitive
//! must offer: report the nearest intersection inside a parameter window.

use crate::point3::Point3;
use crate::ray::{Ray, RayM};
use crate::vec3::{dot_m, neg_m, V3, Vec3};
use vstd::prelude::*;

verus! {

/// The mathematical model of a hit.
pub struct HitM {
    pub point: V3,
    pub normal: V3,
    pub time: int,
    pub front_face: bool,
}

/// The face-normal rule: the stored normal always opposes the incoming ray.
/// The hit is a front-face hit exactly when the ray meets the outward normal
/// head on.
pub open spec fn face_normal_m(h: HitM, ray: RayM, outward: V3) -> HitM {
    let front = dot_m(ray.direction, outward) < 0;
    HitM {
        point: h.point,
        normal: if front {
            outward
        } else {
            neg_m(outward)
        },
        time: h.time,
        front_face: front,
    }
}

/// A successful intersection: contact point, oriented unit-scale normal, the
/// ray parameter of the contact, and which face was struck.
#[derive(Clone, Copy, Debug, PartialEq, Eq, Structural)]
pub struct HitRecord {
    pub point: Point3,
    pub normal: Vec3,
    pub time: i64,
    pub front_face: bool,
}

impl View for HitRecord {
    type V = HitM;

    open spec fn view(&self) -> HitM {
        HitM {
            point: self.point@,
            normal: self.normal@,
            time: self.time as int,
            front_face: self.front_face,
        }
    }
}

/// An optional hit record seen at the model level.
pub open spec fn opt_hit_view(r: Option<HitRecord>) -> Option<HitM> {
    match r {
        Some(h) => Some(h@),
        None => None,
    }
}

impl HitRecord {
    /// Orient `outward_normal` against the ray and store it together with the
    /// front-face flag, as every primitive must do before handing a record out.
    pub fn set_face_normal(&mut self, ray: Ray, outward_normal: Vec3)
        requires
            -0x40_0000 <= ray.direction.x <= 0x40_0000,
            -0x40_0000 <= ray.direction.y <= 0x40_0000,
            -0x40_0000 <= ray.direction.z <= 0x40_0000,
            -0x80_0000_0000 <= outward_normal.x <= 0x80_0000_0000,
            -0x80_0000_0000 <= outward_normal.y <= 0x80_0000_0000,
            -0x80_0000_0000 <= outward_normal.z <= 0x80_0000_0000,
        ensures
            final(self)@ == face_normal_m(old(self)@, ray@, outward_normal@),
    {
        proof {
            crate::vec3::lemma_prod_bound(
                ray.direction.x as int,
                outward_normal.x as int,
                0x40_0000,
                0x80_0000_0000,
            );
            crate::vec3::lemma_prod_bound(
                ray.direction.y as int,
                outward_normal.y as int,
                0x40_0000,
                0x80_0000_0000,
            );
            crate::vec3::lemma_prod_bound(
                ray.direction.z as int,
                outward_normal.z as int,
                0x40_0000,
                0x80_0000_0000,
            );
        }
        let d: i64 = ray.direction.dot(outward_normal);
        self.front_face = d < 0;
        self.normal = if self.front_face {
            outward_normal
        } else {
            outward_normal.neg()
        };
    }
}

/// The capability of reporting the nearest ray intersection within a window.
/// `hit_model` is what the implementer's `hit` returns, seen at the model
/// level; `hit_pre` is what the implementer asks of the inputs.
pub trait Hittable {
    spec fn hit_model(&self, ray: RayM, t_min: int, t_max: int) -> Option<HitM>;

    spec fn hit_pre(&self, ray: RayM, t_min: int, t_max: int) -> bool;

    fn hit(&self, ray: Ray, t_min: i64, t_max: i64) -> (r: Option<HitRecord>)
        requires
            self.hit_pre(ray@, t_min as int, t_max as int),
        ensures
            opt_hit_view(r) == self.hit_model(ray@, t_min as int, t_max as int),
    ;
}

} // verus!
