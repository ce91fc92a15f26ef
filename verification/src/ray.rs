//! Rays: an origin and a direction, with the point reached at a parametric
//! fixed-point distance.

use crate::fixed::lemma_tdiv_mag;
use crate::fixed::SCALE;
use crate::point3::Point3;
use crate::vec3::{add_m, scale_m, V3, Vec3};
use vstd::prelude::*;

verus! {

/// The mathematical model of a ray.
pub struct RayM {
    pub origin: V3,
    pub direction: V3,
}

/// The point a ray reaches at fixed-point parameter `t`.
pub open spec fn at_m(r: RayM, t: int) -> V3 {
    add_m(r.origin, scale_m(r.direction, t))
}

/// A half-line: origin plus scaled direction.
#[derive(Clone, Copy, Debug, PartialEq, Eq, Structural)]
pub struct Ray {
    pub origin: Point3,
    pub direction: Vec3,
}

impl View for Ray {
    type V = RayM;

    open spec fn view(&self) -> RayM {
        RayM { origin: self.origin@, direction: self.direction@ }
    }
}

impl Ray {
    /// The point reached at parameter `t`: origin + t * direction.
    pub fn at(self, t: i64) -> (r: Point3)
        requires
            -0x1000_0000_0000_0000 <= self.direction.x * t <= 0x1000_0000_0000_0000,
            -0x1000_0000_0000_0000 <= self.direction.y * t <= 0x1000_0000_0000_0000,
            -0x1000_0000_0000_0000 <= self.direction.z * t <= 0x1000_0000_0000_0000,
            -0x2_0000_0000_0000 <= self.origin.x <= 0x2_0000_0000_0000,
            -0x2_0000_0000_0000 <= self.origin.y <= 0x2_0000_0000_0000,
            -0x2_0000_0000_0000 <= self.origin.z <= 0x2_0000_0000_0000,
        ensures
            r@ == at_m(self@, t as int),
    {
        let moved: Vec3 = self.direction.scale(t);
        proof {
            lemma_tdiv_mag((self.direction.x as int) * (t as int), SCALE as int);
            lemma_tdiv_mag((self.direction.y as int) * (t as int), SCALE as int);
            lemma_tdiv_mag((self.direction.z as int) * (t as int), SCALE as int);
        }
        self.origin.add(moved)
    }
}

} // verus!
