//! Positions in space. A point shares the vector model `V3`; the type only
//! fixes the role: point plus/minus vector is a point, point minus point is a
//! vector.

use crate::vec3::{add_m, sub_m, V3, Vec3};
use vstd::prelude::*;

verus! {

/// A position in space, in fixed-point raw components.
#[derive(Clone, Copy, Debug, PartialEq, Eq, Structural)]
pub struct Point3 {
    pub x: i64,
    pub y: i64,
    pub z: i64,
}

impl View for Point3 {
    type V = V3;

    open spec fn view(&self) -> V3 {
        V3 { x: self.x as int, y: self.y as int, z: self.z as int }
    }
}

impl Point3 {
    /// The point moved by a displacement.
    pub fn add(self, other: Vec3) -> (r: Point3)
        requires
            -0x4000_0000_0000_0000 <= self.x + other.x <= 0x4000_0000_0000_0000,
            -0x4000_0000_0000_0000 <= self.y + other.y <= 0x4000_0000_0000_0000,
            -0x4000_0000_0000_0000 <= self.z + other.z <= 0x4000_0000_0000_0000,
        ensures
            r@ == add_m(self@, other@),
    {
        Point3 { x: self.x + other.x, y: self.y + other.y, z: self.z + other.z }
    }

    /// The point moved against a displacement.
    pub fn sub(self, other: Vec3) -> (r: Point3)
        requires
            -0x4000_0000_0000_0000 <= self.x - other.x <= 0x4000_0000_0000_0000,
            -0x4000_0000_0000_0000 <= self.y - other.y <= 0x4000_0000_0000_0000,
            -0x4000_0000_0000_0000 <= self.z - other.z <= 0x4000_0000_0000_0000,
        ensures
            r@ == sub_m(self@, other@),
    {
        Point3 { x: self.x - other.x, y: self.y - other.y, z: self.z - other.z }
    }

    /// The displacement from `other` to `self`.
    pub fn sub_point(self, other: Point3) -> (r: Vec3)
        requires
            -0x4000_0000_0000_0000 <= self.x - other.x <= 0x4000_0000_0000_0000,
            -0x4000_0000_0000_0000 <= self.y - other.y <= 0x4000_0000_0000_0000,
            -0x4000_0000_0000_0000 <= self.z - other.z <= 0x4000_0000_0000_0000,
        ensures
            r@ == sub_m(self@, other@),
    {
        Vec3 { x: self.x - other.x, y: self.y - other.y, z: self.z - other.z }
    }
}

} // verus!
