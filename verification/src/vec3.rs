//! Three-component fixed-point vectors and their exact integer model.

use crate::fixed::{
    fdiv, fix_div, fix_mul, fix_sqrt, fmul, fsqrt, lemma_fmul_sq_nonneg, lemma_isqrt_bounds,
    lemma_tdiv_mag, sabs, SCALE,
};
use vstd::prelude::*;

verus! {

/// The mathematical model of a vector or point: three unbounded raw values.
pub struct V3 {
    pub x: int,
    pub y: int,
    pub z: int,
}

/// Every component's magnitude is at most `b`.
pub open spec fn v3_within(v: V3, b: int) -> bool {
    sabs(v.x) <= b && sabs(v.y) <= b && sabs(v.z) <= b
}

pub open spec fn add_m(a: V3, b: V3) -> V3 {
    V3 { x: a.x + b.x, y: a.y + b.y, z: a.z + b.z }
}

pub open spec fn sub_m(a: V3, b: V3) -> V3 {
    V3 { x: a.x - b.x, y: a.y - b.y, z: a.z - b.z }
}

pub open spec fn neg_m(a: V3) -> V3 {
    V3 { x: -a.x, y: -a.y, z: -a.z }
}

/// Component-wise fixed-point product.
pub open spec fn mulv_m(a: V3, b: V3) -> V3 {
    V3 { x: fmul(a.x, b.x), y: fmul(a.y, b.y), z: fmul(a.z, b.z) }
}

/// Vector scaled by a fixed-point scalar.
pub open spec fn scale_m(a: V3, t: int) -> V3 {
    V3 { x: fmul(a.x, t), y: fmul(a.y, t), z: fmul(a.z, t) }
}

/// Vector divided by a fixed-point scalar.
pub open spec fn divv_m(a: V3, t: int) -> V3 {
    V3 { x: fdiv(a.x, t), y: fdiv(a.y, t), z: fdiv(a.z, t) }
}

pub open spec fn dot_m(a: V3, b: V3) -> int {
    fmul(a.x, b.x) + fmul(a.y, b.y) + fmul(a.z, b.z)
}

pub open spec fn cross_m(a: V3, b: V3) -> V3 {
    V3 {
        x: fmul(a.y, b.z) - fmul(a.z, b.y),
        y: fmul(a.z, b.x) - fmul(a.x, b.z),
        z: fmul(a.x, b.y) - fmul(a.y, b.x),
    }
}

pub open spec fn ls_m(a: V3) -> int {
    dot_m(a, a)
}

pub open spec fn len_m(a: V3) -> int {
    fsqrt(ls_m(a))
}

pub open spec fn unit_m(a: V3) -> V3 {
    divv_m(a, len_m(a))
}

/// A product of component-wise bounded values is bounded by the product of
/// the bounds.
pub proof fn lemma_prod_bound(a: int, b: int, ba: int, bb: int)
    requires
        sabs(a) <= ba,
        sabs(b) <= bb,
    ensures
        -(ba * bb) <= a * b <= ba * bb,
{
    assert(-(ba * bb) <= a * b <= ba * bb) by (nonlinear_arith)
        requires
            sabs(a) <= ba,
            sabs(b) <= bb,
    ;
}

/// A magnitude bound for dot products, in product form so that call sites
/// with literal bounds can conclude `|dot_m(a, b)| <= 3 * ba * bb / SCALE`.
pub proof fn lemma_dot_bound(a: V3, b: V3, ba: int, bb: int)
    requires
        v3_within(a, ba),
        v3_within(b, bb),
    ensures
        sabs(dot_m(a, b)) * (SCALE as int) <= 3 * (ba * bb),
{
    crate::fixed::lemma_fmul_bound(a.x, b.x, ba, bb);
    crate::fixed::lemma_fmul_bound(a.y, b.y, ba, bb);
    crate::fixed::lemma_fmul_bound(a.z, b.z, ba, bb);
}

/// The cross product is anti-commutative: swapping its arguments negates it
/// exactly, component by component.
pub proof fn lemma_cross_anti_commutative(a: V3, b: V3)
    ensures
        cross_m(a, b) == neg_m(cross_m(b, a)),
{
    crate::fixed::lemma_fmul_commute(a.y, b.z);
    crate::fixed::lemma_fmul_commute(a.z, b.y);
    crate::fixed::lemma_fmul_commute(a.z, b.x);
    crate::fixed::lemma_fmul_commute(a.x, b.z);
    crate::fixed::lemma_fmul_commute(a.x, b.y);
    crate::fixed::lemma_fmul_commute(a.y, b.x);
}

/// A squared length is never negative.
pub proof fn lemma_ls_nonneg(a: V3)
    ensures
        0 <= ls_m(a),
{
    lemma_fmul_sq_nonneg(a.x);
    lemma_fmul_sq_nonneg(a.y);
    lemma_fmul_sq_nonneg(a.z);
}

/// A displacement or direction in space, in fixed-point raw components.
#[derive(Clone, Copy, Debug, PartialEq, Eq, Structural)]
pub struct Vec3 {
    pub x: i64,
    pub y: i64,
    pub z: i64,
}

impl View for Vec3 {
    type V = V3;

    open spec fn view(&self) -> V3 {
        V3 { x: self.x as int, y: self.y as int, z: self.z as int }
    }
}

impl Vec3 {
    /// Component-wise sum.
    pub fn add(self, other: Vec3) -> (r: Vec3)
        requires
            -0x4000_0000_0000_0000 <= self.x + other.x <= 0x4000_0000_0000_0000,
            -0x4000_0000_0000_0000 <= self.y + other.y <= 0x4000_0000_0000_0000,
            -0x4000_0000_0000_0000 <= self.z + other.z <= 0x4000_0000_0000_0000,
        ensures
            r@ == add_m(self@, other@),
    {
        Vec3 { x: self.x + other.x, y: self.y + other.y, z: self.z + other.z }
    }

    /// Component-wise difference.
    pub fn sub(self, other: Vec3) -> (r: Vec3)
        requires
            -0x4000_0000_0000_0000 <= self.x - other.x <= 0x4000_0000_0000_0000,
            -0x4000_0000_0000_0000 <= self.y - other.y <= 0x4000_0000_0000_0000,
            -0x4000_0000_0000_0000 <= self.z - other.z <= 0x4000_0000_0000_0000,
        ensures
            r@ == sub_m(self@, other@),
    {
        Vec3 { x: self.x - other.x, y: self.y - other.y, z: self.z - other.z }
    }

    /// The opposite vector.
    pub fn neg(self) -> (r: Vec3)
        requires
            -0x4000_0000_0000_0000 <= self.x <= 0x4000_0000_0000_0000,
            -0x4000_0000_0000_0000 <= self.y <= 0x4000_0000_0000_0000,
            -0x4000_0000_0000_0000 <= self.z <= 0x4000_0000_0000_0000,
        ensures
            r@ == neg_m(self@),
    {
        Vec3 { x: -self.x, y: -self.y, z: -self.z }
    }

    /// Component-wise fixed-point product.
    pub fn mul(self, other: Vec3) -> (r: Vec3)
        requires
            -0x4000_0000_0000_0000 <= self.x * other.x <= 0x4000_0000_0000_0000,
            -0x4000_0000_0000_0000 <= self.y * other.y <= 0x4000_0000_0000_0000,
            -0x4000_0000_0000_0000 <= self.z * other.z <= 0x4000_0000_0000_0000,
        ensures
            r@ == mulv_m(self@, other@),
    {
        Vec3 {
            x: fix_mul(self.x, other.x),
            y: fix_mul(self.y, other.y),
            z: fix_mul(self.z, other.z),
        }
    }

    /// The vector scaled by a fixed-point scalar.
    pub fn scale(self, t: i64) -> (r: Vec3)
        requires
            -0x4000_0000_0000_0000 <= self.x * t <= 0x4000_0000_0000_0000,
            -0x4000_0000_0000_0000 <= self.y * t <= 0x4000_0000_0000_0000,
            -0x4000_0000_0000_0000 <= self.z * t <= 0x4000_0000_0000_0000,
        ensures
            r@ == scale_m(self@, t as int),
    {
        Vec3 { x: fix_mul(self.x, t), y: fix_mul(self.y, t), z: fix_mul(self.z, t) }
    }

    /// The vector divided by a fixed-point scalar.
    pub fn div(self, t: i64) -> (r: Vec3)
        requires
            t != 0,
            -0x4000_0000_0000_0000 <= t <= 0x4000_0000_0000_0000,
            -0x4000_0000_0000 <= self.x <= 0x4000_0000_0000,
            -0x4000_0000_0000 <= self.y <= 0x4000_0000_0000,
            -0x4000_0000_0000 <= self.z <= 0x4000_0000_0000,
        ensures
            r@ == divv_m(self@, t as int),
    {
        Vec3 { x: fix_div(self.x, t), y: fix_div(self.y, t), z: fix_div(self.z, t) }
    }

    /// Fixed-point dot product.
    pub fn dot(self, other: Vec3) -> (r: i64)
        requires
            -0x4000_0000_0000_0000 <= self.x * other.x <= 0x4000_0000_0000_0000,
            -0x4000_0000_0000_0000 <= self.y * other.y <= 0x4000_0000_0000_0000,
            -0x4000_0000_0000_0000 <= self.z * other.z <= 0x4000_0000_0000_0000,
        ensures
            r == dot_m(self@, other@),
    {
        let a: i64 = fix_mul(self.x, other.x);
        let b: i64 = fix_mul(self.y, other.y);
        let c: i64 = fix_mul(self.z, other.z);
        proof {
            lemma_tdiv_mag((self.x as int) * (other.x as int), SCALE as int);
            lemma_tdiv_mag((self.y as int) * (other.y as int), SCALE as int);
            lemma_tdiv_mag((self.z as int) * (other.z as int), SCALE as int);
        }
        a + b + c
    }

    /// Fixed-point cross product.
    pub fn cross(self, other: Vec3) -> (r: Vec3)
        requires
            -0x4000_0000_0000_0000 <= self.y * other.z <= 0x4000_0000_0000_0000,
            -0x4000_0000_0000_0000 <= self.z * other.y <= 0x4000_0000_0000_0000,
            -0x4000_0000_0000_0000 <= self.z * other.x <= 0x4000_0000_0000_0000,
            -0x4000_0000_0000_0000 <= self.x * other.z <= 0x4000_0000_0000_0000,
            -0x4000_0000_0000_0000 <= self.x * other.y <= 0x4000_0000_0000_0000,
            -0x4000_0000_0000_0000 <= self.y * other.x <= 0x4000_0000_0000_0000,
        ensures
            r@ == cross_m(self@, other@),
    {
        proof {
            lemma_tdiv_mag((self.y as int) * (other.z as int), SCALE as int);
            lemma_tdiv_mag((self.z as int) * (other.y as int), SCALE as int);
            lemma_tdiv_mag((self.z as int) * (other.x as int), SCALE as int);
            lemma_tdiv_mag((self.x as int) * (other.z as int), SCALE as int);
            lemma_tdiv_mag((self.x as int) * (other.y as int), SCALE as int);
            lemma_tdiv_mag((self.y as int) * (other.x as int), SCALE as int);
        }
        Vec3 {
            x: fix_mul(self.y, other.z) - fix_mul(self.z, other.y),
            y: fix_mul(self.z, other.x) - fix_mul(self.x, other.z),
            z: fix_mul(self.x, other.y) - fix_mul(self.y, other.x),
        }
    }

    /// Fixed-point squared length.
    pub fn length_squared(self) -> (r: i64)
        requires
            self.x * self.x <= 0x1000_0000_0000_0000,
            self.y * self.y <= 0x1000_0000_0000_0000,
            self.z * self.z <= 0x1000_0000_0000_0000,
        ensures
            r == ls_m(self@),
            0 <= r,
    {
        proof {
            lemma_ls_nonneg(self@);
            assert(0 <= (self.x as int) * (self.x as int)) by (nonlinear_arith);
            assert(0 <= (self.y as int) * (self.y as int)) by (nonlinear_arith);
            assert(0 <= (self.z as int) * (self.z as int)) by (nonlinear_arith);
        }
        self.dot(self)
    }

    /// Fixed-point length: the rounded-down square root of the squared length.
    pub fn length(self) -> (r: i64)
        requires
            self.x * self.x <= 0x1000_0000_0000_0000,
            self.y * self.y <= 0x1000_0000_0000_0000,
            self.z * self.z <= 0x1000_0000_0000_0000,
        ensures
            r == len_m(self@),
            0 <= r <= 0x1_0000_0000,
    {
        let ls: i64 = self.length_squared();
        proof {
            lemma_tdiv_mag((self.x as int) * (self.x as int), SCALE as int);
            lemma_tdiv_mag((self.y as int) * (self.y as int), SCALE as int);
            lemma_tdiv_mag((self.z as int) * (self.z as int), SCALE as int);
        }
        fix_sqrt(ls)
    }

    /// The vector divided by its own length. The squared length must be
    /// positive: a vector that is zero, or too short to register at this
    /// scale, has no unit direction.
    pub fn unit_vector(self) -> (r: Vec3)
        requires
            -0x4000_0000 <= self.x <= 0x4000_0000,
            -0x4000_0000 <= self.y <= 0x4000_0000,
            -0x4000_0000 <= self.z <= 0x4000_0000,
            ls_m(self@) >= 1,
        ensures
            r@ == unit_m(self@),
    {
        proof {
            assert((self.x as int) * (self.x as int) <= 0x1000_0000_0000_0000) by (nonlinear_arith)
                requires
                    -0x4000_0000 <= self.x <= 0x4000_0000,
            ;
            assert((self.y as int) * (self.y as int) <= 0x1000_0000_0000_0000) by (nonlinear_arith)
                requires
                    -0x4000_0000 <= self.y <= 0x4000_0000,
            ;
            assert((self.z as int) * (self.z as int) <= 0x1000_0000_0000_0000) by (nonlinear_arith)
                requires
                    -0x4000_0000 <= self.z <= 0x4000_0000,
            ;
        }
        let len: i64 = self.length();
        proof {
            lemma_isqrt_bounds((ls_m(self@) * (SCALE as int)) as nat);
            if len == 0 {
                assert((len_m(self@) + 1) * (len_m(self@) + 1) == 1) by (nonlinear_arith)
                    requires
                        len_m(self@) == 0,
                ;
                assert(ls_m(self@) * (SCALE as int) >= 65536) by (nonlinear_arith)
                    requires
                        ls_m(self@) >= 1,
                ;
                assert(false);
            }
        }
        self.div(len)
    }
}

} // verus!
