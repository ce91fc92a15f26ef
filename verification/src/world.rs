//! The world: a camera over a viewport, a list of spheres, nearest-hit
//! resolution, the per-ray shader and the frame renderer — all pinned to an
//! integer model.

use crate::colour::{chan_u8, Colour, CM};
use crate::fixed::{
    fdiv, fix_div, fix_mul, fmul, lemma_fmul_bound, lemma_fmul_sq_nonneg, lemma_fmul_unit,
    lemma_tdiv_mag, sabs, tdiv, to_fixed, SCALE,
};
use vstd::arithmetic::div_mod::lemma_div_pos_is_pos;
use crate::hittable::{opt_hit_view, HitM, HitRecord, Hittable};
use crate::point3::Point3;
use crate::ray::{Ray, RayM};
use crate::sphere::{
    ray_ok, sphere_hit_m, sphere_ok, window_ok, Sphere, SphereM, T_LIMIT,
};
use crate::vec3::{
    add_m, divv_m, dot_m, lemma_prod_bound, scale_m, sub_m, v3_within, V3, Vec3,
};
use vstd::arithmetic::div_mod::{
    lemma_div_is_ordered, lemma_div_multiples_vanish, lemma_mod_division_less_than_divisor,
    lemma_multiply_divide_lt,
};
use vstd::pervasive::VecAdditionalExecFns;
use vstd::prelude::*;

verus! {

/// How far one input tick moves the camera: about a tenth of a unit.
pub const MOVE_SPEED: i64 = 6554;

/// The camera origin stays inside this box, so that translation can never
/// push the viewport out of the renderer's working range.
pub const ORIGIN_LIMIT: i64 = 0x8_0000;

/// Largest magnitude allowed for the viewport extent vectors and focal length.
pub const VIEW_BOUND: i64 = 0x8_0000;

/// Smallest focal length that registers at this fixed-point scale.
pub const MIN_FOCAL: i64 = 256;

/// Half a unit: the shader's 0.5 factor.
pub const HALF_UNIT: i64 = 32768;

/// The background's sky-blue: red channel (0.5).
pub const BLUE_R: i64 = 32768;

/// The background's sky-blue: green channel (about 0.7).
pub const BLUE_G: i64 = 45875;

/// The background's sky-blue: blue channel (1.0).
pub const BLUE_B: i64 = 65536;

/// The mathematical model of the world.
pub struct WorldM {
    pub height: int,
    pub width: int,
    pub focal_length: int,
    pub origin: V3,
    pub horizontal: V3,
    pub vertical: V3,
    pub lower_left_corner: V3,
    pub spheres: Seq<SphereM>,
}

/// The cached corner: origin - horizontal/2 - vertical/2 - (0, 0, focal).
pub open spec fn llc_m(origin: V3, horizontal: V3, vertical: V3, focal: int) -> V3 {
    sub_m(
        sub_m(
            sub_m(origin, divv_m(horizontal, 2 * (SCALE as int))),
            divv_m(vertical, 2 * (SCALE as int)),
        ),
        V3 { x: 0, y: 0, z: focal },
    )
}

/// The world's invariant: bounded dimensions and camera values, viewport
/// extents lying in the image plane, the corner cache in step with the
/// origin, and every sphere well formed.
pub open spec fn world_wf(w: WorldM) -> bool {
    &&& 2 <= w.height <= 4096
    &&& 2 <= w.width <= 4096
    &&& MIN_FOCAL <= w.focal_length <= VIEW_BOUND
    &&& v3_within(w.origin, ORIGIN_LIMIT as int)
    &&& v3_within(w.horizontal, VIEW_BOUND as int)
    &&& v3_within(w.vertical, VIEW_BOUND as int)
    &&& w.horizontal.z == 0
    &&& w.vertical.z == 0
    &&& w.lower_left_corner == llc_m(w.origin, w.horizontal, w.vertical, w.focal_length)
    &&& forall|i: int| 0 <= i < w.spheres.len() ==> sphere_ok(#[trigger] w.spheres[i])
}

/// The world a fresh camera starts from: viewport height 2, width scaled by
/// the aspect ratio, focal length 1, origin at the world origin, no spheres.
pub open spec fn new_m(height: int, width: int) -> WorldM {
    let aspect = fdiv(width * (SCALE as int), height * (SCALE as int));
    let origin = V3 { x: 0, y: 0, z: 0 };
    let horizontal = V3 { x: fmul(aspect, 2 * (SCALE as int)), y: 0, z: 0 };
    let vertical = V3 { x: 0, y: 2 * (SCALE as int), z: 0 };
    WorldM {
        height,
        width,
        focal_length: SCALE as int,
        origin,
        horizontal,
        vertical,
        lower_left_corner: llc_m(origin, horizontal, vertical, SCALE as int),
        spheres: Seq::empty(),
    }
}

/// One translation step along one axis, stopped at the world's edge.
pub open spec fn step_coord(c: int, delta: int) -> int {
    if sabs(c + delta) <= ORIGIN_LIMIT {
        c + delta
    } else {
        c
    }
}

/// The step a pair of opposing keys asks for; the positive key wins a tie.
pub open spec fn move_delta(pos: bool, neg: bool) -> int {
    if pos {
        MOVE_SPEED as int
    } else if neg {
        -(MOVE_SPEED as int)
    } else {
        0
    }
}

/// The world after one input tick: origin stepped on each axis, corner cache
/// recomputed, everything else unchanged.
pub open spec fn update_m(w: WorldM, right: bool, left: bool, up: bool, down: bool) -> WorldM {
    let origin = V3 {
        x: step_coord(w.origin.x, move_delta(right, left)),
        y: step_coord(w.origin.y, move_delta(up, down)),
        z: w.origin.z,
    };
    WorldM {
        height: w.height,
        width: w.width,
        focal_length: w.focal_length,
        origin,
        horizontal: w.horizontal,
        vertical: w.vertical,
        lower_left_corner: llc_m(origin, w.horizontal, w.vertical, w.focal_length),
        spheres: w.spheres,
    }
}

/// Nearest-hit resolution from object `i` on, with the running window end
/// `closest` and running best record, exactly as the scan computes it.
pub open spec fn resolve_from(
    list: Seq<SphereM>,
    ray: RayM,
    t_min: int,
    i: int,
    closest: int,
    best: Option<HitM>,
) -> Option<HitM>
    decreases list.len() - i,
{
    if i < 0 || i >= list.len() {
        best
    } else {
        match sphere_hit_m(list[i], ray, t_min, closest) {
            Some(h) => resolve_from(list, ray, t_min, i + 1, h.time, Some(h)),
            None => resolve_from(list, ray, t_min, i + 1, closest, best),
        }
    }
}

/// Nearest-hit resolution across the whole list.
pub open spec fn resolve_m(list: Seq<SphereM>, ray: RayM, t_min: int, t_max: int) -> Option<
    HitM,
> {
    resolve_from(list, ray, t_min, 0, t_max, None)
}

/// A raw value clamped into [-SCALE, SCALE].
pub open spec fn clamp_unit_m(c: int) -> int {
    if c < -(SCALE as int) {
        -(SCALE as int)
    } else if c > SCALE {
        SCALE as int
    } else {
        c
    }
}

/// One shaded channel: 0.5 * (n + 1), with `n` first clamped into [-1, 1] so
/// the channel always lands in [0, 1].
pub open spec fn shade_chan_m(n: int) -> int {
    fmul(HALF_UNIT as int, clamp_unit_m(n) + SCALE)
}

/// One background channel: (1 - t) * white + t * blue for a channel of blue.
pub open spec fn lerp_chan_m(t: int, blue: int) -> int {
    fmul((SCALE as int) - t, SCALE as int) + fmul(t, blue)
}

/// The background gradient for a ray direction: blend white toward sky-blue
/// by t = 0.5 * (unit_direction.y + 1).
pub open spec fn background_m(dir: V3) -> CM {
    let t = shade_chan_m(crate::vec3::unit_m(dir).y);
    CM {
        r: lerp_chan_m(t, BLUE_R as int),
        g: lerp_chan_m(t, BLUE_G as int),
        b: lerp_chan_m(t, BLUE_B as int),
    }
}

/// The shader: the nearest hit in [0, T_LIMIT] colours the pixel by its
/// normal, 0.5 * (normal + (1,1,1)); a miss falls back to the gradient.
pub open spec fn shade_m(spheres: Seq<SphereM>, ray: RayM) -> CM {
    match resolve_m(spheres, ray, 0, T_LIMIT as int) {
        Some(h) => CM {
            r: shade_chan_m(h.normal.x),
            g: shade_chan_m(h.normal.y),
            b: shade_chan_m(h.normal.z),
        },
        None => background_m(ray.direction),
    }
}

/// The horizontal image coordinate of pixel `i`: column / (width - 1).
pub open spec fn u_of(i: int, width: int) -> int {
    ((i % width) * (SCALE as int)) / (width - 1)
}

/// The vertical image coordinate of pixel `i`: (height - row) / (height - 1),
/// so that the top row of the buffer maps to the top of the viewport.
pub open spec fn v_of(i: int, width: int, height: int) -> int {
    ((height - i / width) * (SCALE as int)) / (height - 1)
}

/// The camera ray of pixel `i`: from the origin through the viewport point
/// lower_left_corner + u * horizontal + v * vertical.
pub open spec fn pixel_ray_m(w: WorldM, i: int) -> RayM {
    RayM {
        origin: w.origin,
        direction: sub_m(
            add_m(
                add_m(w.lower_left_corner, scale_m(w.horizontal, u_of(i, w.width))),
                scale_m(w.vertical, v_of(i, w.width, w.height)),
            ),
            w.origin,
        ),
    }
}

/// Byte `k` of pixel `i` in the frame: the shaded colour's 8-bit channels,
/// then an opaque alpha.
pub open spec fn pixel_chan_m(w: WorldM, i: int, k: int) -> int {
    let c = shade_m(w.spheres, pixel_ray_m(w, i));
    if k == 0 {
        chan_u8(c.r)
    } else if k == 1 {
        chan_u8(c.g)
    } else if k == 2 {
        chan_u8(c.b)
    } else {
        0xff
    }
}

/// Translating the camera one tick right and then one tick left restores it
/// exactly: the origin and the cached lower-left corner end where they began.
/// The first step must have room inside the world's box.
pub proof fn lemma_translate_round_trip(w: WorldM)
    requires
        world_wf(w),
        sabs(w.origin.x + MOVE_SPEED) <= ORIGIN_LIMIT,
    ensures
        update_m(update_m(w, true, false, false, false), false, true, false, false) == w,
{
    let w1 = update_m(w, true, false, false, false);
    assert(w1.origin.x == w.origin.x + MOVE_SPEED);
    let w2 = update_m(w1, false, true, false, false);
    assert(w2.origin == w.origin);
    assert(w2.lower_left_corner == w.lower_left_corner);
}

/// Resolving a two-object scene does not depend on the order of the list:
/// as long as the two objects do not hit the ray at exactly the same time,
/// [a, b] and [b, a] give the same record. (With an exact tie the scan keeps
/// whichever object comes later, so the tie must be excluded.)
pub proof fn lemma_resolve_pair_order(a: SphereM, b: SphereM, ray: RayM, t_min: int, t_max: int)
    requires
        dot_m(ray.direction, ray.direction) >= 1,
        match (sphere_hit_m(a, ray, t_min, t_max), sphere_hit_m(b, ray, t_min, t_max)) {
            (Some(ha), Some(hb)) => ha.time != hb.time,
            _ => true,
        },
    ensures
        resolve_m(seq![a, b], ray, t_min, t_max) == resolve_m(seq![b, a], ray, t_min, t_max),
{
    let s1 = seq![a, b];
    let s2 = seq![b, a];
    let ra = sphere_hit_m(a, ray, t_min, t_max);
    let rb = sphere_hit_m(b, ray, t_min, t_max);
    assert(s1.len() == 2 && s1[0] == a && s1[1] == b);
    assert(s2.len() == 2 && s2[0] == b && s2[1] == a);
    crate::sphere::lemma_hit_time_in_window(a, ray, t_min, t_max);
    crate::sphere::lemma_hit_time_in_window(b, ray, t_min, t_max);
    match (ra, rb) {
        (None, None) => {
            assert(resolve_from(s1, ray, t_min, 0, t_max, None) == resolve_from(
                s1,
                ray,
                t_min,
                1,
                t_max,
                None,
            ));
            assert(resolve_from(s2, ray, t_min, 0, t_max, None) == resolve_from(
                s2,
                ray,
                t_min,
                1,
                t_max,
                None,
            ));
            assert(resolve_from(s1, ray, t_min, 1, t_max, None) == resolve_from(
                s1,
                ray,
                t_min,
                2,
                t_max,
                None,
            ));
            assert(resolve_from(s2, ray, t_min, 1, t_max, None) == resolve_from(
                s2,
                ray,
                t_min,
                2,
                t_max,
                None,
            ));
            assert(resolve_from(s1, ray, t_min, 2, t_max, None) == None::<HitM>);
            assert(resolve_from(s2, ray, t_min, 2, t_max, None) == None::<HitM>);
        },
        (None, Some(hb)) => {
            // scanning [a, b]: a misses, b leaves hb.
            // scanning [b, a]: b leaves hb; a, asked inside [t_min, hb.time],
            // must miss, else widening its window would contradict ra == None.
            if sphere_hit_m(a, ray, t_min, hb.time) is Some {
                crate::sphere::lemma_hit_window_extend(a, ray, t_min, hb.time, t_max);
            }
            assert(resolve_from(s1, ray, t_min, 0, t_max, None) == resolve_from(
                s1,
                ray,
                t_min,
                1,
                t_max,
                None,
            ));
            assert(resolve_from(s1, ray, t_min, 1, t_max, None) == resolve_from(
                s1,
                ray,
                t_min,
                2,
                hb.time,
                Some(hb),
            ));
            assert(resolve_from(s2, ray, t_min, 0, t_max, None) == resolve_from(
                s2,
                ray,
                t_min,
                1,
                hb.time,
                Some(hb),
            ));
            assert(resolve_from(s2, ray, t_min, 1, hb.time, Some(hb)) == resolve_from(
                s2,
                ray,
                t_min,
                2,
                hb.time,
                Some(hb),
            ));
            assert(resolve_from(s1, ray, t_min, 2, hb.time, Some(hb)) == Some(hb));
            assert(resolve_from(s2, ray, t_min, 2, hb.time, Some(hb)) == Some(hb));
        },
        (Some(ha), None) => {
            if sphere_hit_m(b, ray, t_min, ha.time) is Some {
                crate::sphere::lemma_hit_window_extend(b, ray, t_min, ha.time, t_max);
            }
            assert(resolve_from(s1, ray, t_min, 0, t_max, None) == resolve_from(
                s1,
                ray,
                t_min,
                1,
                ha.time,
                Some(ha),
            ));
            assert(resolve_from(s2, ray, t_min, 0, t_max, None) == resolve_from(
                s2,
                ray,
                t_min,
                1,
                t_max,
                None,
            ));
            assert(resolve_from(s2, ray, t_min, 1, t_max, None) == resolve_from(
                s2,
                ray,
                t_min,
                2,
                ha.time,
                Some(ha),
            ));
            assert(resolve_from(s1, ray, t_min, 1, ha.time, Some(ha)) == resolve_from(
                s1,
                ray,
                t_min,
                2,
                ha.time,
                Some(ha),
            ));
            assert(resolve_from(s1, ray, t_min, 2, ha.time, Some(ha)) == Some(ha));
            assert(resolve_from(s2, ray, t_min, 2, ha.time, Some(ha)) == Some(ha));
        },
        (Some(ha), Some(hb)) => {
            if hb.time < ha.time {
                // scanning [a, b]: a leaves ha, then b, asked inside
                // [t_min, ha.time], still finds hb and replaces ha.
                crate::sphere::lemma_hit_window_shrink(b, ray, t_min, ha.time, t_max);
                // scanning [b, a]: b leaves hb; a, asked inside
                // [t_min, hb.time], must miss: a hit there would widen to ha
                // with a time at most hb.time.
                if sphere_hit_m(a, ray, t_min, hb.time) is Some {
                    crate::sphere::lemma_hit_window_extend(a, ray, t_min, hb.time, t_max);
                    crate::sphere::lemma_hit_time_in_window(a, ray, t_min, hb.time);
                }
                assert(resolve_from(s1, ray, t_min, 1, ha.time, Some(ha)) == resolve_from(
                    s1,
                    ray,
                    t_min,
                    2,
                    hb.time,
                    Some(hb),
                ));
                assert(resolve_from(s2, ray, t_min, 1, hb.time, Some(hb)) == resolve_from(
                    s2,
                    ray,
                    t_min,
                    2,
                    hb.time,
                    Some(hb),
                ));
                assert(resolve_from(s1, ray, t_min, 0, t_max, None) == resolve_from(
                    s1,
                    ray,
                    t_min,
                    1,
                    ha.time,
                    Some(ha),
                ));
                assert(resolve_from(s2, ray, t_min, 0, t_max, None) == resolve_from(
                    s2,
                    ray,
                    t_min,
                    1,
                    hb.time,
                    Some(hb),
                ));
                assert(resolve_from(s1, ray, t_min, 2, hb.time, Some(hb)) == Some(hb));
                assert(resolve_from(s2, ray, t_min, 2, hb.time, Some(hb)) == Some(hb));
            } else {
                crate::sphere::lemma_hit_window_shrink(a, ray, t_min, hb.time, t_max);
                if sphere_hit_m(b, ray, t_min, ha.time) is Some {
                    crate::sphere::lemma_hit_window_extend(b, ray, t_min, ha.time, t_max);
                    crate::sphere::lemma_hit_time_in_window(b, ray, t_min, ha.time);
                }
                assert(resolve_from(s1, ray, t_min, 1, ha.time, Some(ha)) == resolve_from(
                    s1,
                    ray,
                    t_min,
                    2,
                    ha.time,
                    Some(ha),
                ));
                assert(resolve_from(s2, ray, t_min, 1, hb.time, Some(hb)) == resolve_from(
                    s2,
                    ray,
                    t_min,
                    2,
                    ha.time,
                    Some(ha),
                ));
                assert(resolve_from(s1, ray, t_min, 0, t_max, None) == resolve_from(
                    s1,
                    ray,
                    t_min,
                    1,
                    ha.time,
                    Some(ha),
                ));
                assert(resolve_from(s2, ray, t_min, 0, t_max, None) == resolve_from(
                    s2,
                    ray,
                    t_min,
                    1,
                    hb.time,
                    Some(hb),
                ));
                assert(resolve_from(s1, ray, t_min, 2, ha.time, Some(ha)) == Some(ha));
                assert(resolve_from(s2, ray, t_min, 2, ha.time, Some(ha)) == Some(ha));
            }
        },
    }
}

/// A raw value clamped into [-SCALE, SCALE].
fn clamp_unit(c: i64) -> (r: i64)
    ensures
        r == clamp_unit_m(c as int),
{
    if c < -SCALE {
        -SCALE
    } else if c > SCALE {
        SCALE
    } else {
        c
    }
}

/// One shaded channel: 0.5 * (n + 1) after clamping `n` into [-1, 1].
fn shade_chan(n: i64) -> (r: i64)
    ensures
        r == shade_chan_m(n as int),
        0 <= r <= SCALE,
{
    let ncl: i64 = clamp_unit(n);
    let r: i64 = fix_mul(HALF_UNIT, ncl + SCALE);
    proof {
        lemma_div_pos_is_pos((HALF_UNIT as int) * (ncl + SCALE), SCALE as int);
        lemma_tdiv_mag((HALF_UNIT as int) * (ncl + SCALE), SCALE as int);
        lemma_prod_bound(HALF_UNIT as int, (ncl + SCALE) as int, 0x8000, 0x2_0000);
        assert(0 <= (HALF_UNIT as int) * (ncl + SCALE)) by (nonlinear_arith)
            requires
                0 <= ncl + SCALE,
        ;
    }
    r
}

/// One background channel: (1 - t) * white + t * blue, for t in [0, 1].
fn lerp_chan(t: i64, blue: i64) -> (r: i64)
    requires
        0 <= t <= SCALE,
        0 <= blue <= SCALE,
    ensures
        r == lerp_chan_m(t as int, blue as int),
        0 <= r <= SCALE,
{
    proof {
        assert(0 <= (t as int) * (blue as int) <= (t as int) * (SCALE as int)) by (nonlinear_arith)
            requires
                0 <= t,
                0 <= blue <= SCALE,
        ;
        assert((t as int) * (SCALE as int) <= 0x1_0000_0000) by (nonlinear_arith)
            requires
                0 <= t <= SCALE,
        ;
        assert(0 <= ((SCALE - t) as int) * (SCALE as int) <= 0x1_0000_0000) by (nonlinear_arith)
            requires
                0 <= SCALE - t <= SCALE,
        ;
    }
    let white_part: i64 = fix_mul(SCALE - t, SCALE);
    let blue_part: i64 = fix_mul(t, blue);
    proof {
        lemma_fmul_unit((SCALE - t) as int);
        lemma_tdiv_mag((t as int) * (blue as int), SCALE as int);
        lemma_div_pos_is_pos((t as int) * (blue as int), SCALE as int);
    }
    white_part + blue_part
}

/// The camera and scene: viewport geometry, the cached lower-left corner,
/// and the list of spheres the rays are resolved against.
#[derive(Debug)]
pub struct World {
    pub height: u32,
    pub width: u32,
    pub focal_length: i64,
    pub origin: Point3,
    pub horizontal: Vec3,
    pub vertical: Vec3,
    pub lower_left_corner: Point3,
    pub hittable_list: Vec<Sphere>,
}

impl View for World {
    type V = WorldM;

    open spec fn view(&self) -> WorldM {
        WorldM {
            height: self.height as int,
            width: self.width as int,
            focal_length: self.focal_length as int,
            origin: self.origin@,
            horizontal: self.horizontal@,
            vertical: self.vertical@,
            lower_left_corner: self.lower_left_corner@,
            spheres: self.hittable_list@.map_values(|s: Sphere| s@),
        }
    }
}

/// The corner cache, recomputed from the camera fields.
fn compute_llc(origin: Point3, horizontal: Vec3, vertical: Vec3, focal: i64) -> (r: Point3)
    requires
        v3_within(origin@, ORIGIN_LIMIT as int),
        v3_within(horizontal@, VIEW_BOUND as int),
        v3_within(vertical@, VIEW_BOUND as int),
        0 <= focal <= VIEW_BOUND,
    ensures
        r@ == llc_m(origin@, horizontal@, vertical@, focal as int),
        v3_within(r@, 3 * (VIEW_BOUND as int)),
{
    let half_h: Vec3 = horizontal.div(2 * SCALE);
    let half_v: Vec3 = vertical.div(2 * SCALE);
    proof {
        lemma_tdiv_mag((horizontal.x as int) * (SCALE as int), 2 * (SCALE as int));
        lemma_tdiv_mag((horizontal.y as int) * (SCALE as int), 2 * (SCALE as int));
        lemma_tdiv_mag((horizontal.z as int) * (SCALE as int), 2 * (SCALE as int));
        lemma_tdiv_mag((vertical.x as int) * (SCALE as int), 2 * (SCALE as int));
        lemma_tdiv_mag((vertical.y as int) * (SCALE as int), 2 * (SCALE as int));
        lemma_tdiv_mag((vertical.z as int) * (SCALE as int), 2 * (SCALE as int));
        lemma_prod_bound(horizontal.x as int, SCALE as int, VIEW_BOUND as int, SCALE as int);
        lemma_prod_bound(horizontal.y as int, SCALE as int, VIEW_BOUND as int, SCALE as int);
        lemma_prod_bound(horizontal.z as int, SCALE as int, VIEW_BOUND as int, SCALE as int);
        lemma_prod_bound(vertical.x as int, SCALE as int, VIEW_BOUND as int, SCALE as int);
        lemma_prod_bound(vertical.y as int, SCALE as int, VIEW_BOUND as int, SCALE as int);
        lemma_prod_bound(vertical.z as int, SCALE as int, VIEW_BOUND as int, SCALE as int);
    }
    origin.sub(half_h).sub(half_v).sub(Vec3 { x: 0, y: 0, z: focal })
}

impl World {
    /// A fresh world: default camera for the given image size, no spheres.
    /// The width may be at most four times the height, so that the viewport
    /// stays inside the renderer's working range.
    pub fn new(height: u32, width: u32) -> (r: World)
        requires
            2 <= height <= 4096,
            2 <= width <= 4096,
            width <= 4 * height,
        ensures
            r@ == new_m(height as int, width as int),
            world_wf(r@),
    {
        let hf: i64 = to_fixed(height as i64);
        let wfx: i64 = to_fixed(width as i64);
        let aspect: i64 = fix_div(wfx, hf);
        proof {
            lemma_tdiv_mag((wfx as int) * (SCALE as int), hf as int);
            assert(sabs((wfx as int) * (SCALE as int)) <= 4 * (hf as int) * (SCALE as int))
                by (nonlinear_arith)
                requires
                    0 < hf,
                    0 <= wfx <= 4 * hf,
            ;
            assert(sabs(aspect as int) <= 4 * (SCALE as int)) by (nonlinear_arith)
                requires
                    sabs(aspect as int) * (hf as int) <= 4 * (hf as int) * (SCALE as int),
                    0 < hf,
                    0 <= sabs(aspect as int),
            ;
            lemma_prod_bound(aspect as int, 2 * (SCALE as int), 4 * (SCALE as int), 2 * (
            SCALE as int));
            lemma_tdiv_mag((aspect as int) * (2 * (SCALE as int)), SCALE as int);
        }
        let viewport_height: i64 = 2 * SCALE;
        let viewport_width: i64 = fix_mul(aspect, viewport_height);
        let origin: Point3 = Point3 { x: 0, y: 0, z: 0 };
        let horizontal: Vec3 = Vec3 { x: viewport_width, y: 0, z: 0 };
        let vertical: Vec3 = Vec3 { x: 0, y: viewport_height, z: 0 };
        let focal_length: i64 = SCALE;
        let lower_left_corner: Point3 = compute_llc(origin, horizontal, vertical, focal_length);
        let r: World = World {
            height,
            width,
            focal_length,
            origin,
            horizontal,
            vertical,
            lower_left_corner,
            hittable_list: Vec::new(),
        };
        proof {
            assert(r@.spheres =~= Seq::<SphereM>::empty());
            assert(r@ == new_m(height as int, width as int));
        }
        r
    }

    /// The world's invariant, as seen from the executable side.
    pub open spec fn wf(self) -> bool {
        world_wf(self@)
    }

    /// Add a sphere to the scene.
    pub fn add_sphere(&mut self, s: Sphere)
        requires
            old(self).wf(),
            sphere_ok(s@),
        ensures
            final(self)@ == (WorldM { spheres: old(self)@.spheres.push(s@), ..old(self)@ }),
            final(self).wf(),
    {
        self.hittable_list.push(s);
        proof {
            assert(self@.spheres =~= old(self)@.spheres.push(s@));
            assert(self@ == (WorldM { spheres: old(self)@.spheres.push(s@), ..old(self)@ }));
        }
    }

    /// One input tick: step the origin by the pressed directions (the world's
    /// edge stops a step; right wins over left, up over down), recompute the
    /// corner cache, and report whether the camera actually moved.
    pub fn update(&mut self, right: bool, left: bool, up: bool, down: bool) -> (changed: bool)
        requires
            old(self).wf(),
        ensures
            final(self)@ == update_m(old(self)@, right, left, up, down),
            changed == (final(self)@.origin != old(self)@.origin),
            final(self).wf(),
    {
        let mut moved: bool = false;
        if right {
            if self.origin.x <= ORIGIN_LIMIT - MOVE_SPEED {
                self.origin.x = self.origin.x + MOVE_SPEED;
                moved = true;
            }
        } else if left {
            if self.origin.x >= -ORIGIN_LIMIT + MOVE_SPEED {
                self.origin.x = self.origin.x - MOVE_SPEED;
                moved = true;
            }
        }
        if up {
            if self.origin.y <= ORIGIN_LIMIT - MOVE_SPEED {
                self.origin.y = self.origin.y + MOVE_SPEED;
                moved = true;
            }
        } else if down {
            if self.origin.y >= -ORIGIN_LIMIT + MOVE_SPEED {
                self.origin.y = self.origin.y - MOVE_SPEED;
                moved = true;
            }
        }
        if moved {
            self.lower_left_corner = compute_llc(
                self.origin,
                self.horizontal,
                self.vertical,
                self.focal_length,
            );
        }
        proof {
            assert(self@ == update_m(old(self)@, right, left, up, down));
            assert(world_wf(self@));
        }
        moved
    }

/// Render every pixel of a row-major RGBA frame: derive the pixel's
    /// image coordinates, build its camera ray, shade it, and write its four
    /// bytes. Every pixel is visited exactly once.
    #[verifier::rlimit(100)]
    pub fn draw(&self, frame: &mut Vec<u8>)
        requires
            self.wf(),
            old(frame).len() == 4 * self.width * self.height,
        ensures
            final(frame).len() == old(frame).len(),
            forall|i: int, k: int|
                0 <= i < self@.width * self@.height && 0 <= k < 4 ==> final(frame)@[4 * i + k]
                    == pixel_chan_m(self@, i, k),
    {
        let w: usize = self.width as usize;
        let h: usize = self.height as usize;
        proof {
            assert((w as int) * (h as int) <= 4096 * 4096) by (nonlinear_arith)
                requires
                    w <= 4096,
                    h <= 4096,
            ;
        }
        let total: usize = w * h;
        proof {
            assert(4 * (total as int) == 4 * (w as int) * (h as int)) by (nonlinear_arith)
                requires
                    total as int == (w as int) * (h as int),
            ;
        }
        let mut i: usize = 0;
        while i < total
            invariant
                self.wf(),
                w as int == self@.width,
                h as int == self@.height,
                total as int == self@.width * self@.height,
                total <= 0x100_0000,
                frame.len() == 4 * (total as int),
                i <= total,
                forall|j: int, k: int|
                    0 <= j < i && 0 <= k < 4 ==> frame@[4 * j + k] == pixel_chan_m(self@, j, k),
            decreases total - i,
        {
            let col: usize = i % w;
            let row: usize = i / w;
            proof {
                lemma_multiply_divide_lt(i as int, w as int, h as int);
                lemma_mod_division_less_than_divisor(i as int, w as int);
            }
            let u_num: u64 = (col as u64) * 65536;
            let u: i64 = (u_num / ((w - 1) as u64)) as i64;
            let v_count: u64 = (h - row) as u64;
            let v: i64 = ((v_count * 65536) / ((h - 1) as u64)) as i64;
            proof {
                lemma_div_pos_is_pos(u_num as int, (w - 1) as int);
                lemma_div_pos_is_pos((v_count as int) * 65536, (h - 1) as int);
                lemma_div_is_ordered(u_num as int, ((w - 1) as int) * 65536, (w - 1) as int);
                assert(((w - 1) as int) * 65536 == 65536 * ((w - 1) as int)) by (nonlinear_arith);
                lemma_div_multiples_vanish(65536, (w - 1) as int);
                assert(0 <= u <= 65536);
                lemma_div_is_ordered(
                    (v_count as int) * 65536,
                    ((h - 1) as int) * 131072,
                    (h - 1) as int,
                );
                assert(((h - 1) as int) * 131072 == 131072 * ((h - 1) as int)) by (nonlinear_arith);
                lemma_div_multiples_vanish(131072, (h - 1) as int);
                assert(0 <= v <= 131072);
                assert(u as int == u_of(i as int, self@.width));
                assert(v as int == v_of(i as int, self@.width, self@.height));
                lemma_prod_bound(self.horizontal.x as int, u as int, VIEW_BOUND as int, 0x1_0000);
                lemma_prod_bound(self.horizontal.y as int, u as int, VIEW_BOUND as int, 0x1_0000);
                lemma_prod_bound(self.horizontal.z as int, u as int, VIEW_BOUND as int, 0x1_0000);
                lemma_prod_bound(self.vertical.x as int, v as int, VIEW_BOUND as int, 0x2_0000);
                lemma_prod_bound(self.vertical.y as int, v as int, VIEW_BOUND as int, 0x2_0000);
                lemma_prod_bound(self.vertical.z as int, v as int, VIEW_BOUND as int, 0x2_0000);
            }
            let su: Vec3 = self.horizontal.scale(u);
            let sv: Vec3 = self.vertical.scale(v);
            proof {
                lemma_fmul_bound(self.horizontal.x as int, u as int, VIEW_BOUND as int, 0x1_0000);
                lemma_fmul_bound(self.horizontal.y as int, u as int, VIEW_BOUND as int, 0x1_0000);
                lemma_fmul_bound(self.vertical.x as int, v as int, VIEW_BOUND as int, 0x2_0000);
                lemma_fmul_bound(self.vertical.y as int, v as int, VIEW_BOUND as int, 0x2_0000);
                assert(su@.z == fmul(0, u as int));
                assert(0 * (u as int) == 0) by (nonlinear_arith);
                assert(tdiv(0, SCALE as int) == 0);
                assert(sv@.z == fmul(0, v as int));
                assert(0 * (v as int) == 0) by (nonlinear_arith);
                // the corner cache is bounded because its parts are
                lemma_tdiv_mag(
                    (self.horizontal.x as int) * (SCALE as int),
                    2 * (SCALE as int),
                );
                lemma_tdiv_mag(
                    (self.horizontal.y as int) * (SCALE as int),
                    2 * (SCALE as int),
                );
                lemma_tdiv_mag((self.vertical.x as int) * (SCALE as int), 2 * (SCALE as int));
                lemma_tdiv_mag((self.vertical.y as int) * (SCALE as int), 2 * (SCALE as int));
                lemma_prod_bound(
                    self.horizontal.x as int,
                    SCALE as int,
                    VIEW_BOUND as int,
                    SCALE as int,
                );
                lemma_prod_bound(
                    self.horizontal.y as int,
                    SCALE as int,
                    VIEW_BOUND as int,
                    SCALE as int,
                );
                lemma_prod_bound(
                    self.vertical.x as int,
                    SCALE as int,
                    VIEW_BOUND as int,
                    SCALE as int,
                );
                lemma_prod_bound(
                    self.vertical.y as int,
                    SCALE as int,
                    VIEW_BOUND as int,
                    SCALE as int,
                );
                assert(tdiv(0 * (SCALE as int), 2 * (SCALE as int)) == 0);
                assert(v3_within(self@.lower_left_corner, 3 * (VIEW_BOUND as int)));
                assert(self@.lower_left_corner.z == self@.origin.z - self@.focal_length);
            }
            let direction: Vec3 = self.lower_left_corner.add(su).add(sv).sub_point(self.origin);
            let ray: Ray = Ray { origin: self.origin, direction };
            proof {
                assert(direction@.z == -self@.focal_length);
                lemma_fmul_sq_nonneg(direction@.x);
                lemma_fmul_sq_nonneg(direction@.y);
                assert((self.focal_length as int) * (self.focal_length as int) >= 65536)
                    by (nonlinear_arith)
                    requires
                        self.focal_length >= 256,
                ;
                assert((-(self.focal_length as int)) * (-(self.focal_length as int)) == (
                self.focal_length as int) * (self.focal_length as int)) by (nonlinear_arith);
                lemma_div_is_ordered(
                    65536,
                    (self.focal_length as int) * (self.focal_length as int),
                    65536,
                );
                assert(fmul(direction@.z, direction@.z) >= 1);
                assert(ray_ok(ray@));
                assert(ray@ == pixel_ray_m(self@, i as int));
            }
            let colour: Colour = self.ray_colour(ray);
            let base: usize = 4 * i;
            frame.set(base, colour.r_u8());
            frame.set(base + 1, colour.g_u8());
            frame.set(base + 2, colour.b_u8());
            frame.set(base + 3, 0xff);
            proof {
                assert(frame@[4 * (i as int) + 0] == pixel_chan_m(self@, i as int, 0));
                assert(frame@[4 * (i as int) + 1] == pixel_chan_m(self@, i as int, 1));
                assert(frame@[4 * (i as int) + 2] == pixel_chan_m(self@, i as int, 2));
                assert(frame@[4 * (i as int) + 3] == pixel_chan_m(self@, i as int, 3));
            }
            i = i + 1;
        }
    }

    /// Scan every object and keep the nearest hit: each object is queried
    /// inside the window closed down to the best time seen so far.
    pub fn hit_object(&self, ray: Ray, t_min: i64, t_max: i64) -> (r: Option<HitRecord>)
        requires
            self.wf(),
            ray_ok(ray@),
            window_ok(t_min as int, t_max as int),
        ensures
            opt_hit_view(r) == resolve_m(self@.spheres, ray@, t_min as int, t_max as int),
    {
        let mut closest_so_far: i64 = t_max;
        let mut closest_hit_record: Option<HitRecord> = None;
        let n: usize = self.hittable_list.len();
        let mut idx: usize = 0;
        while idx < n
            invariant
                self.wf(),
                ray_ok(ray@),
                window_ok(t_min as int, t_max as int),
                window_ok(t_min as int, closest_so_far as int),
                n == self.hittable_list.len(),
                idx <= n,
                resolve_from(
                    self@.spheres,
                    ray@,
                    t_min as int,
                    idx as int,
                    closest_so_far as int,
                    opt_hit_view(closest_hit_record),
                ) == resolve_m(self@.spheres, ray@, t_min as int, t_max as int),
            decreases n - idx,
        {
            let object: &Sphere = &self.hittable_list[idx];
            proof {
                assert(self@.spheres[idx as int] == object@);
                crate::sphere::lemma_hit_time_in_window(
                    object@,
                    ray@,
                    t_min as int,
                    closest_so_far as int,
                );
            }
            if let Some(hit_record) = object.hit(ray, t_min, closest_so_far) {
                closest_so_far = hit_record.time;
                closest_hit_record = Some(hit_record);
            }
            idx = idx + 1;
        }
        closest_hit_record
    }

    /// Shade one ray: the nearest hit in [0, T_LIMIT] colours by its normal,
    /// 0.5 * (normal + (1,1,1)); a miss blends white toward sky-blue by the
    /// unit direction's height. Channels always land in [0, 1].
    pub fn ray_colour(&self, ray: Ray) -> (r: Colour)
        requires
            self.wf(),
            ray_ok(ray@),
        ensures
            r@ == shade_m(self@.spheres, ray@),
            0 <= r.r <= SCALE,
            0 <= r.g <= SCALE,
            0 <= r.b <= SCALE,
    {
        if let Some(hit_record) = self.hit_object(ray, 0, T_LIMIT) {
            return Colour {
                r: shade_chan(hit_record.normal.x),
                g: shade_chan(hit_record.normal.y),
                b: shade_chan(hit_record.normal.z),
            };
        }
        let unit_direction: Vec3 = ray.direction.unit_vector();
        let t: i64 = shade_chan(unit_direction.y);
        Colour {
            r: lerp_chan(t, BLUE_R),
            g: lerp_chan(t, BLUE_G),
            b: lerp_chan(t, BLUE_B),
        }
    }
}

} // verus!
