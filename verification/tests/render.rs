//! Intersection, shading, camera translation and whole-frame rendering.

use raycast::hittable::Hittable;
use raycast::point3::Point3;
use raycast::ray::Ray;
use raycast::sphere::Sphere;
use raycast::colour::Colour;
use raycast::vec3::Vec3;
use raycast::world::World;

fn fx(v: i64) -> i64 {
    v * 65536
}

const T_LIMIT: i64 = 0x80_0000;

fn unit_sphere() -> Sphere {
    Sphere { radius: 32768, center: Point3 { x: 0, y: 0, z: fx(-1) } }
}

fn axis_ray() -> Ray {
    Ray {
        origin: Point3 { x: 0, y: 0, z: 0 },
        direction: Vec3 { x: 0, y: 0, z: fx(-1) },
    }
}

#[test]
fn ray_at_sphere_center_hits_at_half() {
    let hit = unit_sphere().hit(axis_ray(), 0, T_LIMIT).expect("must hit");
    assert_eq!(hit.time, 32768);
    assert!(hit.front_face);
    assert_eq!(hit.normal, Vec3 { x: 0, y: 0, z: fx(1) });
    assert_eq!(hit.point, Point3 { x: 0, y: 0, z: -32768 });
}

#[test]
fn ray_away_from_sphere_misses() {
    let ray = Ray {
        origin: Point3 { x: 0, y: 0, z: 0 },
        direction: Vec3 { x: 0, y: fx(1), z: 0 },
    };
    assert!(unit_sphere().hit(ray, 0, T_LIMIT).is_none());
}

#[test]
fn hit_outside_window_is_rejected() {
    // Both roots (0.5 and 1.5) lie beyond a window ending at 0.25.
    assert!(unit_sphere().hit(axis_ray(), 0, 16384).is_none());
    // A window starting beyond the far root rejects as well.
    assert!(unit_sphere().hit(axis_ray(), fx(2), T_LIMIT).is_none());
}

#[test]
fn back_face_flips_the_normal() {
    // From the center of the sphere, the ray strikes the inside.
    let ray = Ray {
        origin: Point3 { x: 0, y: 0, z: fx(-1) },
        direction: Vec3 { x: 0, y: 0, z: fx(-1) },
    };
    let hit = unit_sphere().hit(ray, 0, T_LIMIT).expect("must hit");
    assert!(!hit.front_face);
    assert_eq!(hit.normal, Vec3 { x: 0, y: 0, z: fx(1) });
}

fn world_with(spheres: &[Sphere]) -> World {
    let mut w = World::new(3, 4);
    for s in spheres {
        w.add_sphere(*s);
    }
    w
}

#[test]
fn scene_order_does_not_change_the_nearest_hit() {
    let near = unit_sphere();
    let far = Sphere { radius: 32768, center: Point3 { x: 0, y: 0, z: fx(-3) } };
    let w1 = world_with(&[near, far]);
    let w2 = world_with(&[far, near]);
    let h1 = w1.hit_object(axis_ray(), 0, T_LIMIT).expect("must hit");
    let h2 = w2.hit_object(axis_ray(), 0, T_LIMIT).expect("must hit");
    assert_eq!(h1, h2);
    assert_eq!(h1.time, 32768);
}

#[test]
fn straight_up_shades_to_pure_blue() {
    let w = world_with(&[unit_sphere()]);
    let ray = Ray {
        origin: Point3 { x: 0, y: 0, z: 0 },
        direction: Vec3 { x: 0, y: fx(1), z: 0 },
    };
    assert_eq!(w.ray_colour(ray), Colour { r: 32768, g: 45875, b: 65536 });
}

#[test]
fn straight_down_shades_to_pure_white() {
    let w = world_with(&[unit_sphere()]);
    let ray = Ray {
        origin: Point3 { x: 0, y: 0, z: 0 },
        direction: Vec3 { x: 0, y: fx(-1), z: 0 },
    };
    assert_eq!(w.ray_colour(ray), Colour { r: fx(1), g: fx(1), b: fx(1) });
}

#[test]
fn new_world_has_the_default_viewport() {
    let w = World::new(3, 4);
    assert_eq!(w.origin, Point3 { x: 0, y: 0, z: 0 });
    assert_eq!(w.focal_length, fx(1));
    assert_eq!(w.horizontal, Vec3 { x: 174762, y: 0, z: 0 });
    assert_eq!(w.vertical, Vec3 { x: 0, y: fx(2), z: 0 });
    assert_eq!(w.lower_left_corner, Point3 { x: -87381, y: fx(-1), z: fx(-1) });
}

#[test]
fn translate_round_trip_restores_the_corner() {
    let mut w = World::new(3, 4);
    let corner = w.lower_left_corner;
    let origin = w.origin;
    assert!(w.update(true, false, false, false));
    assert_ne!(w.lower_left_corner, corner);
    assert!(w.update(false, true, false, false));
    assert_eq!(w.lower_left_corner, corner);
    assert_eq!(w.origin, origin);
}

#[test]
fn right_wins_over_left_in_one_tick() {
    let mut w = World::new(3, 4);
    assert!(w.update(true, true, false, false));
    assert_eq!(w.origin.x, 6554);
    assert_eq!(w.origin.y, 0);
}

#[test]
fn no_keys_no_change() {
    let mut w = World::new(3, 4);
    let corner = w.lower_left_corner;
    assert!(!w.update(false, false, false, false));
    assert_eq!(w.lower_left_corner, corner);
}

#[test]
fn render_one_sphere_scene() {
    // A 4x3 frame of the default camera over one sphere dead ahead. The
    // image's vertical convention maps the bottom row near the horizon, so
    // the sphere shows in the bottom-center pixels; every corner falls back
    // to the background gradient.
    let w = world_with(&[unit_sphere()]);
    let mut frame: Vec<u8> = vec![0; 48];
    w.draw(&mut frame);
    let expected: Vec<u8> = vec![
        142, 187, 255, 255, 135, 183, 255, 255, 135, 183, 255, 255, 142, 187, 255, 255,
        158, 197, 255, 255, 148, 190, 255, 255, 148, 190, 255, 255, 158, 197, 255, 255,
        191, 216, 255, 255, 63, 127, 237, 255, 191, 127, 237, 255, 191, 216, 255, 255,
    ];
    assert_eq!(frame, expected);
    // The two bottom-center pixels struck the sphere: their colours come from
    // the surface normal (blue channel below the background's 255), while all
    // four corner pixels show the white-to-blue gradient.
    for hit_px in [(2usize, 1usize), (2, 2)] {
        let base = 4 * (hit_px.0 * 4 + hit_px.1);
        assert!(frame[base + 2] < 255);
    }
    for corner in [(0usize, 0usize), (0, 3), (2, 0), (2, 3)] {
        let base = 4 * (corner.0 * 4 + corner.1);
        assert_eq!(frame[base + 2], 255);
    }
}
