//! Points, displacements between them, and rays.

use raycast::point3::Point3;
use raycast::ray::Ray;
use raycast::vec3::Vec3;

fn fx(v: i64) -> i64 {
    v * 65536
}

#[test]
fn test_add_vec3_to_point3() {
    let point = Point3 { x: fx(1), y: fx(2), z: fx(3) };
    let vec = Vec3 { x: fx(4), y: fx(5), z: fx(6) };
    let expected = Point3 { x: fx(5), y: fx(7), z: fx(9) };
    assert_eq!(point.add(vec), expected);
}

#[test]
fn test_point3_sub_vec3_to_point3() {
    // Quarter units are exact at this scale: 4.25 * 65536 = 278528.
    let point = Point3 { x: fx(1), y: fx(2), z: fx(3) };
    let vec = Vec3 { x: 278528, y: 360448, z: 442368 };
    let expected = Point3 { x: -212992, y: -229376, z: -245760 };
    assert_eq!(point.sub(vec), expected);
}

#[test]
fn test_point3_sub_point3_to_vec3() {
    let a = Point3 { x: fx(1), y: fx(2), z: fx(3) };
    let b = Point3 { x: 16384, y: 32768, z: 49152 };
    let expected = Vec3 { x: 49152, y: 98304, z: 147456 };
    assert_eq!(a.sub_point(b), expected);
}

#[test]
fn test_ray_at() {
    let ray = Ray {
        origin: Point3 { x: fx(1), y: 81920, z: 98304 },
        direction: Vec3 { x: fx(1), y: fx(-2), z: 0 },
    };
    let expected = Point3 { x: fx(6), y: -573440, z: 98304 };
    assert_eq!(ray.at(fx(5)), expected);
}
