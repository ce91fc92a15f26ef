//! Vector arithmetic on fixed-point raw values: one raw unit is 65536.

use raycast::vec3::Vec3;

fn fx(v: i64) -> i64 {
    v * 65536
}

#[test]
fn test_vec3() {
    let a = Vec3 { x: fx(1), y: fx(2), z: fx(3) };
    assert_eq!(a.x, fx(1));
    assert_eq!(a.y, fx(2));
    assert_eq!(a.z, fx(3));
}

#[test]
fn test_eq() {
    let a = Vec3 { x: fx(1), y: fx(2), z: fx(3) };
    let b = Vec3 { x: fx(1), y: fx(2), z: fx(3) };
    assert_eq!(a, b);
}

#[test]
fn test_add() {
    let a = Vec3 { x: fx(1), y: fx(2), z: fx(3) };
    let b = Vec3 { x: fx(10), y: fx(20), z: fx(30) };
    let expected = Vec3 { x: fx(11), y: fx(22), z: fx(33) };
    assert_eq!(a.add(b), expected);
}

#[test]
fn test_sub() {
    let a = Vec3 { x: fx(10), y: fx(20), z: fx(30) };
    let b = Vec3 { x: fx(1), y: fx(2), z: fx(3) };
    let expected = Vec3 { x: fx(9), y: fx(18), z: fx(27) };
    assert_eq!(a.sub(b), expected);
}

#[test]
fn test_mul_scalar() {
    let a = Vec3 { x: fx(1), y: fx(2), z: fx(3) };
    let mul: i64 = fx(3);
    let expected = Vec3 { x: fx(3), y: fx(6), z: fx(9) };
    assert_eq!(a.scale(mul), expected);
}

#[test]
fn test_mul_vec3() {
    let a = Vec3 { x: fx(1), y: fx(2), z: fx(3) };
    let b = Vec3 { x: fx(2), y: fx(3), z: fx(4) };
    let expected = Vec3 { x: fx(2), y: fx(6), z: fx(12) };
    assert_eq!(a.mul(b), expected);
}

#[test]
fn test_div() {
    let a = Vec3 { x: fx(11), y: fx(22), z: fx(33) };
    let div: i64 = fx(11);
    let expected = Vec3 { x: fx(1), y: fx(2), z: fx(3) };
    assert_eq!(a.div(div), expected);
}

#[test]
fn test_div_fraction() {
    // 4.5 and 1.5 are exact at this scale: 4.5 * 65536 = 294912.
    let a = Vec3 { x: fx(9), y: 294912, z: fx(3) };
    let div: i64 = fx(3);
    let expected = Vec3 { x: fx(3), y: 98304, z: fx(1) };
    assert_eq!(a.div(div), expected);
}

#[test]
fn test_dot() {
    let a = Vec3 { x: fx(1), y: fx(2), z: fx(3) };
    let b = Vec3 { x: fx(4), y: fx(5), z: fx(5) };
    assert_eq!(a.dot(b), fx(29));
}

#[test]
fn test_cross() {
    let a = Vec3 { x: fx(1), y: fx(-2), z: fx(3) };
    let b = Vec3 { x: fx(-4), y: fx(5), z: fx(-5) };
    let expected = Vec3 { x: fx(-5), y: fx(-7), z: fx(-3) };
    assert_eq!(a.cross(b), expected);
}

#[test]
fn test_length_squared() {
    let a = Vec3 { x: fx(1), y: fx(2), z: fx(3) };
    assert_eq!(a.length_squared(), fx(14));
}

#[test]
fn test_length() {
    // The rounded-down fixed-point square root of 14: floor(65536 * sqrt(14)).
    let a = Vec3 { x: fx(1), y: fx(2), z: fx(3) };
    assert_eq!(a.length(), 245213);
}

#[test]
fn test_unit_vector() {
    // (2, 4, 4) has exact length 6; the unit components truncate toward zero.
    let a = Vec3 { x: fx(2), y: fx(4), z: fx(4) };
    let expected = Vec3 { x: 21845, y: 43690, z: 43690 };
    assert_eq!(a.unit_vector(), expected);
}

#[test]
fn unit_vector_length_near_one() {
    // The length of a normalized vector is one unit up to truncation loss.
    let vectors = [
        Vec3 { x: fx(1), y: fx(2), z: fx(3) },
        Vec3 { x: fx(2), y: fx(4), z: fx(4) },
        Vec3 { x: fx(-7), y: fx(1), z: fx(5) },
        Vec3 { x: fx(1), y: 0, z: 0 },
        Vec3 { x: 0, y: fx(-1), z: 0 },
    ];
    for v in vectors {
        let u = v.unit_vector();
        let len = u.length();
        assert!(65530 <= len && len <= 65536, "length {} out of tolerance", len);
    }
}

#[test]
fn cross_anti_commutative_values() {
    let a = Vec3 { x: fx(3), y: fx(-1), z: fx(2) };
    let b = Vec3 { x: fx(5), y: fx(4), z: fx(-6) };
    let ab = a.cross(b);
    let ba = b.cross(a);
    assert_eq!(ab, ba.neg());
}
