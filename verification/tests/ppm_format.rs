//! The plain-text image format, byte for byte.

use raycast::colour::Colour;
use raycast::ppm::ppm_from_frame;
use raycast::world::World;
use raycast::sphere::Sphere;
use raycast::point3::Point3;

#[test]
fn two_by_one_image_is_exact() {
    let mut frame: Vec<u8> = Vec::new();
    frame.extend_from_slice(&Colour { r: 0, g: 32768, b: 65536 }.slice_u8());
    frame.extend_from_slice(&Colour { r: 65536, g: 65536, b: 65536 }.slice_u8());
    let out = ppm_from_frame(2, 1, &frame);
    assert_eq!(
        String::from_utf8(out).unwrap(),
        "P3\n2 1\n255\n0 127 255 255 255 255 \n"
    );
}

#[test]
fn one_by_one_image_is_exact() {
    let frame: Vec<u8> = vec![7, 42, 255, 255];
    let out = ppm_from_frame(1, 1, &frame);
    assert_eq!(String::from_utf8(out).unwrap(), "P3\n1 1\n255\n7 42 255 \n");
}

#[test]
fn rows_end_in_newlines() {
    let frame: Vec<u8> = vec![1, 2, 3, 255, 4, 5, 6, 255];
    let out = ppm_from_frame(1, 2, &frame);
    assert_eq!(String::from_utf8(out).unwrap(), "P3\n1 2\n255\n1 2 3 \n4 5 6 \n");
}

#[test]
fn rendered_scene_serializes() {
    let mut w = World::new(3, 4);
    w.add_sphere(Sphere { radius: 32768, center: Point3 { x: 0, y: 0, z: -65536 } });
    let mut frame: Vec<u8> = vec![0; 48];
    w.draw(&mut frame);
    let out = String::from_utf8(ppm_from_frame(4, 3, &frame)).unwrap();
    let lines: Vec<&str> = out.lines().collect();
    assert_eq!(lines.len(), 6);
    assert_eq!(lines[0], "P3");
    assert_eq!(lines[1], "4 3");
    assert_eq!(lines[2], "255");
    assert_eq!(lines[3], "142 187 255 135 183 255 135 183 255 142 187 255 ");
    assert_eq!(lines[4], "158 197 255 148 190 255 148 190 255 158 197 255 ");
    assert_eq!(lines[5], "191 216 255 63 127 237 191 127 237 191 216 255 ");
}
