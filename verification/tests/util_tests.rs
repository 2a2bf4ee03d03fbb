//! Vector arithmetic, rational comparison, BMP header and mesh-assembly
//! checks.
use ray_tracer::bmp::{bmp_file_header, bmp_file_size, bmp_info_header, bmp_row_padding};
use ray_tracer::mesh::fan_triangles;
use ray_tracer::rat::Rat;
use ray_tracer::tree::{vec_volume, Triangle};
use ray_tracer::vec3::{
    approx_eq, cross_product, dot_product, max_coor, min_coor, square_distance, Vec3,
};
use ray_tracer::Color;

fn v(x: i64, y: i64, z: i64) -> Vec3 {
    Vec3 { x, y, z }
}

#[test]
fn vector_arithmetic() {
    assert_eq!(v(1, 2, 3).add(v(10, 20, 30)), v(11, 22, 33));
    assert_eq!(v(1, 2, 3).sub(v(10, 20, 30)), v(-9, -18, -27));
    assert_eq!(v(1, -2, 3).mul(-4), v(-4, 8, -12));
    assert_eq!(dot_product(v(1, 2, 3), v(4, -5, 6)), 4 - 10 + 18);
    assert_eq!(cross_product(v(1, 0, 0), v(0, 1, 0)), v(0, 0, 1));
    assert_eq!(cross_product(v(2, 3, 4), v(5, 6, 7)), v(-3, 6, -3));
    assert_eq!(min_coor(v(1, 5, -3), v(2, -4, 0)), v(1, -4, -3));
    assert_eq!(max_coor(v(1, 5, -3), v(2, -4, 0)), v(2, 5, 0));
    assert_eq!(square_distance(v(1, 2, 3), v(4, 6, 3)), 9 + 16);
    assert_eq!(vec_volume(v(2, 3, 4)), 24);
    assert_eq!(vec_volume(v(2, 0, 4)), 0);
}

#[test]
fn approximate_equality() {
    assert!(approx_eq(v(10, 10, 10), v(11, 9, 10), 2));
    assert!(!approx_eq(v(10, 10, 10), v(12, 9, 10), 2));
    assert!(!approx_eq(v(1, 2, 3), v(1, 2, 3), 0));
    assert!(approx_eq(v(1, 2, 3), v(1, 2, 3), 1));
}

#[test]
fn rational_comparison() {
    let half = Rat { num: 1, den: 2 };
    let also_half = Rat { num: 2, den: 4 };
    let third = Rat { num: 1, den: 3 };
    let neg = Rat { num: -1, den: 5 };
    assert!(half.le(&also_half));
    assert!(also_half.le(&half));
    assert!(third.le(&half));
    assert!(!half.le(&third));
    assert!(neg.le(&third));
    assert!(!third.le(&neg));
}

#[test]
fn bmp_headers_exact_bytes() {
    // 720 x 720 pixels: 54 + 3*720*720 == 1555254 == 0x17BB36.
    let size = bmp_file_size(720, 720);
    assert_eq!(size, 1555254);
    let fh = bmp_file_header(size as u32);
    assert_eq!(fh.len(), 14);
    assert_eq!(fh[0], b'B');
    assert_eq!(fh[1], b'M');
    assert_eq!(&fh[2..6], &[0x36, 0xBB, 0x17, 0x00]);
    assert_eq!(&fh[6..10], &[0, 0, 0, 0]);
    assert_eq!(fh[10], 54);
    assert_eq!(&fh[11..14], &[0, 0, 0]);

    let ih = bmp_info_header(720, 720);
    assert_eq!(ih.len(), 40);
    assert_eq!(ih[0], 40);
    assert_eq!(&ih[1..4], &[0, 0, 0]);
    // 720 == 0x2D0, little-endian
    assert_eq!(&ih[4..8], &[0xD0, 0x02, 0x00, 0x00]);
    assert_eq!(&ih[8..12], &[0xD0, 0x02, 0x00, 0x00]);
    assert_eq!(ih[12], 1);
    assert_eq!(ih[13], 0);
    assert_eq!(ih[14], 24);
    for i in 15..40 {
        assert_eq!(ih[i], 0);
    }
}

#[test]
fn bmp_padding_formula() {
    assert_eq!(bmp_row_padding(720), 0);
    assert_eq!(bmp_row_padding(1), 1);
    assert_eq!(bmp_row_padding(2), 2);
    assert_eq!(bmp_row_padding(3), 3);
    assert_eq!(bmp_row_padding(4), 0);
}

#[test]
fn fan_triangles_quad() {
    let verts = vec![v(0, 0, 0), v(1, 0, 0), v(1, 1, 0), v(0, 1, 0)];
    let face = vec![1usize, 2, 3, 4];
    let tris = fan_triangles(&verts, &face).expect("valid face");
    assert_eq!(tris.len(), 2);
    assert_eq!(
        tris[0],
        Triangle { v0: v(0, 0, 0), v1: v(1, 0, 0), v2: v(1, 1, 0) }
    );
    assert_eq!(
        tris[1],
        Triangle { v0: v(0, 0, 0), v1: v(1, 0, 0), v2: v(0, 1, 0) }
    );
}

#[test]
fn fan_triangles_rejects_bad_faces() {
    let verts = vec![v(0, 0, 0), v(1, 0, 0)];
    assert!(fan_triangles(&verts, &vec![1usize]).is_none());
    assert!(fan_triangles(&verts, &vec![1usize, 2, 3]).is_none());
    assert!(fan_triangles(&verts, &vec![0usize, 1, 2]).is_none());
    // A two-corner face is valid and yields no triangles.
    let empty = fan_triangles(&verts, &vec![1usize, 2]).expect("two corners are fine");
    assert!(empty.is_empty());
}

#[test]
fn color_is_plain_rgb() {
    let c = Color { red: 10, green: 20, blue: 30 };
    assert_eq!((c.red, c.green, c.blue), (10, 20, 30));
}
