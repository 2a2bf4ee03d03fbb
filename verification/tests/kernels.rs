//! Exact scenarios for the two intersection kernels.
use ray_tracer::intersect::triangle_intersection;
use ray_tracer::slab::ray_cube_intersect;
use ray_tracer::tree::Triangle;
use ray_tracer::vec3::Vec3;

fn v(x: i64, y: i64, z: i64) -> Vec3 {
    Vec3 { x, y, z }
}

fn tri(a: Vec3, b: Vec3, c: Vec3) -> Triangle {
    Triangle { v0: a, v1: b, v2: c }
}

/// The canonical hit scenario, on a grid scaled by 25: the triangle
/// (0,0,0)-(1,0,0)-(0,1,0), a ray from (0,0,-5) toward (0.2,0.2,0),
/// hits at t = 5 in the point (0.2, 0.2, 0).
#[test]
fn unit_triangle_hit_at_t5() {
    let t = tri(v(0, 0, 0), v(25, 0, 0), v(0, 25, 0));
    let orig = v(0, 0, -125);
    let dir = v(1, 1, 25);
    let h = triangle_intersection(orig, dir, &t).expect("must hit");
    // t == 5 exactly
    assert_eq!(h.t.num as i128, 5 * h.t.den as i128);
    // the raw representation: |det| = 15625, t_num = 78125
    assert_eq!(h.t.den, 15625);
    assert_eq!(h.t.num, 78125);
    // hit point (5, 5, 0) on the scaled grid, i.e. (0.2, 0.2, 0)
    assert_eq!(h.point.xn, 5 * h.point.den);
    assert_eq!(h.point.yn, 5 * h.point.den);
    assert_eq!(h.point.zn, 0);
}

/// The same triangle missed past its hypotenuse (u + v > 1): a ray from
/// (0,0,-5) toward (2,2,0).
#[test]
fn unit_triangle_miss_past_hypotenuse() {
    let t = tri(v(0, 0, 0), v(25, 0, 0), v(0, 25, 0));
    let orig = v(0, 0, -125);
    let dir = v(50, 50, 125);
    assert!(triangle_intersection(orig, dir, &t).is_none());
}

/// A ray parallel to the triangle's plane never hits (determinant zero).
#[test]
fn parallel_ray_misses() {
    let t = tri(v(0, 0, 0), v(25, 0, 0), v(0, 25, 0));
    let orig = v(0, 0, -125);
    let dir = v(1, 1, 0);
    assert!(triangle_intersection(orig, dir, &t).is_none());
}

/// A degenerate (zero-area) triangle is never hit, whatever the ray.
#[test]
fn degenerate_triangle_never_hits() {
    let t = tri(v(0, 0, 0), v(7, 7, 7), v(14, 14, 14));
    let rays = [
        (v(0, 0, -125), v(1, 1, 25)),
        (v(3, 3, 3), v(1, 0, 0)),
        (v(-5, 2, 0), v(2, 1, 1)),
        (v(7, 7, 6), v(0, 0, 1)),
    ];
    for (o, d) in rays {
        assert!(triangle_intersection(o, d, &t).is_none());
    }
}

/// The kernel itself reports hits behind the origin with a negative t;
/// range filtering is the caller's job.
#[test]
fn kernel_reports_negative_t() {
    let t = tri(v(0, 0, 0), v(25, 0, 0), v(0, 25, 0));
    let orig = v(1, 1, 5);
    let dir = v(0, 0, 1);
    let h = triangle_intersection(orig, dir, &t).expect("plane is behind, still a kernel hit");
    assert!(h.t.num < 0);
    assert_eq!(h.t.num as i128, -5 * h.t.den as i128);
}

#[test]
fn slab_direct_hit() {
    assert!(ray_cube_intersect(v(0, 0, -10), v(0, 0, 1), v(-1, -1, -1), v(1, 1, 1)));
}

#[test]
fn slab_miss_sideways() {
    assert!(!ray_cube_intersect(v(0, 0, -10), v(1, 0, 0), v(-1, -1, -1), v(1, 1, 1)));
}

/// Box entirely behind the ray origin: the interval ends before t = 0.
#[test]
fn slab_box_behind_origin() {
    assert!(!ray_cube_intersect(v(0, 0, 10), v(0, 0, 1), v(-1, -1, -1), v(1, 1, 1)));
}

/// Ray parallel to two slabs, origin inside them: only the third axis
/// constrains, and it hits.
#[test]
fn slab_parallel_axis_inside() {
    assert!(ray_cube_intersect(v(0, 0, -10), v(0, 0, 5), v(-1, -1, -1), v(1, 1, 1)));
}

/// Ray parallel to a slab pair with the origin outside them misses the box
/// no matter what the other axes do.
#[test]
fn slab_parallel_axis_outside() {
    assert!(!ray_cube_intersect(v(5, 0, -10), v(0, 0, 1), v(-1, -1, -1), v(1, 1, 1)));
}

/// A zero direction hits exactly when the origin is inside the box.
#[test]
fn slab_zero_direction() {
    assert!(ray_cube_intersect(v(0, 0, 0), v(0, 0, 0), v(-1, -1, -1), v(1, 1, 1)));
    assert!(!ray_cube_intersect(v(2, 0, 0), v(0, 0, 0), v(-1, -1, -1), v(1, 1, 1)));
}

/// Touching the box exactly at a corner counts as reaching it.
#[test]
fn slab_corner_touch() {
    assert!(ray_cube_intersect(v(-2, -2, -2), v(1, 1, 1), v(1, 1, 1), v(3, 3, 3)));
}
