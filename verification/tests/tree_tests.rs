//! Tree construction and query scenarios: leaf counts, root boxes,
//! insertion-order independence, and agreement with the brute-force scans.
use ray_tracer::query::{brute_force_any, brute_force_nearest};
use ray_tracer::tree::{build, get_bouncies, Link, Tree, Triangle};
use ray_tracer::vec3::Vec3;

fn v(x: i64, y: i64, z: i64) -> Vec3 {
    Vec3 { x, y, z }
}

fn tri(a: Vec3, b: Vec3, c: Vec3) -> Triangle {
    Triangle { v0: a, v1: b, v2: c }
}

fn count_leaves(l: &Link) -> usize {
    match l {
        Link::Empty => 0,
        Link::Triangle(_) => 1,
        Link::Node(n) => count_leaves(&n.left.root) + count_leaves(&n.right.root),
    }
}

fn collect_leaves(l: &Link, out: &mut Vec<[i64; 9]>) {
    match l {
        Link::Empty => {}
        Link::Triangle(t) => out.push([
            t.v0.x, t.v0.y, t.v0.z, t.v1.x, t.v1.y, t.v1.z, t.v2.x, t.v2.y, t.v2.z,
        ]),
        Link::Node(n) => {
            collect_leaves(&n.left.root, out);
            collect_leaves(&n.right.root, out);
        }
    }
}

fn sample_triangles() -> Vec<Triangle> {
    vec![
        tri(v(0, 0, 0), v(25, 0, 0), v(0, 25, 0)),
        tri(v(10, 10, 40), v(35, 10, 40), v(10, 35, 40)),
        tri(v(-30, -30, 10), v(-5, -30, 10), v(-30, -5, 10)),
        tri(v(50, 0, -20), v(75, 0, -20), v(50, 25, -20)),
        tri(v(0, 50, 5), v(25, 50, 5), v(0, 75, 5)),
        tri(v(-10, 0, 60), v(15, 0, 60), v(-10, 25, 60)),
        tri(v(5, 5, -50), v(30, 5, -50), v(5, 30, -50)),
    ]
}

/// Two triangles tiling the unit square: after both insertions the tree is
/// one internal node over two leaves, with box exactly (0,0,0)-(1,1,0).
#[test]
fn two_triangles_tile_unit_square() {
    let tris = vec![
        tri(v(0, 0, 0), v(1, 0, 0), v(1, 1, 0)),
        tri(v(0, 0, 0), v(1, 1, 0), v(0, 1, 0)),
    ];
    let t = build(&tris);
    let (lo, hi) = get_bouncies(&t);
    assert_eq!((lo.x, lo.y, lo.z), (0, 0, 0));
    assert_eq!((hi.x, hi.y, hi.z), (1, 1, 0));
    match &t.root {
        Link::Node(n) => {
            assert!(matches!(n.left.root, Link::Triangle(_)));
            assert!(matches!(n.right.root, Link::Triangle(_)));
        }
        _ => panic!("expected one internal node over two leaves"),
    }
}

/// An empty tree reports no hit for any ray, in both query modes.
#[test]
fn empty_tree_never_hits() {
    let t = Tree::new();
    assert!(!t.query_any(v(0, 0, -5), v(0, 0, 5)));
    assert!(!t.does_intersect(v(1, 2, 3), v(-4, -5, -6)));
    assert!(t.query_nearest(v(0, 0, -5), v(0, 0, 1)).is_none());
}

/// N insertions give exactly N leaves, and the leaf multiset is the input
/// multiset, in whatever order the triangles go in.
#[test]
fn leaf_count_and_multiset() {
    let tris = sample_triangles();
    let forward = build(&tris);
    let mut rev = tris.clone();
    rev.reverse();
    let backward = build(&rev);

    assert_eq!(count_leaves(&forward.root), tris.len());
    assert_eq!(count_leaves(&backward.root), tris.len());

    let mut leaves_f = Vec::new();
    let mut leaves_b = Vec::new();
    collect_leaves(&forward.root, &mut leaves_f);
    collect_leaves(&backward.root, &mut leaves_b);
    leaves_f.sort();
    leaves_b.sort();
    let mut expected: Vec<[i64; 9]> = tris
        .iter()
        .map(|t| {
            [
                t.v0.x, t.v0.y, t.v0.z, t.v1.x, t.v1.y, t.v1.z, t.v2.x, t.v2.y, t.v2.z,
            ]
        })
        .collect();
    expected.sort();
    assert_eq!(leaves_f, expected);
    assert_eq!(leaves_b, expected);
}

/// The root box is the exact bound of all vertices, independent of
/// insertion order.
#[test]
fn root_box_exact_and_order_independent() {
    let tris = sample_triangles();
    let forward = build(&tris);
    let mut rev = tris.clone();
    rev.reverse();
    let backward = build(&rev);

    let mut lo = (i64::MAX, i64::MAX, i64::MAX);
    let mut hi = (i64::MIN, i64::MIN, i64::MIN);
    for t in &tris {
        for p in [t.v0, t.v1, t.v2] {
            lo = (lo.0.min(p.x), lo.1.min(p.y), lo.2.min(p.z));
            hi = (hi.0.max(p.x), hi.1.max(p.y), hi.2.max(p.z));
        }
    }
    let (flo, fhi) = get_bouncies(&forward);
    let (blo, bhi) = get_bouncies(&backward);
    assert_eq!((flo.x, flo.y, flo.z), lo);
    assert_eq!((fhi.x, fhi.y, fhi.z), hi);
    assert_eq!((blo.x, blo.y, blo.z), lo);
    assert_eq!((bhi.x, bhi.y, bhi.z), hi);
}

fn sample_rays() -> Vec<(Vec3, Vec3)> {
    vec![
        (v(0, 0, -125), v(5, 5, 0)),
        (v(0, 0, -125), v(50, 50, 0)),
        (v(20, 20, 100), v(20, 20, -100)),
        (v(-20, -20, -100), v(-20, -20, 100)),
        (v(60, 10, 0), v(60, 10, -40)),
        (v(0, 60, 20), v(10, 55, 0)),
        (v(-100, -100, -100), v(100, 100, 100)),
        (v(0, 0, 30), v(0, 0, 90)),
    ]
}

/// Acceleration equivalence: the tree's queries agree with a brute-force
/// scan using the same kernels, on a spread of rays.
#[test]
fn tree_matches_brute_force() {
    let tris = sample_triangles();
    let t = build(&tris);
    for (o, target) in sample_rays() {
        assert_eq!(t.query_any(o, target), brute_force_any(&tris, o, target));
        let dir = target.sub(o);
        let th = t.query_nearest(o, dir);
        let bh = brute_force_nearest(&tris, o, dir);
        match (th, bh) {
            (None, None) => {}
            (Some(a), Some(b)) => {
                assert_eq!(a.t.num as i128 * b.t.den as i128, b.t.num as i128 * a.t.den as i128);
                assert_eq!(a.point.xn * b.point.den, b.point.xn * a.point.den);
                assert_eq!(a.point.yn * b.point.den, b.point.yn * a.point.den);
                assert_eq!(a.point.zn * b.point.den, b.point.zn * a.point.den);
            }
            _ => panic!("tree and brute force disagree on whether the ray hits"),
        }
    }
}

/// Reversed insertion order changes the tree's shape at most; every sampled
/// query answers the same.
#[test]
fn reversed_insertion_same_answers() {
    let tris = sample_triangles();
    let forward = build(&tris);
    let mut rev = tris.clone();
    rev.reverse();
    let backward = build(&rev);
    for (o, target) in sample_rays() {
        assert_eq!(forward.query_any(o, target), backward.query_any(o, target));
        let dir = target.sub(o);
        let fh = forward.query_nearest(o, dir);
        let bh = backward.query_nearest(o, dir);
        match (fh, bh) {
            (None, None) => {}
            (Some(a), Some(b)) => {
                assert_eq!(a.t.num as i128 * b.t.den as i128, b.t.num as i128 * a.t.den as i128);
            }
            _ => panic!("order of insertion changed a query answer"),
        }
    }
}

/// A ray whose box misses the root box is rejected.
#[test]
fn ray_missing_root_box_rejected() {
    let tris = sample_triangles();
    let t = build(&tris);
    // All geometry lies within |coord| <= 100; probe far off to the side.
    assert!(!t.query_any(v(5000, 5000, 0), v(5000, 5000, 100)));
    assert!(t.query_nearest(v(5000, 5000, 0), v(0, 0, 1)).is_none());
}

/// Insertion grows the root box exactly to absorb the new triangle.
#[test]
fn insert_grows_box_exactly() {
    let mut t = Tree::new();
    t.insert(&tri(v(0, 0, 0), v(10, 0, 0), v(0, 10, 0)));
    let (lo, hi) = get_bouncies(&t);
    assert_eq!((lo.x, lo.y, lo.z, hi.x, hi.y, hi.z), (0, 0, 0, 10, 10, 0));
    t.insert(&tri(v(-5, 2, 1), v(2, 2, 1), v(2, -5, 30)));
    let (lo, hi) = get_bouncies(&t);
    assert_eq!((lo.x, lo.y, lo.z, hi.x, hi.y, hi.z), (-5, -5, 0, 10, 10, 30));
}

/// The segment query stops at its target: geometry beyond the segment's end
/// is not an occlusion.
#[test]
fn segment_query_respects_range() {
    let wall = vec![tri(v(-50, -50, 10), v(50, -50, 10), v(0, 50, 10))];
    let t = build(&wall);
    // Segment from z=0 to z=5 ends before the wall at z=10.
    assert!(!t.query_any(v(0, 0, 0), v(0, 0, 5)));
    // Segment from z=0 to z=20 crosses it.
    assert!(t.query_any(v(0, 0, 0), v(0, 0, 20)));
    // The forward ray sees it too.
    let h = t.query_nearest(v(0, 0, 0), v(0, 0, 1)).expect("wall ahead");
    assert_eq!(h.t.num as i128, 10 * h.t.den as i128);
}

/// Degenerate (zero-area) triangles may sit in the tree without ever
/// producing a hit; construction does not crash on them.
#[test]
fn degenerate_triangles_in_tree_never_hit() {
    let tris = vec![
        tri(v(0, 0, 10), v(20, 0, 10), v(40, 0, 10)),    // collinear
        tri(v(5, 5, 5), v(5, 5, 5), v(5, 5, 5)),         // a point
        tri(v(-10, 0, 10), v(-10, 20, 10), v(-10, 10, 10)), // collinear, vertical
    ];
    let t = build(&tris);
    assert_eq!(count_leaves(&t.root), 3);
    for (o, target) in sample_rays() {
        assert!(!t.query_any(o, target));
        assert!(t.query_nearest(o, target.sub(o)).is_none());
    }
    // A ray aimed straight at the collinear segment still reports nothing.
    assert!(!t.query_any(v(20, -50, 10), v(20, 50, 10)));
}

/// Geometry at the very edge of the coordinate range is handled exactly,
/// with no overflow anywhere in the kernels.
#[test]
fn extreme_coordinates() {
    const L: i64 = 262144;
    let tris = vec![
        tri(v(-L, -L, L), v(L, -L, L), v(0, L, L)),
        tri(v(-L, -L, -L), v(L, -L, -L), v(0, L, -L)),
    ];
    let t = build(&tris);
    let (lo, hi) = get_bouncies(&t);
    assert_eq!((lo.x, lo.y, lo.z), (-L, -L, -L));
    assert_eq!((hi.x, hi.y, hi.z), (L, L, L));
    let h = t
        .query_nearest(v(0, 0, 0), v(0, 0, 2 * L))
        .expect("the near plane is straight ahead");
    // Nearest of the two planes is at z = +L along +z from the origin.
    assert_eq!(h.point.zn, L as i128 * h.point.den);
    assert!(t.query_any(v(0, 0, 0), v(0, 0, L)));
    assert!(!t.query_any(v(0, 0, 0), v(0, 0, L - 1)));
}

/// The nearest query returns the nearest of several hits, not the first
/// found.
#[test]
fn nearest_picks_smallest_t() {
    let tris = vec![
        tri(v(-50, -50, 30), v(50, -50, 30), v(0, 50, 30)),
        tri(v(-50, -50, 10), v(50, -50, 10), v(0, 50, 10)),
        tri(v(-50, -50, 20), v(50, -50, 20), v(0, 50, 20)),
    ];
    let t = build(&tris);
    let h = t.query_nearest(v(0, 0, 0), v(0, 0, 1)).expect("walls ahead");
    assert_eq!(h.t.num as i128, 10 * h.t.den as i128);
    assert_eq!(h.point.zn, 10 * h.point.den);
}
