//! Exact ray/triangle intersection: the Möller–Trumbore test over integer
//! coordinates.
//!
//! Over integers the test needs no division: the barycentric coordinates
//! `u`, `v` and the ray parameter `t` are quotients by the determinant, so
//! every comparison is done on numerators with the determinant's sign taken
//! into account. A determinant of exactly zero is the parallel (or
//! degenerate-triangle) case and is never a hit.
use vstd::prelude::*;

use crate::rat::Rat;
use crate::tree::{tri_bounded, STri, Triangle};
use crate::vec3::{
    abs, cross_product, dot_product, lemma_cross_bound, lemma_cross_fits, lemma_dot_bound,
    lemma_dot_fits, lemma_mul_bound, s_cross, s_dot, s_sub, v3_bounded, Vec3, V3, COORD_LIMIT,
};

verus! {

/// Bound on the degree-three products the kernel forms (`48 * COORD_LIMIT^3`).
pub open spec fn deg3_bound() -> int {
    48 * (COORD_LIMIT as int) * (COORD_LIMIT as int) * (COORD_LIMIT as int)
}

pub open spec fn mt_e1(t: STri) -> V3 {
    s_sub(t.v1, t.v0)
}

pub open spec fn mt_e2(t: STri) -> V3 {
    s_sub(t.v2, t.v0)
}

pub open spec fn mt_tvec(o: V3, t: STri) -> V3 {
    s_sub(o, t.v0)
}

/// The determinant `e1 . (d x e2)`; zero exactly when the ray is parallel to
/// the triangle's plane or the triangle is degenerate.
pub open spec fn mt_det(o: V3, d: V3, t: STri) -> int {
    s_dot(mt_e1(t), s_cross(d, mt_e2(t)))
}

pub open spec fn mt_u_num(o: V3, d: V3, t: STri) -> int {
    s_dot(mt_tvec(o, t), s_cross(d, mt_e2(t)))
}

pub open spec fn mt_v_num(o: V3, d: V3, t: STri) -> int {
    s_dot(d, s_cross(mt_tvec(o, t), mt_e1(t)))
}

pub open spec fn mt_t_num(o: V3, d: V3, t: STri) -> int {
    s_dot(mt_e2(t), s_cross(mt_tvec(o, t), mt_e1(t)))
}

/// `|det|`: the positive denominator of `u`, `v` and `t` once signs are
/// normalized.
pub open spec fn mt_den_pos(o: V3, d: V3, t: STri) -> int {
    abs(mt_det(o, d, t))
}

pub open spec fn mt_u_pos(o: V3, d: V3, t: STri) -> int {
    if mt_det(o, d, t) >= 0 {
        mt_u_num(o, d, t)
    } else {
        -mt_u_num(o, d, t)
    }
}

pub open spec fn mt_v_pos(o: V3, d: V3, t: STri) -> int {
    if mt_det(o, d, t) >= 0 {
        mt_v_num(o, d, t)
    } else {
        -mt_v_num(o, d, t)
    }
}

pub open spec fn mt_t_num_pos(o: V3, d: V3, t: STri) -> int {
    if mt_det(o, d, t) >= 0 {
        mt_t_num(o, d, t)
    } else {
        -mt_t_num(o, d, t)
    }
}

/// The ray `o + t*d` meets the triangle: the determinant is nonzero and the
/// barycentric coordinates `u = u_pos/den`, `v = v_pos/den` satisfy
/// `u >= 0`, `v >= 0`, `u + v <= 1`, `u <= 1`. The parameter `t` is not
/// constrained here; callers restrict it to their range.
pub open spec fn mt_hits(o: V3, d: V3, t: STri) -> bool {
    &&& mt_det(o, d, t) != 0
    &&& 0 <= mt_u_pos(o, d, t)
    &&& mt_u_pos(o, d, t) <= mt_den_pos(o, d, t)
    &&& 0 <= mt_v_pos(o, d, t)
    &&& mt_u_pos(o, d, t) + mt_v_pos(o, d, t) <= mt_den_pos(o, d, t)
}

/// A point with rational coordinates `(xn/den, yn/den, zn/den)`.
#[derive(Copy, Clone, Debug, PartialEq, Eq, Structural)]
pub struct RatPoint {
    pub xn: i128,
    pub yn: i128,
    pub zn: i128,
    pub den: i128,
}

/// An intersection: the ray parameter `t` and the hit point `o + t*d`, both
/// exact.
#[derive(Copy, Clone, Debug, PartialEq, Eq, Structural)]
pub struct Hit {
    pub t: Rat,
    pub point: RatPoint,
}

/// `h` is exactly the intersection record of ray `(o, d)` with `tri`:
/// `t = t_num/|det|` sign-normalized, and the point is `o + t*d`.
pub open spec fn hit_matches(h: Hit, o: V3, d: V3, tri: STri) -> bool {
    &&& h.t.den as int == mt_den_pos(o, d, tri)
    &&& h.t.num as int == mt_t_num_pos(o, d, tri)
    &&& h.point.den as int == h.t.den as int
    &&& h.point.xn as int == o.x * (h.t.den as int) + (h.t.num as int) * d.x
    &&& h.point.yn as int == o.y * (h.t.den as int) + (h.t.num as int) * d.y
    &&& h.point.zn as int == o.z * (h.t.den as int) + (h.t.num as int) * d.z
}

/// Bounds for the kernel's inputs: vertex coordinates within `COORD_LIMIT`,
/// direction within `2 * COORD_LIMIT` (a difference of two in-bound points).
pub open spec fn ray_bounded(o: V3, d: V3) -> bool {
    &&& v3_bounded(o, COORD_LIMIT as int)
    &&& v3_bounded(d, 2 * COORD_LIMIT as int)
}

/// The Möller–Trumbore ray/triangle test, exact over integer coordinates.
/// Returns the intersection record, or `None` when the ray misses (or is
/// parallel to) the triangle.
pub fn triangle_intersection(orig: Vec3, dir: Vec3, triangle: &Triangle) -> (r: Option<Hit>)
    requires
        ray_bounded(orig@, dir@),
        tri_bounded(triangle@),
    ensures
        match r {
            None => !mt_hits(orig@, dir@, triangle@),
            Some(h) => mt_hits(orig@, dir@, triangle@) && hit_matches(h, orig@, dir@, triangle@)
                && h.t.wf(),
        },
{
    let ghost b: int = COORD_LIMIT as int;
    let e1 = triangle.v1.sub(triangle.v0);
    let e2 = triangle.v2.sub(triangle.v0);
    let tvec = orig.sub(triangle.v0);

    proof {
        lemma_cross_fits(dir@, e2@, 2 * b, 2 * b);
        lemma_cross_bound(dir@, e2@, 2 * b, 2 * b);
    }
    let pvec = cross_product(dir, e2);
    proof {
        lemma_dot_fits(e1@, pvec@, 2 * b, 8 * b * b);
        lemma_dot_bound(e1@, pvec@, 2 * b, 8 * b * b);
        lemma_dot_fits(tvec@, pvec@, 2 * b, 8 * b * b);
        lemma_dot_bound(tvec@, pvec@, 2 * b, 8 * b * b);
    }
    let det = dot_product(e1, pvec);
    if det == 0 {
        return None;
    }
    let u_num = dot_product(tvec, pvec);
    if det > 0 {
        if u_num < 0 || u_num > det {
            return None;
        }
    } else {
        if u_num > 0 || u_num < det {
            return None;
        }
    }

    proof {
        lemma_cross_fits(tvec@, e1@, 2 * b, 2 * b);
        lemma_cross_bound(tvec@, e1@, 2 * b, 2 * b);
    }
    let qvec = cross_product(tvec, e1);
    proof {
        lemma_dot_fits(dir@, qvec@, 2 * b, 8 * b * b);
        lemma_dot_bound(dir@, qvec@, 2 * b, 8 * b * b);
        lemma_dot_fits(e2@, qvec@, 2 * b, 8 * b * b);
        lemma_dot_bound(e2@, qvec@, 2 * b, 8 * b * b);
    }
    let v_num = dot_product(dir, qvec);
    if det > 0 {
        if v_num < 0 || u_num + v_num > det {
            return None;
        }
    } else {
        if v_num > 0 || u_num + v_num < det {
            return None;
        }
    }

    let t_num = dot_product(e2, qvec);
    let tn: i64 = if det > 0 {
        t_num
    } else {
        -t_num
    };
    let td: i64 = if det > 0 {
        det
    } else {
        -det
    };
    proof {
        lemma_mul_bound(orig@.x, td as int, b, deg3_bound());
        lemma_mul_bound(orig@.y, td as int, b, deg3_bound());
        lemma_mul_bound(orig@.z, td as int, b, deg3_bound());
        lemma_mul_bound(tn as int, dir@.x, deg3_bound(), 2 * b);
        lemma_mul_bound(tn as int, dir@.y, deg3_bound(), 2 * b);
        lemma_mul_bound(tn as int, dir@.z, deg3_bound(), 2 * b);
    }
    let den128 = td as i128;
    let tn128 = tn as i128;
    Some(
        Hit {
            t: Rat { num: tn, den: td },
            point: RatPoint {
                xn: (orig.x as i128) * den128 + tn128 * (dir.x as i128),
                yn: (orig.y as i128) * den128 + tn128 * (dir.y as i128),
                zn: (orig.z as i128) * den128 + tn128 * (dir.z as i128),
                den: den128,
            },
        },
    )
}

} // verus!
