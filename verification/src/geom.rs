//! The geometric facts behind BVH pruning.
//!
//! The traversal skips a subtree when the slab test misses the subtree's
//! box. That is sound because a ray/triangle intersection is a point of the
//! ray inside the triangle, hence inside the triangle's bounding box, hence
//! inside every enclosing node box. The key algebraic step is Cramer's rule
//! for the Möller–Trumbore linear system: the determinant-scaled hit point
//! is a nonnegative combination of the triangle's vertices.
use vstd::prelude::*;

use crate::intersect::{
    mt_den_pos, mt_det, mt_e1, mt_e2, mt_hits, mt_t_num, mt_t_num_pos, mt_tvec, mt_u_num,
    mt_v_num,
};
use crate::slab::{axis_ok, in_box_at, ray_reaches_box};
use crate::tree::{sbox_contains_tri, SBox, STri};
use crate::vec3::{s_cross, s_dot, s_sub, V3};

verus! {

/// One scalar component of Cramer's rule for the system
/// `u*e1 + v*e2 - t*d == tv`: with `det`, `t_num`, `u_num`, `v_num` the four
/// scalar triple products of the Möller–Trumbore test written out,
/// Three-way distribution of a product over a sum.
proof fn lemma_distrib3(u: int, v: int, w: int, s: int)
    by (nonlinear_arith)
    ensures
        (u + v + w) * s == u * s + v * s + w * s,
{
}

/// Rearrangement of a three-factor product.
proof fn lemma_ac_abc(x: int, y: int, z: int)
    by (nonlinear_arith)
    ensures
        x * (y * z) == z * (x * y),
{
}

/// A common factor pulled out of a difference of three-factor products.
proof fn lemma_factor_pair(p: int, a: int, b: int, c: int, d: int)
    by (nonlinear_arith)
    ensures
        (a * p) * b - (c * p) * d == p * (a * b - c * d),
{
}

/// `det*tv + t_num*d == u_num*e1 + v_num*e2` holds componentwise.
proof fn lemma_cramer_scalar(
    dx: int,
    dy: int,
    dz: int,
    e1x: int,
    e1y: int,
    e1z: int,
    e2x: int,
    e2y: int,
    e2z: int,
    tx: int,
    ty: int,
    tz: int,
)
    ensures
        (e1x * (dy * e2z - dz * e2y) + e1y * (dz * e2x - dx * e2z) + e1z * (dx * e2y - dy * e2x))
            * tx + (e2x * (ty * e1z - tz * e1y) + e2y * (tz * e1x - tx * e1z) + e2z * (tx * e1y
            - ty * e1x)) * dx == (tx * (dy * e2z - dz * e2y) + ty * (dz * e2x - dx * e2z) + tz * (
        dx * e2y - dy * e2x)) * e1x + (dx * (ty * e1z - tz * e1y) + dy * (tz * e1x - tx * e1z)
            + dz * (tx * e1y - ty * e1x)) * e2x,
{
    let px = dy * e2z - dz * e2y;
    let py = dz * e2x - dx * e2z;
    let pz = dx * e2y - dy * e2x;
    let qx = ty * e1z - tz * e1y;
    let qy = tz * e1x - tx * e1z;
    let qz = tx * e1y - ty * e1x;
    // Distribute the four dot products against their outer factors.
    lemma_distrib3(e1x * px, e1y * py, e1z * pz, tx);
    lemma_distrib3(e2x * qx, e2y * qy, e2z * qz, dx);
    lemma_distrib3(tx * px, ty * py, tz * pz, e1x);
    lemma_distrib3(dx * qx, dy * qy, dz * qz, e2x);
    // Pair off the twelve monomials; each pair leaves a common factor.
    lemma_factor_pair(px, e1x, tx, tx, e1x);
    lemma_factor_pair(py, e1y, tx, ty, e1x);
    lemma_factor_pair(pz, e1z, tx, tz, e1x);
    lemma_factor_pair(qx, e2x, dx, dx, e2x);
    lemma_factor_pair(qy, e2y, dx, dy, e2x);
    lemma_factor_pair(qz, e2z, dx, dz, e2x);
    // The leftover factors are (up to sign) the components of q and p again.
    lemma_mul_comm(e1x, tx);
    lemma_mul_comm(e1y, tx);
    lemma_mul_comm(e1z, tx);
    lemma_mul_comm(e2x, dx);
    lemma_mul_comm(e2y, dx);
    lemma_mul_comm(e2z, dx);
    lemma_mul_comm(ty, e1x);
    lemma_mul_comm(tz, e1x);
    lemma_mul_comm(dy, e2x);
    lemma_mul_comm(dz, e2x);
    assert(py * (e1y * tx - ty * e1x) == py * qz) by {
        assert(e1y * tx - ty * e1x == qz);
    }
    assert(pz * (e1z * tx - tz * e1x) == pz * (-qy)) by {
        assert(e1z * tx - tz * e1x == -qy);
    }
    assert(qy * (e2y * dx - dy * e2x) == qy * pz) by {
        assert(e2y * dx - dy * e2x == pz);
    }
    assert(qz * (e2z * dx - dz * e2x) == qz * (-py)) by {
        assert(e2z * dx - dz * e2x == -py);
    }
    // And those cross terms cancel in pairs.
    assert(pz * (-qy) == -(pz * qy)) by (nonlinear_arith);
    assert(qz * (-py) == -(qz * py)) by (nonlinear_arith);
    lemma_mul_comm(py, qz);
    lemma_mul_comm(pz, qy);
    assert(px * (e1x * tx - tx * e1x) == 0) by {
        assert(e1x * tx - tx * e1x == 0);
    }
    assert(qx * (e2x * dx - dx * e2x) == 0) by {
        assert(e2x * dx - dx * e2x == 0);
    }
}

/// Products commute.
proof fn lemma_mul_comm(a: int, b: int)
    by (nonlinear_arith)
    ensures
        a * b == b * a,
{
}

/// Multiplication distributes over subtraction.
proof fn lemma_mul_sub(a: int, b: int, c: int)
    by (nonlinear_arith)
    ensures
        a * (b - c) == a * b - a * c,
{
}

/// A nonnegative combination of values in `[lo, hi]` lies between `lo` and
/// `hi` times the total weight.
proof fn lemma_convex_bound(
    w0: int,
    w1: int,
    w2: int,
    a0: int,
    a1: int,
    a2: int,
    lo: int,
    hi: int,
)
    by (nonlinear_arith)
    requires
        w0 >= 0,
        w1 >= 0,
        w2 >= 0,
        lo <= a0 <= hi,
        lo <= a1 <= hi,
        lo <= a2 <= hi,
    ensures
        lo * (w0 + w1 + w2) <= w0 * a0 + w1 * a1 + w2 * a2,
        w0 * a0 + w1 * a1 + w2 * a2 <= hi * (w0 + w1 + w2),
{
}

/// Cramer's rule, vector form: the determinant-scaled hit point
/// `det*o + t_num*d` is the vertex combination weighted by
/// `(det - u_num - v_num, u_num, v_num)`.
proof fn lemma_mt_point_identity(o: V3, d: V3, t: STri)
    ensures
        mt_det(o, d, t) * o.x + mt_t_num(o, d, t) * d.x == (mt_det(o, d, t) - mt_u_num(o, d, t)
            - mt_v_num(o, d, t)) * t.v0.x + mt_u_num(o, d, t) * t.v1.x + mt_v_num(o, d, t)
            * t.v2.x,
        mt_det(o, d, t) * o.y + mt_t_num(o, d, t) * d.y == (mt_det(o, d, t) - mt_u_num(o, d, t)
            - mt_v_num(o, d, t)) * t.v0.y + mt_u_num(o, d, t) * t.v1.y + mt_v_num(o, d, t)
            * t.v2.y,
        mt_det(o, d, t) * o.z + mt_t_num(o, d, t) * d.z == (mt_det(o, d, t) - mt_u_num(o, d, t)
            - mt_v_num(o, d, t)) * t.v0.z + mt_u_num(o, d, t) * t.v1.z + mt_v_num(o, d, t)
            * t.v2.z,
{
    let det = mt_det(o, d, t);
    let un = mt_u_num(o, d, t);
    let vn = mt_v_num(o, d, t);
    let tn = mt_t_num(o, d, t);
    let e1 = mt_e1(t);
    let e2 = mt_e2(t);
    let tv = mt_tvec(o, t);
    lemma_cramer_scalar(
        d.x, d.y, d.z, e1.x, e1.y, e1.z, e2.x, e2.y, e2.z, tv.x, tv.y, tv.z,
    );
    lemma_cramer_scalar(
        d.y, d.z, d.x, e1.y, e1.z, e1.x, e2.y, e2.z, e2.x, tv.y, tv.z, tv.x,
    );
    lemma_cramer_scalar(
        d.z, d.x, d.y, e1.z, e1.x, e1.y, e2.z, e2.x, e2.y, tv.z, tv.x, tv.y,
    );
    assert(det * tv.x + tn * d.x == un * e1.x + vn * e2.x);
    assert(det * tv.y + tn * d.y == un * e1.y + vn * e2.y);
    assert(det * tv.z + tn * d.z == un * e1.z + vn * e2.z);
    lemma_mul_sub(det, o.x, t.v0.x);
    lemma_mul_sub(det, o.y, t.v0.y);
    lemma_mul_sub(det, o.z, t.v0.z);
    lemma_mul_sub(un, t.v1.x, t.v0.x);
    lemma_mul_sub(un, t.v1.y, t.v0.y);
    lemma_mul_sub(un, t.v1.z, t.v0.z);
    lemma_mul_sub(vn, t.v2.x, t.v0.x);
    lemma_mul_sub(vn, t.v2.y, t.v0.y);
    lemma_mul_sub(vn, t.v2.z, t.v0.z);
    assert((det - un - vn) * t.v0.x == det * t.v0.x - un * t.v0.x - vn * t.v0.x)
        by (nonlinear_arith);
    assert((det - un - vn) * t.v0.y == det * t.v0.y - un * t.v0.y - vn * t.v0.y)
        by (nonlinear_arith);
    assert((det - un - vn) * t.v0.z == det * t.v0.z - un * t.v0.z - vn * t.v0.z)
        by (nonlinear_arith);
}

/// A hit triangle keeps the (determinant-scaled) hit point inside any box
/// that contains the triangle's vertices.
pub proof fn lemma_hit_in_box(o: V3, d: V3, tri: STri, bb: SBox)
    requires
        mt_hits(o, d, tri),
        sbox_contains_tri(bb, tri),
    ensures
        in_box_at(o, d, bb.lo, bb.hi, mt_t_num_pos(o, d, tri), mt_den_pos(o, d, tri)),
{
    let det = mt_det(o, d, tri);
    let un = mt_u_num(o, d, tri);
    let vn = mt_v_num(o, d, tri);
    let tn = mt_t_num(o, d, tri);
    lemma_mt_point_identity(o, d, tri);
    if det > 0 {
        let w0 = det - un - vn;
        lemma_convex_bound(w0, un, vn, tri.v0.x, tri.v1.x, tri.v2.x, bb.lo.x, bb.hi.x);
        lemma_convex_bound(w0, un, vn, tri.v0.y, tri.v1.y, tri.v2.y, bb.lo.y, bb.hi.y);
        lemma_convex_bound(w0, un, vn, tri.v0.z, tri.v1.z, tri.v2.z, bb.lo.z, bb.hi.z);
        lemma_mul_comm(o.x, det);
        lemma_mul_comm(o.y, det);
        lemma_mul_comm(o.z, det);
        lemma_mul_comm(bb.lo.x, det);
        lemma_mul_comm(bb.lo.y, det);
        lemma_mul_comm(bb.lo.z, det);
        lemma_mul_comm(bb.hi.x, det);
        lemma_mul_comm(bb.hi.y, det);
        lemma_mul_comm(bb.hi.z, det);
        assert(axis_ok(o.x, d.x, bb.lo.x, bb.hi.x, tn, det));
        assert(axis_ok(o.y, d.y, bb.lo.y, bb.hi.y, tn, det));
        assert(axis_ok(o.z, d.z, bb.lo.z, bb.hi.z, tn, det));
    } else {
        let w0 = -det - (-un) - (-vn);
        lemma_convex_bound(w0, -un, -vn, tri.v0.x, tri.v1.x, tri.v2.x, bb.lo.x, bb.hi.x);
        lemma_convex_bound(w0, -un, -vn, tri.v0.y, tri.v1.y, tri.v2.y, bb.lo.y, bb.hi.y);
        lemma_convex_bound(w0, -un, -vn, tri.v0.z, tri.v1.z, tri.v2.z, bb.lo.z, bb.hi.z);
        assert((-det - (-un) - (-vn)) * tri.v0.x + (-un) * tri.v1.x + (-vn) * tri.v2.x == -((det
            - un - vn) * tri.v0.x + un * tri.v1.x + vn * tri.v2.x)) by (nonlinear_arith);
        assert((-det - (-un) - (-vn)) * tri.v0.y + (-un) * tri.v1.y + (-vn) * tri.v2.y == -((det
            - un - vn) * tri.v0.y + un * tri.v1.y + vn * tri.v2.y)) by (nonlinear_arith);
        assert((-det - (-un) - (-vn)) * tri.v0.z + (-un) * tri.v1.z + (-vn) * tri.v2.z == -((det
            - un - vn) * tri.v0.z + un * tri.v1.z + vn * tri.v2.z)) by (nonlinear_arith);
        assert(o.x * (-det) + (-tn) * d.x == -(det * o.x + tn * d.x)) by (nonlinear_arith);
        assert(o.y * (-det) + (-tn) * d.y == -(det * o.y + tn * d.y)) by (nonlinear_arith);
        assert(o.z * (-det) + (-tn) * d.z == -(det * o.z + tn * d.z)) by (nonlinear_arith);
        lemma_mul_comm(bb.lo.x, -det);
        lemma_mul_comm(bb.lo.y, -det);
        lemma_mul_comm(bb.lo.z, -det);
        lemma_mul_comm(bb.hi.x, -det);
        lemma_mul_comm(bb.hi.y, -det);
        lemma_mul_comm(bb.hi.z, -det);
        assert(axis_ok(o.x, d.x, bb.lo.x, bb.hi.x, -tn, -det));
        assert(axis_ok(o.y, d.y, bb.lo.y, bb.hi.y, -tn, -det));
        assert(axis_ok(o.z, d.z, bb.lo.z, bb.hi.z, -tn, -det));
    }
}

/// Pruning soundness: a triangle inside a box, hit by the forward ray,
/// makes the slab predicate true for that box.
pub proof fn lemma_hit_reaches_box(o: V3, d: V3, tri: STri, bb: SBox)
    requires
        mt_hits(o, d, tri),
        mt_t_num_pos(o, d, tri) >= 0,
        sbox_contains_tri(bb, tri),
    ensures
        ray_reaches_box(o, d, bb.lo, bb.hi),
{
    lemma_hit_in_box(o, d, tri, bb);
    assert(mt_den_pos(o, d, tri) > 0);
    assert(in_box_at(o, d, bb.lo, bb.hi, mt_t_num_pos(o, d, tri), mt_den_pos(o, d, tri)));
}

/// The scalar triple product is unchanged by a cyclic rotation of its
/// arguments: `a . (b x c) == c . (a x b)`.
proof fn lemma_triple_product_rotate(
    ax: int,
    ay: int,
    az: int,
    bx: int,
    by: int,
    bz: int,
    cx: int,
    cy: int,
    cz: int,
)
    ensures
        ax * (by * cz - bz * cy) + ay * (bz * cx - bx * cz) + az * (bx * cy - by * cx) == cx * (ay
            * bz - az * by) + cy * (az * bx - ax * bz) + cz * (ax * by - ay * bx),
{
    lemma_mul_sub(ax, by * cz, bz * cy);
    lemma_mul_sub(ay, bz * cx, bx * cz);
    lemma_mul_sub(az, bx * cy, by * cx);
    lemma_mul_sub(cx, ay * bz, az * by);
    lemma_mul_sub(cy, az * bx, ax * bz);
    lemma_mul_sub(cz, ax * by, ay * bx);
    lemma_ac_abc(ax, by, cz);
    lemma_ac_abc(ay, bz, cx);
    lemma_ac_abc(az, bx, cy);
    lemma_ac_abc(ax, bz, cy);
    lemma_ac_abc(ay, bx, cz);
    lemma_ac_abc(az, by, cx);
}

/// A degenerate (zero-area) triangle is never hit: its edge cross product
/// vanishes, so the Möller–Trumbore determinant is zero for every ray.
pub proof fn lemma_degenerate_no_hit(o: V3, d: V3, tri: STri)
    requires
        s_cross(mt_e1(tri), mt_e2(tri)) == (V3 { x: 0, y: 0, z: 0 }),
    ensures
        !mt_hits(o, d, tri),
{
    let e1 = mt_e1(tri);
    let e2 = mt_e2(tri);
    // e1 . (d x e2) == e2 . (e1 x d) == d . (e2 x e1)
    lemma_triple_product_rotate(e1.x, e1.y, e1.z, d.x, d.y, d.z, e2.x, e2.y, e2.z);
    lemma_triple_product_rotate(e2.x, e2.y, e2.z, e1.x, e1.y, e1.z, d.x, d.y, d.z);
    assert(mt_det(o, d, tri) == s_dot(d, s_cross(e2, e1)));
    assert(s_cross(e2, e1).x == 0 && s_cross(e2, e1).y == 0 && s_cross(e2, e1).z == 0);
    assert(d.x * s_cross(e2, e1).x == 0) by (nonlinear_arith)
        requires
            s_cross(e2, e1).x == 0,
    ;
    assert(d.y * s_cross(e2, e1).y == 0) by (nonlinear_arith)
        requires
            s_cross(e2, e1).y == 0,
    ;
    assert(d.z * s_cross(e2, e1).z == 0) by (nonlinear_arith)
        requires
            s_cross(e2, e1).z == 0,
    ;
}

} // verus!
