//! 3D vectors with bounded integer coordinates, and the componentwise
//! arithmetic the intersection kernels and the tree are built on.
//!
//! Every geometric value handed to the library must keep its coordinates
//! within [`COORD_LIMIT`]; with that bound every intermediate product of the
//! kernels fits in `i64`/`i128` and all arithmetic here is exact.
use vstd::prelude::*;

verus! {

/// Largest magnitude a coordinate may have (2^18). The intersection kernels
/// form products of degree three in the coordinates; this bound keeps every
/// such product, and sums of a few of them, well inside `i64`.
pub const COORD_LIMIT: i64 = 262144;

/// A 3D vector with integer components.
#[derive(Copy, Clone, Debug, PartialEq, Eq, Structural)]
pub struct Vec3 {
    pub x: i64,
    pub y: i64,
    pub z: i64,
}

/// The mathematical value of a [`Vec3`]: a triple of unbounded integers.
pub ghost struct V3 {
    pub x: int,
    pub y: int,
    pub z: int,
}

impl View for Vec3 {
    type V = V3;

    open spec fn view(&self) -> V3 {
        V3 { x: self.x as int, y: self.y as int, z: self.z as int }
    }
}

/// All three components of `v` lie in `[-b, b]`.
pub open spec fn v3_bounded(v: V3, b: int) -> bool {
    &&& -b <= v.x <= b
    &&& -b <= v.y <= b
    &&& -b <= v.z <= b
}

pub open spec fn s_add(a: V3, b: V3) -> V3 {
    V3 { x: a.x + b.x, y: a.y + b.y, z: a.z + b.z }
}

pub open spec fn s_sub(a: V3, b: V3) -> V3 {
    V3 { x: a.x - b.x, y: a.y - b.y, z: a.z - b.z }
}

pub open spec fn s_scale(a: V3, k: int) -> V3 {
    V3 { x: a.x * k, y: a.y * k, z: a.z * k }
}

pub open spec fn s_dot(a: V3, b: V3) -> int {
    a.x * b.x + a.y * b.y + a.z * b.z
}

pub open spec fn s_cross(a: V3, b: V3) -> V3 {
    V3 {
        x: a.y * b.z - a.z * b.y,
        y: a.z * b.x - a.x * b.z,
        z: a.x * b.y - a.y * b.x,
    }
}

pub open spec fn s_min(a: int, b: int) -> int {
    if a < b {
        a
    } else {
        b
    }
}

pub open spec fn s_max(a: int, b: int) -> int {
    if a > b {
        a
    } else {
        b
    }
}

pub open spec fn s_min_coor(a: V3, b: V3) -> V3 {
    V3 { x: s_min(a.x, b.x), y: s_min(a.y, b.y), z: s_min(a.z, b.z) }
}

pub open spec fn s_max_coor(a: V3, b: V3) -> V3 {
    V3 { x: s_max(a.x, b.x), y: s_max(a.y, b.y), z: s_max(a.z, b.z) }
}

pub open spec fn abs(a: int) -> int {
    if a >= 0 {
        a
    } else {
        -a
    }
}

/// Every product and partial sum of `s_dot(a, b)` fits in `i64`.
pub open spec fn dot_fits(a: V3, b: V3) -> bool {
    abs(a.x * b.x) + abs(a.y * b.y) + abs(a.z * b.z) <= i64::MAX
}

/// Every product and difference of `s_cross(a, b)` fits in `i64`.
pub open spec fn cross_fits(a: V3, b: V3) -> bool {
    &&& abs(a.y * b.z) + abs(a.z * b.y) <= i64::MAX
    &&& abs(a.z * b.x) + abs(a.x * b.z) <= i64::MAX
    &&& abs(a.x * b.y) + abs(a.y * b.x) <= i64::MAX
}

impl Vec3 {
    /// Componentwise difference.
    pub fn sub(self, rhs: Vec3) -> (r: Vec3)
        requires
            i64::MIN <= self@.x - rhs@.x <= i64::MAX,
            i64::MIN <= self@.y - rhs@.y <= i64::MAX,
            i64::MIN <= self@.z - rhs@.z <= i64::MAX,
        ensures
            r@ == s_sub(self@, rhs@),
    {
        Vec3 { x: self.x - rhs.x, y: self.y - rhs.y, z: self.z - rhs.z }
    }

    /// Componentwise sum.
    pub fn add(self, rhs: Vec3) -> (r: Vec3)
        requires
            i64::MIN <= self@.x + rhs@.x <= i64::MAX,
            i64::MIN <= self@.y + rhs@.y <= i64::MAX,
            i64::MIN <= self@.z + rhs@.z <= i64::MAX,
        ensures
            r@ == s_add(self@, rhs@),
    {
        Vec3 { x: self.x + rhs.x, y: self.y + rhs.y, z: self.z + rhs.z }
    }

    /// Scale by an integer factor.
    pub fn mul(self, rhs: i64) -> (r: Vec3)
        requires
            i64::MIN <= self@.x * rhs <= i64::MAX,
            i64::MIN <= self@.y * rhs <= i64::MAX,
            i64::MIN <= self@.z * rhs <= i64::MAX,
        ensures
            r@ == s_scale(self@, rhs as int),
    {
        Vec3 { x: self.x * rhs, y: self.y * rhs, z: self.z * rhs }
    }
}

/// Cross product of two vectors.
pub fn cross_product(lhs: Vec3, rhs: Vec3) -> (r: Vec3)
    requires
        cross_fits(lhs@, rhs@),
    ensures
        r@ == s_cross(lhs@, rhs@),
{
    Vec3 {
        x: lhs.y * rhs.z - lhs.z * rhs.y,
        y: lhs.z * rhs.x - lhs.x * rhs.z,
        z: lhs.x * rhs.y - lhs.y * rhs.x,
    }
}

/// Dot product of two vectors.
pub fn dot_product(lhs: Vec3, rhs: Vec3) -> (r: i64)
    requires
        dot_fits(lhs@, rhs@),
    ensures
        r == s_dot(lhs@, rhs@),
{
    lhs.x * rhs.x + lhs.y * rhs.y + lhs.z * rhs.z
}

/// Componentwise minimum.
pub fn min_coor(lhs: Vec3, rhs: Vec3) -> (r: Vec3)
    ensures
        r@ == s_min_coor(lhs@, rhs@),
{
    Vec3 {
        x: if lhs.x < rhs.x {
            lhs.x
        } else {
            rhs.x
        },
        y: if lhs.y < rhs.y {
            lhs.y
        } else {
            rhs.y
        },
        z: if lhs.z < rhs.z {
            lhs.z
        } else {
            rhs.z
        },
    }
}

/// Componentwise maximum.
pub fn max_coor(lhs: Vec3, rhs: Vec3) -> (r: Vec3)
    ensures
        r@ == s_max_coor(lhs@, rhs@),
{
    Vec3 {
        x: if lhs.x > rhs.x {
            lhs.x
        } else {
            rhs.x
        },
        y: if lhs.y > rhs.y {
            lhs.y
        } else {
            rhs.y
        },
        z: if lhs.z > rhs.z {
            lhs.z
        } else {
            rhs.z
        },
    }
}

/// Approximate equality within a componentwise tolerance, for
/// deduplication and debug checks only — never for the intersection
/// kernels, which compare exactly.
pub fn approx_eq(lhs: Vec3, rhs: Vec3, eps: i64) -> (r: bool)
    requires
        v3_bounded(lhs@, COORD_LIMIT as int),
        v3_bounded(rhs@, COORD_LIMIT as int),
    ensures
        r == (abs(lhs@.x - rhs@.x) < eps && abs(lhs@.y - rhs@.y) < eps && abs(lhs@.z - rhs@.z)
            < eps),
{
    let dx = lhs.x - rhs.x;
    let dy = lhs.y - rhs.y;
    let dz = lhs.z - rhs.z;
    let adx = if dx >= 0 {
        dx
    } else {
        -dx
    };
    let ady = if dy >= 0 {
        dy
    } else {
        -dy
    };
    let adz = if dz >= 0 {
        dz
    } else {
        -dz
    };
    adx < eps && ady < eps && adz < eps
}

/// Squared Euclidean distance between two points.
pub fn square_distance(arg1: Vec3, arg2: Vec3) -> (r: i64)
    requires
        v3_bounded(arg1@, COORD_LIMIT as int),
        v3_bounded(arg2@, COORD_LIMIT as int),
    ensures
        r == s_dot(s_sub(arg1@, arg2@), s_sub(arg1@, arg2@)),
{
    let dx = arg1.x - arg2.x;
    let dy = arg1.y - arg2.y;
    let dz = arg1.z - arg2.z;
    proof {
        lemma_square_bound(dx as int, 2 * COORD_LIMIT as int);
        lemma_square_bound(dy as int, 2 * COORD_LIMIT as int);
        lemma_square_bound(dz as int, 2 * COORD_LIMIT as int);
    }
    dx * dx + dy * dy + dz * dz
}

/// `|a| <= b` implies `a * a <= b * b`.
pub proof fn lemma_square_bound(a: int, b: int)
    by (nonlinear_arith)
    requires
        -b <= a <= b,
        0 <= b,
    ensures
        0 <= a * a <= b * b,
{
}

/// Componentwise bound on a product: `|x| <= bx` and `|y| <= by` give
/// `|x * y| <= bx * by`.
pub proof fn lemma_mul_bound(x: int, y: int, bx: int, by: int)
    by (nonlinear_arith)
    requires
        -bx <= x <= bx,
        -by <= y <= by,
        0 <= bx,
        0 <= by,
    ensures
        -(bx * by) <= x * y <= bx * by,
{
}

/// A cross product of vectors bounded by `ba` and `bb` is bounded by
/// `2 * ba * bb`.
pub proof fn lemma_cross_bound(a: V3, b: V3, ba: int, bb: int)
    by (nonlinear_arith)
    requires
        v3_bounded(a, ba),
        v3_bounded(b, bb),
        0 <= ba,
        0 <= bb,
    ensures
        v3_bounded(s_cross(a, b), 2 * ba * bb),
{
}

/// A dot product of vectors bounded by `ba` and `bb` is bounded by
/// `3 * ba * bb`.
pub proof fn lemma_dot_bound(a: V3, b: V3, ba: int, bb: int)
    by (nonlinear_arith)
    requires
        v3_bounded(a, ba),
        v3_bounded(b, bb),
        0 <= ba,
        0 <= bb,
    ensures
        -(3 * ba * bb) <= s_dot(a, b) <= 3 * ba * bb,
{
}

/// Bounded vectors have a representable dot product.
pub proof fn lemma_dot_fits(a: V3, b: V3, ba: int, bb: int)
    by (nonlinear_arith)
    requires
        v3_bounded(a, ba),
        v3_bounded(b, bb),
        0 <= ba,
        0 <= bb,
        3 * ba * bb <= i64::MAX,
    ensures
        dot_fits(a, b),
{
}

/// Bounded vectors have a representable cross product.
pub proof fn lemma_cross_fits(a: V3, b: V3, ba: int, bb: int)
    by (nonlinear_arith)
    requires
        v3_bounded(a, ba),
        v3_bounded(b, bb),
        0 <= ba,
        0 <= bb,
        2 * ba * bb <= i64::MAX,
    ensures
        cross_fits(a, b),
{
}

} // verus!
