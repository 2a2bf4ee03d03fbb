//! Exact ray/box intersection: the slab test against an axis-aligned box.
//!
//! Each axis constrains the ray parameter `t` to a rational interval (or, for
//! a ray parallel to the axis, accepts or rejects outright); the test
//! intersects the three intervals and asks whether some `t >= 0` survives.
//! The contract states exactly that: the test returns true if and only if
//! some nonnegative rational `t` places `o + t*d` inside the box.
use vstd::prelude::*;

use crate::rat::{lemma_rat_le_total, lemma_rat_le_trans, spec_rat_le, Rat};
use crate::vec3::{v3_bounded, Vec3, V3, COORD_LIMIT};

verus! {

/// Axis constraint at parameter `tn/td`: the coordinate `o + (tn/td)*d` lies
/// in `[lo, hi]`, cleared of the denominator `td > 0`.
pub open spec fn axis_ok(o: int, d: int, lo: int, hi: int, tn: int, td: int) -> bool {
    &&& lo * td <= o * td + tn * d
    &&& o * td + tn * d <= hi * td
}

/// The point `o + (tn/td)*d` lies inside the box `[lo, hi]`.
pub open spec fn in_box_at(o: V3, d: V3, lo: V3, hi: V3, tn: int, td: int) -> bool {
    &&& axis_ok(o.x, d.x, lo.x, hi.x, tn, td)
    &&& axis_ok(o.y, d.y, lo.y, hi.y, tn, td)
    &&& axis_ok(o.z, d.z, lo.z, hi.z, tn, td)
}

/// Some point of the forward ray (`t >= 0`) lies inside the box.
pub open spec fn ray_reaches_box(o: V3, d: V3, lo: V3, hi: V3) -> bool {
    exists|tn: int, td: int| td > 0 && tn >= 0 && in_box_at(o, d, lo, hi, tn, td)
}

/// A lower/upper bound pair on the ray parameter; `None` means unbounded.
struct Span {
    lo: Option<Rat>,
    hi: Option<Rat>,
}

pub open spec fn lo_ok(lo: Option<Rat>, tn: int, td: int) -> bool {
    match lo {
        Option::None => true,
        Option::Some(l) => spec_rat_le(l.num as int, l.den as int, tn, td),
    }
}

pub open spec fn hi_ok(hi: Option<Rat>, tn: int, td: int) -> bool {
    match hi {
        Option::None => true,
        Option::Some(h) => spec_rat_le(tn, td, h.num as int, h.den as int),
    }
}

impl Span {
    spec fn wf(self) -> bool {
        &&& match self.lo {
            Option::None => true,
            Option::Some(l) => l.wf(),
        }
        &&& match self.hi {
            Option::None => true,
            Option::Some(h) => h.wf(),
        }
    }

    spec fn contains(self, tn: int, td: int) -> bool {
        lo_ok(self.lo, tn, td) && hi_ok(self.hi, tn, td)
    }
}

/// Raw cross-multiplied form of the per-axis interval bounds, for a ray not
/// parallel to the axis.
proof fn lemma_axis_char(o: int, d: int, lo: int, hi: int, tn: int, td: int)
    by (nonlinear_arith)
    requires
        td > 0,
    ensures
        d > 0 ==> ((lo * td <= o * td + tn * d) <==> (lo - o) * td <= tn * d),
        d > 0 ==> ((o * td + tn * d <= hi * td) <==> tn * d <= (hi - o) * td),
        d < 0 ==> ((o * td + tn * d <= hi * td) <==> (o - hi) * td <= tn * (-d)),
        d < 0 ==> ((lo * td <= o * td + tn * d) <==> tn * (-d) <= (o - lo) * td),
        d == 0 ==> ((lo * td <= o * td + tn * d) <==> lo <= o),
        d == 0 ==> ((o * td + tn * d <= hi * td) <==> o <= hi),
{
}

/// Tighten a lower bound with a new candidate: the result bounds from below
/// exactly the parameters both bounds allowed.
fn lo_max(cur: Option<Rat>, new: Rat) -> (r: Rat)
    requires
        match cur {
            Option::None => true,
            Option::Some(c) => c.wf(),
        },
        new.wf(),
    ensures
        r.wf(),
        forall|tn: int, td: int|
            td > 0 ==> (#[trigger] spec_rat_le(r.num as int, r.den as int, tn, td) <==> lo_ok(
                cur,
                tn,
                td,
            ) && spec_rat_le(new.num as int, new.den as int, tn, td)),
{
    match cur {
        Option::None => new,
        Option::Some(c) => {
            if c.le(&new) {
                proof {
                    assert forall|tn: int, td: int|
                        td > 0 && spec_rat_le(new.num as int, new.den as int, tn, td) implies
                        spec_rat_le(c.num as int, c.den as int, tn, td) by {
                        lemma_rat_le_trans(
                            c.num as int,
                            c.den as int,
                            new.num as int,
                            new.den as int,
                            tn,
                            td,
                        );
                    }
                }
                new
            } else {
                proof {
                    lemma_rat_le_total(
                        c.num as int,
                        c.den as int,
                        new.num as int,
                        new.den as int,
                    );
                    assert forall|tn: int, td: int|
                        td > 0 && spec_rat_le(c.num as int, c.den as int, tn, td) implies
                        spec_rat_le(new.num as int, new.den as int, tn, td) by {
                        lemma_rat_le_trans(
                            new.num as int,
                            new.den as int,
                            c.num as int,
                            c.den as int,
                            tn,
                            td,
                        );
                    }
                }
                c
            }
        },
    }
}

/// Tighten an upper bound with a new candidate, symmetrically to [`lo_max`].
fn hi_min(cur: Option<Rat>, new: Rat) -> (r: Rat)
    requires
        match cur {
            Option::None => true,
            Option::Some(c) => c.wf(),
        },
        new.wf(),
    ensures
        r.wf(),
        forall|tn: int, td: int|
            td > 0 ==> (#[trigger] spec_rat_le(tn, td, r.num as int, r.den as int) <==> hi_ok(
                cur,
                tn,
                td,
            ) && spec_rat_le(tn, td, new.num as int, new.den as int)),
{
    match cur {
        Option::None => new,
        Option::Some(c) => {
            if new.le(&c) {
                proof {
                    assert forall|tn: int, td: int|
                        td > 0 && spec_rat_le(tn, td, new.num as int, new.den as int) implies
                        spec_rat_le(tn, td, c.num as int, c.den as int) by {
                        lemma_rat_le_trans(
                            tn,
                            td,
                            new.num as int,
                            new.den as int,
                            c.num as int,
                            c.den as int,
                        );
                    }
                }
                new
            } else {
                proof {
                    lemma_rat_le_total(
                        new.num as int,
                        new.den as int,
                        c.num as int,
                        c.den as int,
                    );
                    assert forall|tn: int, td: int|
                        td > 0 && spec_rat_le(tn, td, c.num as int, c.den as int) implies
                        spec_rat_le(tn, td, new.num as int, new.den as int) by {
                        lemma_rat_le_trans(
                            tn,
                            td,
                            c.num as int,
                            c.den as int,
                            new.num as int,
                            new.den as int,
                        );
                    }
                }
                c
            }
        },
    }
}

/// Intersect the running span with one axis' constraint. `None` means the
/// axis rules out every parameter.
fn slab_axis(o: i64, d: i64, lo_v: i64, hi_v: i64, span: Span) -> (r: Option<Span>)
    requires
        span.wf(),
        -COORD_LIMIT <= o <= COORD_LIMIT,
        -2 * COORD_LIMIT <= d <= 2 * COORD_LIMIT,
        -COORD_LIMIT <= lo_v <= COORD_LIMIT,
        -COORD_LIMIT <= hi_v <= COORD_LIMIT,
    ensures
        match r {
            Option::None => forall|tn: int, td: int|
                td > 0 ==> !axis_ok(o as int, d as int, lo_v as int, hi_v as int, tn, td),
            Option::Some(s2) => s2.wf() && forall|tn: int, td: int|
                td > 0 ==> (#[trigger] s2.contains(tn, td) <==> span.contains(tn, td) && axis_ok(
                    o as int,
                    d as int,
                    lo_v as int,
                    hi_v as int,
                    tn,
                    td,
                )),
        },
{
    if d == 0 {
        if o < lo_v || o > hi_v {
            proof {
                assert forall|tn: int, td: int| td > 0 implies !axis_ok(
                    o as int,
                    d as int,
                    lo_v as int,
                    hi_v as int,
                    tn,
                    td,
                ) by {
                    lemma_axis_char(o as int, d as int, lo_v as int, hi_v as int, tn, td);
                }
            }
            None
        } else {
            proof {
                assert forall|tn: int, td: int| td > 0 implies axis_ok(
                    o as int,
                    d as int,
                    lo_v as int,
                    hi_v as int,
                    tn,
                    td,
                ) by {
                    lemma_axis_char(o as int, d as int, lo_v as int, hi_v as int, tn, td);
                }
            }
            Some(span)
        }
    } else {
        let (t1, t2) = if d > 0 {
            (Rat { num: lo_v - o, den: d }, Rat { num: hi_v - o, den: d })
        } else {
            (Rat { num: o - hi_v, den: -d }, Rat { num: o - lo_v, den: -d })
        };
        let new_lo = lo_max(span.lo, t1);
        let new_hi = hi_min(span.hi, t2);
        let s2 = Span { lo: Some(new_lo), hi: Some(new_hi) };
        proof {
            assert forall|tn: int, td: int| td > 0 implies (#[trigger] s2.contains(tn, td)
                <==> span.contains(tn, td) && axis_ok(
                o as int,
                d as int,
                lo_v as int,
                hi_v as int,
                tn,
                td,
            )) by {
                lemma_axis_char(o as int, d as int, lo_v as int, hi_v as int, tn, td);
                if d > 0 {
                    assert(spec_rat_le(t1.num as int, t1.den as int, tn, td) <==> (lo_v - o) as int
                        * td <= tn * (d as int));
                    assert(spec_rat_le(tn, td, t2.num as int, t2.den as int) <==> tn * (d as int)
                        <= (hi_v - o) as int * td);
                } else {
                    assert(spec_rat_le(t1.num as int, t1.den as int, tn, td) <==> (o - hi_v) as int
                        * td <= tn * (-d) as int);
                    assert(spec_rat_le(tn, td, t2.num as int, t2.den as int) <==> tn * (-d) as int
                        <= (o - lo_v) as int * td);
                }
            }
        }
        Some(s2)
    }
}

/// Does the span contain some nonnegative parameter?
fn span_nonempty_forward(span: Span) -> (r: bool)
    requires
        span.wf(),
    ensures
        r == exists|tn: int, td: int| td > 0 && tn >= 0 && span.contains(tn, td),
{
    match span.hi {
        Option::None => {
            let w = witness_forward(&span.lo);
            proof {
                assert(span.contains(w.num as int, w.den as int));
            }
            true
        },
        Option::Some(h) => {
            if h.num < 0 {
                proof {
                    assert forall|tn: int, td: int|
                        td > 0 && tn >= 0 implies !span.contains(tn, td) by {
                        if spec_rat_le(tn, td, h.num as int, h.den as int) {
                            assert(tn * (h.den as int) <= (h.num as int) * td);
                            assert(tn * (h.den as int) >= 0) by (nonlinear_arith)
                                requires
                                    tn >= 0,
                                    h.den > 0,
                            ;
                            assert((h.num as int) * td < 0) by (nonlinear_arith)
                                requires
                                    h.num < 0,
                                    td > 0,
                            ;
                        }
                    }
                }
                false
            } else {
                let lo_le_hi = match &span.lo {
                    Option::None => true,
                    Option::Some(l) => l.le(&h),
                };
                if lo_le_hi {
                    let w = witness_forward(&span.lo);
                    proof {
                        if span.lo is Some {
                            let l = span.lo->Some_0;
                            if l.num > 0 {
                                // w == l, and l <= h carries over
                            } else {
                                // w == 0/1; 0 <= h.num gives w <= h
                                assert(spec_rat_le(0, 1, h.num as int, h.den as int));
                            }
                        } else {
                            assert(spec_rat_le(0, 1, h.num as int, h.den as int));
                        }
                        assert(span.contains(w.num as int, w.den as int));
                    }
                    true
                } else {
                    proof {
                        let l = span.lo->Some_0;
                        assert forall|tn: int, td: int|
                            td > 0 && tn >= 0 implies !span.contains(tn, td) by {
                            if span.contains(tn, td) {
                                lemma_rat_le_trans(
                                    l.num as int,
                                    l.den as int,
                                    tn,
                                    td,
                                    h.num as int,
                                    h.den as int,
                                );
                            }
                        }
                    }
                    false
                }
            }
        },
    }
}

/// A nonnegative parameter satisfying a (possible) lower bound: the bound
/// itself when it is positive, zero otherwise.
fn witness_forward(lo: &Option<Rat>) -> (w: Rat)
    requires
        match lo {
            Option::None => true,
            Option::Some(l) => l.wf(),
        },
    ensures
        w.wf(),
        w.num >= 0,
        lo_ok(*lo, w.num as int, w.den as int),
        match lo {
            Option::None => w.num == 0 && w.den == 1,
            Option::Some(l) => if l.num > 0 {
                w == l
            } else {
                w.num == 0 && w.den == 1
            },
        },
{
    match lo {
        Option::None => Rat { num: 0, den: 1 },
        Option::Some(l) => {
            if l.num > 0 {
                proof {
                    assert((l.num as int) * (l.den as int) <= (l.num as int) * (l.den as int));
                }
                *l
            } else {
                proof {
                    assert((l.num as int) * 1 <= 0 * (l.den as int));
                }
                Rat { num: 0, den: 1 }
            }
        },
    }
}

/// The slab test: does the forward ray from `origin` along `direction` meet
/// the box `[min_values, max_values]`?
pub fn ray_cube_intersect(origin: Vec3, direction: Vec3, min_values: Vec3, max_values: Vec3) -> (r:
    bool)
    requires
        v3_bounded(origin@, COORD_LIMIT as int),
        v3_bounded(direction@, 2 * COORD_LIMIT as int),
        v3_bounded(min_values@, COORD_LIMIT as int),
        v3_bounded(max_values@, COORD_LIMIT as int),
    ensures
        r == ray_reaches_box(origin@, direction@, min_values@, max_values@),
{
    let span0 = Span { lo: None, hi: None };
    let s1 = match slab_axis(origin.x, direction.x, min_values.x, max_values.x, span0) {
        Option::None => {
            proof {
                if ray_reaches_box(origin@, direction@, min_values@, max_values@) {
                    let (tn, td) = choose|tn: int, td: int|
                        td > 0 && tn >= 0 && in_box_at(
                            origin@,
                            direction@,
                            min_values@,
                            max_values@,
                            tn,
                            td,
                        );
                    assert(!axis_ok(
                        origin@.x,
                        direction@.x,
                        min_values@.x,
                        max_values@.x,
                        tn,
                        td,
                    ));
                }
            }
            return false;
        },
        Option::Some(s) => s,
    };
    let s2 = match slab_axis(origin.y, direction.y, min_values.y, max_values.y, s1) {
        Option::None => {
            proof {
                if ray_reaches_box(origin@, direction@, min_values@, max_values@) {
                    let (tn, td) = choose|tn: int, td: int|
                        td > 0 && tn >= 0 && in_box_at(
                            origin@,
                            direction@,
                            min_values@,
                            max_values@,
                            tn,
                            td,
                        );
                    assert(!axis_ok(
                        origin@.y,
                        direction@.y,
                        min_values@.y,
                        max_values@.y,
                        tn,
                        td,
                    ));
                }
            }
            return false;
        },
        Option::Some(s) => s,
    };
    let s3 = match slab_axis(origin.z, direction.z, min_values.z, max_values.z, s2) {
        Option::None => {
            proof {
                if ray_reaches_box(origin@, direction@, min_values@, max_values@) {
                    let (tn, td) = choose|tn: int, td: int|
                        td > 0 && tn >= 0 && in_box_at(
                            origin@,
                            direction@,
                            min_values@,
                            max_values@,
                            tn,
                            td,
                        );
                    assert(!axis_ok(
                        origin@.z,
                        direction@.z,
                        min_values@.z,
                        max_values@.z,
                        tn,
                        td,
                    ));
                }
            }
            return false;
        },
        Option::Some(s) => s,
    };
    let r = span_nonempty_forward(s3);
    proof {
        if r {
            let (tn, td) = choose|tn: int, td: int| td > 0 && tn >= 0 && s3.contains(tn, td);
            assert(in_box_at(origin@, direction@, min_values@, max_values@, tn, td));
        }
        if ray_reaches_box(origin@, direction@, min_values@, max_values@) {
            let (tn, td) = choose|tn: int, td: int|
                td > 0 && tn >= 0 && in_box_at(
                    origin@,
                    direction@,
                    min_values@,
                    max_values@,
                    tn,
                    td,
                );
            assert(s3.contains(tn, td));
        }
    }
    r
}

} // verus!
