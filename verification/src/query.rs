//! Ray queries over the tree: any-hit (occlusion) and nearest-hit
//! (primary visibility), plus the brute-force scans they are measured
//! against.
//!
//! Both traversals prune a subtree when the slab test misses its box; the
//! lemmas of [`crate::geom`] show no triangle of that subtree could have
//! been hit, so each query's contract speaks only of the tree's triangle
//! multiset — exactly what a brute-force scan of the same triangles
//! satisfies.
use vstd::prelude::*;

use vstd::multiset::Multiset;

use crate::intersect::{
    hit_matches, mt_den_pos, mt_hits, mt_t_num_pos, ray_bounded, triangle_intersection, Hit,
};
use crate::geom::lemma_hit_reaches_box;
use crate::rat::{lemma_rat_le_total, lemma_rat_le_trans, spec_rat_le};
use crate::slab::ray_cube_intersect;
use crate::tree::{
    lemma_tris_in_box, link_sbox, link_tris, tri_bounded, Link, STri, Tree, Triangle,
};
use crate::vec3::{s_sub, v3_bounded, Vec3, V3, COORD_LIMIT};

verus! {

broadcast use vstd::multiset::group_multiset_axioms;

/// The ray-parameter range a query accepts: the segment `[0, 1]` for
/// point-to-point occlusion probes, the forward ray `[0, inf)` for
/// visibility rays.
#[derive(Copy, Clone, Debug, PartialEq, Eq, Structural)]
pub enum RayRange {
    Segment,
    Forward,
}

/// The hit parameter `t = t_num_pos/den_pos` lies in the query's range.
pub open spec fn t_in_range(rng: RayRange, o: V3, d: V3, tri: STri) -> bool {
    &&& mt_t_num_pos(o, d, tri) >= 0
    &&& (rng is Segment ==> mt_t_num_pos(o, d, tri) <= mt_den_pos(o, d, tri))
}

/// The ray meets the triangle with a parameter inside the range.
pub open spec fn tri_hit_in(o: V3, d: V3, tri: STri, rng: RayRange) -> bool {
    mt_hits(o, d, tri) && t_in_range(rng, o, d, tri)
}

/// Some triangle of the multiset is hit within the range.
pub open spec fn set_any_hit(m: Multiset<Triangle>, o: V3, d: V3, rng: RayRange) -> bool {
    exists|t: Triangle| #[trigger] m.contains(t) && tri_hit_in(o, d, t@, rng)
}

/// What a nearest-hit query must return over the triangle multiset `m`:
/// nothing when nothing is hit; otherwise the exact intersection record of
/// some hit triangle whose parameter is minimal among all hit triangles.
pub open spec fn nearest_spec(
    m: Multiset<Triangle>,
    o: V3,
    d: V3,
    rng: RayRange,
    r: Option<Hit>,
) -> bool {
    match r {
        Option::None => !set_any_hit(m, o, d, rng),
        Option::Some(h) => {
            &&& exists|t: Triangle| #[trigger]
                m.contains(t) && tri_hit_in(o, d, t@, rng) && hit_matches(h, o, d, t@)
            &&& forall|t: Triangle| #[trigger]
                m.contains(t) && tri_hit_in(o, d, t@, rng) ==> spec_rat_le(
                    h.t.num as int,
                    h.t.den as int,
                    mt_t_num_pos(o, d, t@),
                    mt_den_pos(o, d, t@),
                )
        },
    }
}

/// Intersect one triangle and keep the hit only when its parameter lies in
/// the range.
pub fn tri_hit_in_range(orig: Vec3, dir: Vec3, tri: &Triangle, rng: RayRange) -> (r: Option<Hit>)
    requires
        ray_bounded(orig@, dir@),
        tri_bounded(tri@),
    ensures
        match r {
            Option::None => !tri_hit_in(orig@, dir@, tri@, rng),
            Option::Some(h) => tri_hit_in(orig@, dir@, tri@, rng) && hit_matches(
                h,
                orig@,
                dir@,
                tri@,
            ) && h.t.wf(),
        },
{
    match triangle_intersection(orig, dir, tri) {
        Option::None => None,
        Option::Some(h) => {
            if h.t.num < 0 {
                None
            } else {
                match rng {
                    RayRange::Segment => {
                        if h.t.num > h.t.den {
                            None
                        } else {
                            Some(h)
                        }
                    },
                    RayRange::Forward => Some(h),
                }
            }
        },
    }
}

/// Any-hit traversal of a subtree.
fn link_any_hit(l: &Link, orig: Vec3, dir: Vec3, rng: RayRange) -> (r: bool)
    requires
        crate::tree::wf_link(*l),
        ray_bounded(orig@, dir@),
    ensures
        r == set_any_hit(link_tris(*l), orig@, dir@, rng),
    decreases *l,
{
    match l {
        Link::Empty => {
            proof {
                assert(forall|t: Triangle| !link_tris(*l).contains(t));
            }
            false
        },
        Link::Triangle(t) => {
            let hit = tri_hit_in_range(orig, dir, t, rng);
            proof {
                if hit is Some {
                    assert(link_tris(*l).contains(*t) && tri_hit_in(orig@, dir@, t@, rng));
                } else {
                    assert forall|w: Triangle| !(#[trigger] link_tris(*l).contains(w)
                        && tri_hit_in(orig@, dir@, w@, rng)) by {
                        if link_tris(*l).contains(w) {
                            assert(w == *t);
                        }
                    }
                }
            }
            hit.is_some()
        },
        Link::Node(node) => {
            proof {
                lemma_tris_in_box(*l);
                crate::tree::lemma_wf_box_bounded(*l);
            }
            if ray_cube_intersect(orig, dir, node.min_value, node.max_value) {
                let lres = link_any_hit(&node.left.root, orig, dir, rng);
                let ghost lt = link_tris(node.left.root);
                let ghost rt = link_tris(node.right.root);
                if lres {
                    proof {
                        let w = choose|t: Triangle| #[trigger]
                            lt.contains(t) && tri_hit_in(orig@, dir@, t@, rng);
                        assert(link_tris(*l).contains(w));
                    }
                    true
                } else {
                    let rres = link_any_hit(&node.right.root, orig, dir, rng);
                    proof {
                        if rres {
                            let w = choose|t: Triangle| #[trigger]
                                rt.contains(t) && tri_hit_in(orig@, dir@, t@, rng);
                            assert(link_tris(*l).contains(w));
                        } else {
                            assert forall|w: Triangle| !(#[trigger] link_tris(*l).contains(w)
                                && tri_hit_in(orig@, dir@, w@, rng)) by {
                                if link_tris(*l).contains(w) && tri_hit_in(orig@, dir@, w@, rng) {
                                    assert(lt.contains(w) || rt.contains(w));
                                }
                            }
                        }
                    }
                    rres
                }
            } else {
                proof {
                    assert forall|w: Triangle| !(#[trigger] link_tris(*l).contains(w)
                        && tri_hit_in(orig@, dir@, w@, rng)) by {
                        if link_tris(*l).contains(w) && tri_hit_in(orig@, dir@, w@, rng) {
                            lemma_hit_reaches_box(orig@, dir@, w@, link_sbox(*l));
                        }
                    }
                }
                false
            }
        },
    }
}

/// Keep the nearer of two optional hits (ties to the first).
fn nearer_hit(a: Option<Hit>, b: Option<Hit>) -> (r: Option<Hit>)
    requires
        a is Some ==> a->Some_0.t.wf(),
        b is Some ==> b->Some_0.t.wf(),
    ensures
        match (a, b) {
            (Option::None, Option::None) => r is None,
            (Option::Some(ha), Option::None) => r == a,
            (Option::None, Option::Some(hb)) => r == b,
            (Option::Some(ha), Option::Some(hb)) => r == if ha.t.spec_le(hb.t) {
                a
            } else {
                b
            },
        },
        r is Some ==> r->Some_0.t.wf(),
{
    match (a, b) {
        (Option::None, Option::None) => None,
        (Option::Some(ha), Option::None) => Some(ha),
        (Option::None, Option::Some(hb)) => Some(hb),
        (Option::Some(ha), Option::Some(hb)) => {
            if ha.t.le(&hb.t) {
                Some(ha)
            } else {
                Some(hb)
            }
        },
    }
}

/// Nearest-hit combination step: from answers over two multisets, the
/// answer over their sum.
proof fn lemma_nearest_combine(
    m1: Multiset<Triangle>,
    m2: Multiset<Triangle>,
    o: V3,
    d: V3,
    rng: RayRange,
    r1: Option<Hit>,
    r2: Option<Hit>,
    r: Option<Hit>,
)
    requires
        nearest_spec(m1, o, d, rng, r1),
        nearest_spec(m2, o, d, rng, r2),
        r1 is Some ==> r1->Some_0.t.wf(),
        r2 is Some ==> r2->Some_0.t.wf(),
        r == match (r1, r2) {
            (Option::None, Option::None) => r1,
            (Option::Some(h1), Option::None) => r1,
            (Option::None, Option::Some(h2)) => r2,
            (Option::Some(h1), Option::Some(h2)) => if h1.t.spec_le(h2.t) {
                r1
            } else {
                r2
            },
        },
    ensures
        nearest_spec(m1.add(m2), o, d, rng, r),
{
    let m = m1.add(m2);
    match (r1, r2) {
        (Option::None, Option::None) => {
            assert forall|w: Triangle| !(#[trigger] m.contains(w) && tri_hit_in(o, d, w@, rng))
                by {
                if m.contains(w) && tri_hit_in(o, d, w@, rng) {
                    assert(m1.contains(w) || m2.contains(w));
                }
            }
        },
        (Option::Some(h1), Option::None) => {
            let w = choose|t: Triangle| #[trigger]
                m1.contains(t) && tri_hit_in(o, d, t@, rng) && hit_matches(h1, o, d, t@);
            assert(m.contains(w) && tri_hit_in(o, d, w@, rng) && hit_matches(h1, o, d, w@));
            assert forall|t: Triangle| #[trigger]
                m.contains(t) && tri_hit_in(o, d, t@, rng) implies spec_rat_le(
                h1.t.num as int,
                h1.t.den as int,
                mt_t_num_pos(o, d, t@),
                mt_den_pos(o, d, t@),
            ) by {
                assert(m1.contains(t) || m2.contains(t));
            }
        },
        (Option::None, Option::Some(h2)) => {
            let w = choose|t: Triangle| #[trigger]
                m2.contains(t) && tri_hit_in(o, d, t@, rng) && hit_matches(h2, o, d, t@);
            assert(m.contains(w) && tri_hit_in(o, d, w@, rng) && hit_matches(h2, o, d, w@));
            assert forall|t: Triangle| #[trigger]
                m.contains(t) && tri_hit_in(o, d, t@, rng) implies spec_rat_le(
                h2.t.num as int,
                h2.t.den as int,
                mt_t_num_pos(o, d, t@),
                mt_den_pos(o, d, t@),
            ) by {
                assert(m1.contains(t) || m2.contains(t));
            }
        },
        (Option::Some(h1), Option::Some(h2)) => {
            let keep_first = h1.t.spec_le(h2.t);
            let h = if keep_first {
                h1
            } else {
                h2
            };
            if keep_first {
                let w = choose|t: Triangle| #[trigger]
                    m1.contains(t) && tri_hit_in(o, d, t@, rng) && hit_matches(h1, o, d, t@);
                assert(m.contains(w) && tri_hit_in(o, d, w@, rng) && hit_matches(h, o, d, w@));
            } else {
                let w = choose|t: Triangle| #[trigger]
                    m2.contains(t) && tri_hit_in(o, d, t@, rng) && hit_matches(h2, o, d, t@);
                assert(m.contains(w) && tri_hit_in(o, d, w@, rng) && hit_matches(h, o, d, w@));
            }
            if !keep_first {
                lemma_rat_le_total(
                    h1.t.num as int,
                    h1.t.den as int,
                    h2.t.num as int,
                    h2.t.den as int,
                );
            }
            assert forall|t: Triangle| #[trigger]
                m.contains(t) && tri_hit_in(o, d, t@, rng) implies spec_rat_le(
                h.t.num as int,
                h.t.den as int,
                mt_t_num_pos(o, d, t@),
                mt_den_pos(o, d, t@),
            ) by {
                assert(m1.contains(t) || m2.contains(t));
                if keep_first {
                    if m2.contains(t) {
                        lemma_rat_le_trans(
                            h1.t.num as int,
                            h1.t.den as int,
                            h2.t.num as int,
                            h2.t.den as int,
                            mt_t_num_pos(o, d, t@),
                            mt_den_pos(o, d, t@),
                        );
                    }
                } else {
                    if m1.contains(t) {
                        lemma_rat_le_trans(
                            h2.t.num as int,
                            h2.t.den as int,
                            h1.t.num as int,
                            h1.t.den as int,
                            mt_t_num_pos(o, d, t@),
                            mt_den_pos(o, d, t@),
                        );
                    }
                }
            }
        },
    }
}

/// Nearest-hit traversal of a subtree.
fn link_nearest(l: &Link, orig: Vec3, dir: Vec3, rng: RayRange) -> (r: Option<Hit>)
    requires
        crate::tree::wf_link(*l),
        ray_bounded(orig@, dir@),
    ensures
        nearest_spec(link_tris(*l), orig@, dir@, rng, r),
        r is Some ==> r->Some_0.t.wf(),
    decreases *l,
{
    match l {
        Link::Empty => {
            proof {
                assert(forall|t: Triangle| !link_tris(*l).contains(t));
            }
            None
        },
        Link::Triangle(t) => {
            let hit = tri_hit_in_range(orig, dir, t, rng);
            proof {
                match hit {
                    Option::Some(h) => {
                        assert(link_tris(*l).contains(*t) && tri_hit_in(orig@, dir@, t@, rng)
                            && hit_matches(h, orig@, dir@, t@));
                        assert forall|w: Triangle| #[trigger]
                            link_tris(*l).contains(w) && tri_hit_in(orig@, dir@, w@, rng) implies
                            spec_rat_le(
                            h.t.num as int,
                            h.t.den as int,
                            mt_t_num_pos(orig@, dir@, w@),
                            mt_den_pos(orig@, dir@, w@),
                        ) by {
                            assert(w == *t);
                        }
                    },
                    Option::None => {
                        assert forall|w: Triangle| !(#[trigger] link_tris(*l).contains(w)
                            && tri_hit_in(orig@, dir@, w@, rng)) by {
                            if link_tris(*l).contains(w) {
                                assert(w == *t);
                            }
                        }
                    },
                }
            }
            hit
        },
        Link::Node(node) => {
            proof {
                lemma_tris_in_box(*l);
                crate::tree::lemma_wf_box_bounded(*l);
            }
            if ray_cube_intersect(orig, dir, node.min_value, node.max_value) {
                let lres = link_nearest(&node.left.root, orig, dir, rng);
                let rres = link_nearest(&node.right.root, orig, dir, rng);
                let r = nearer_hit(lres, rres);
                proof {
                    lemma_nearest_combine(
                        link_tris(node.left.root),
                        link_tris(node.right.root),
                        orig@,
                        dir@,
                        rng,
                        lres,
                        rres,
                        r,
                    );
                }
                r
            } else {
                proof {
                    assert forall|w: Triangle| !(#[trigger] link_tris(*l).contains(w)
                        && tri_hit_in(orig@, dir@, w@, rng)) by {
                        if link_tris(*l).contains(w) && tri_hit_in(orig@, dir@, w@, rng) {
                            lemma_hit_reaches_box(orig@, dir@, w@, link_sbox(*l));
                        }
                    }
                }
                None
            }
        },
    }
}

impl Tree {
    /// Occlusion probe: is any triangle hit along the segment from `source`
    /// to `middle`?
    pub fn does_intersect(&self, source: Vec3, middle: Vec3) -> (r: bool)
        requires
            self.wf(),
            v3_bounded(source@, COORD_LIMIT as int),
            v3_bounded(middle@, COORD_LIMIT as int),
        ensures
            r == set_any_hit(
                self.tris(),
                source@,
                s_sub(middle@, source@),
                RayRange::Segment,
            ),
    {
        self.query_any(source, middle)
    }

    /// Any-hit query along the segment from `origin` to `target`.
    pub fn query_any(&self, origin: Vec3, target: Vec3) -> (r: bool)
        requires
            self.wf(),
            v3_bounded(origin@, COORD_LIMIT as int),
            v3_bounded(target@, COORD_LIMIT as int),
        ensures
            r == set_any_hit(
                self.tris(),
                origin@,
                s_sub(target@, origin@),
                RayRange::Segment,
            ),
    {
        let dir = target.sub(origin);
        link_any_hit(&self.root, origin, dir, RayRange::Segment)
    }

    /// Nearest-hit query along the forward ray from `origin` in
    /// `direction`: the hit with the smallest parameter `t >= 0`, if any.
    pub fn query_nearest(&self, origin: Vec3, direction: Vec3) -> (r: Option<Hit>)
        requires
            self.wf(),
            v3_bounded(origin@, COORD_LIMIT as int),
            v3_bounded(direction@, 2 * COORD_LIMIT as int),
        ensures
            nearest_spec(self.tris(), origin@, direction@, RayRange::Forward, r),
            r is Some ==> r->Some_0.t.wf(),
    {
        link_nearest(&self.root, origin, direction, RayRange::Forward)
    }
}

/// Brute-force any-hit scan over a plain triangle list, against the same
/// contract as the tree's [`Tree::query_any`].
pub fn brute_force_any(triangles: &Vec<Triangle>, origin: Vec3, target: Vec3) -> (r: bool)
    requires
        forall|i: int| 0 <= i < triangles@.len() ==> tri_bounded(#[trigger] triangles@[i]@),
        v3_bounded(origin@, COORD_LIMIT as int),
        v3_bounded(target@, COORD_LIMIT as int),
    ensures
        r == set_any_hit(
            triangles@.to_multiset(),
            origin@,
            s_sub(target@, origin@),
            RayRange::Segment,
        ),
{
    let dir = target.sub(origin);
    let mut i: usize = 0;
    proof {
        broadcast use vstd::seq_lib::group_to_multiset_ensures;

        assert(forall|t: Triangle| !triangles@.take(0).to_multiset().contains(t));
    }
    while i < triangles.len()
        invariant
            0 <= i <= triangles@.len(),
            forall|j: int| 0 <= j < triangles@.len() ==> tri_bounded(#[trigger] triangles@[j]@),
            ray_bounded(origin@, dir@),
            dir@ == s_sub(target@, origin@),
            !set_any_hit(
                triangles@.take(i as int).to_multiset(),
                origin@,
                dir@,
                RayRange::Segment,
            ),
        decreases triangles@.len() - i,
    {
        let hit = tri_hit_in_range(origin, dir, &triangles[i], RayRange::Segment);
        proof {
            broadcast use vstd::seq_lib::group_to_multiset_ensures;

            assert(triangles@.take(i as int + 1) =~= triangles@.take(i as int).push(
                triangles@[i as int],
            ));
        }
        if hit.is_some() {
            proof {
                let m = triangles@.take(i as int + 1).to_multiset();
                assert(m.contains(triangles@[i as int]));
                assert(triangles@.take(triangles@.len() as int) =~= triangles@);
                vstd::seq_lib::lemma_multiset_commutative(
                    triangles@.take(i as int + 1),
                    triangles@.skip(i as int + 1),
                );
                assert(triangles@.take(i as int + 1) + triangles@.skip(i as int + 1)
                    =~= triangles@);
                assert(triangles@.to_multiset().contains(triangles@[i as int]));
            }
            return true;
        }
        proof {
            let prev = triangles@.take(i as int).to_multiset();
            let m = triangles@.take(i as int + 1).to_multiset();
            assert forall|w: Triangle| !(#[trigger] m.contains(w) && tri_hit_in(
                origin@,
                dir@,
                w@,
                RayRange::Segment,
            )) by {
                if m.contains(w) && tri_hit_in(origin@, dir@, w@, RayRange::Segment) {
                    if w != triangles@[i as int] {
                        assert(prev.contains(w));
                    }
                }
            }
        }
        i += 1;
    }
    proof {
        assert(triangles@.take(triangles@.len() as int) =~= triangles@);
    }
    false
}

/// Brute-force nearest-hit scan over a plain triangle list, against the
/// same contract as the tree's [`Tree::query_nearest`].
pub fn brute_force_nearest(triangles: &Vec<Triangle>, origin: Vec3, direction: Vec3) -> (r:
    Option<Hit>)
    requires
        forall|i: int| 0 <= i < triangles@.len() ==> tri_bounded(#[trigger] triangles@[i]@),
        v3_bounded(origin@, COORD_LIMIT as int),
        v3_bounded(direction@, 2 * COORD_LIMIT as int),
    ensures
        nearest_spec(triangles@.to_multiset(), origin@, direction@, RayRange::Forward, r),
        r is Some ==> r->Some_0.t.wf(),
{
    let mut i: usize = 0;
    let mut acc: Option<Hit> = None;
    proof {
        broadcast use vstd::seq_lib::group_to_multiset_ensures;

        assert(forall|t: Triangle| !triangles@.take(0).to_multiset().contains(t));
    }
    while i < triangles.len()
        invariant
            0 <= i <= triangles@.len(),
            forall|j: int| 0 <= j < triangles@.len() ==> tri_bounded(#[trigger] triangles@[j]@),
            ray_bounded(origin@, direction@),
            nearest_spec(
                triangles@.take(i as int).to_multiset(),
                origin@,
                direction@,
                RayRange::Forward,
                acc,
            ),
            acc is Some ==> acc->Some_0.t.wf(),
        decreases triangles@.len() - i,
    {
        let hit = tri_hit_in_range(origin, direction, &triangles[i], RayRange::Forward);
        let ghost single = Multiset::<Triangle>::empty().insert(triangles@[i as int]);
        proof {
            broadcast use vstd::seq_lib::group_to_multiset_ensures;

            assert(triangles@.take(i as int + 1) =~= triangles@.take(i as int).push(
                triangles@[i as int],
            ));
            assert(triangles@.take(i as int + 1).to_multiset() =~= triangles@.take(
                i as int,
            ).to_multiset().add(single));
            match hit {
                Option::Some(h) => {
                    assert(single.contains(triangles@[i as int]) && tri_hit_in(
                        origin@,
                        direction@,
                        triangles@[i as int]@,
                        RayRange::Forward,
                    ) && hit_matches(h, origin@, direction@, triangles@[i as int]@));
                    assert forall|w: Triangle| #[trigger]
                        single.contains(w) && tri_hit_in(
                        origin@,
                        direction@,
                        w@,
                        RayRange::Forward,
                    ) implies spec_rat_le(
                        h.t.num as int,
                        h.t.den as int,
                        mt_t_num_pos(origin@, direction@, w@),
                        mt_den_pos(origin@, direction@, w@),
                    ) by {
                        assert(w == triangles@[i as int]);
                    }
                },
                Option::None => {
                    assert forall|w: Triangle| !(#[trigger] single.contains(w) && tri_hit_in(
                        origin@,
                        direction@,
                        w@,
                        RayRange::Forward,
                    )) by {
                        if single.contains(w) {
                            assert(w == triangles@[i as int]);
                        }
                    }
                },
            }
            assert(nearest_spec(single, origin@, direction@, RayRange::Forward, hit));
        }
        let next = nearer_hit(acc, hit);
        proof {
            lemma_nearest_combine(
                triangles@.take(i as int).to_multiset(),
                single,
                origin@,
                direction@,
                RayRange::Forward,
                acc,
                hit,
                next,
            );
        }
        acc = next;
        i += 1;
    }
    proof {
        assert(triangles@.take(triangles@.len() as int) =~= triangles@);
    }
    acc
}

} // verus!
