//! The library's global guarantees, stated and proved over the tree's
//! public specification functions.
use vstd::prelude::*;

use vstd::multiset::Multiset;

use crate::intersect::{hit_matches, mt_den_pos, mt_e1, mt_e2, mt_t_num_pos, Hit};
use crate::query::{nearest_spec, set_any_hit, tri_hit_in, RayRange};
use crate::rat::{lemma_rat_le_antisymm, spec_rat_eq, spec_rat_le};
use crate::slab::ray_reaches_box;
use crate::tree::{
    leaf_count, lemma_tris_in_box, link_sbox, link_tris, sbox_contains_tri, sbox_le, wf_link,
    Link, SBox, STri, Tree, Triangle,
};
use crate::vec3::{s_cross, V3};

verus! {

broadcast use vstd::multiset::group_multiset_axioms;

/// A well-formed non-empty subtree holds at least one triangle.
pub proof fn lemma_tris_nonempty(l: Link)
    requires
        wf_link(l),
        !(l is Empty),
    ensures
        link_tris(l).len() > 0,
    decreases l,
{
    match l {
        Link::Empty => {},
        Link::Triangle(t) => {},
        Link::Node(n) => {
            lemma_tris_nonempty(n.left.root);
            lemma_tris_nonempty(n.right.root);
        },
    }
}

/// A tree has exactly as many leaves as triangles: every insertion adds one
/// leaf, so after `N` insertions the tree has `N` leaves.
pub proof fn lemma_leaf_count_matches(l: Link)
    ensures
        leaf_count(l) == link_tris(l).len(),
    decreases l,
{
    match l {
        Link::Empty => {},
        Link::Triangle(t) => {},
        Link::Node(n) => {
            lemma_leaf_count_matches(n.left.root);
            lemma_leaf_count_matches(n.right.root);
        },
    }
}

/// The box of a well-formed subtree is the *least* box containing its
/// triangles: any box containing every triangle contains the subtree's box.
pub proof fn lemma_box_within(l: Link, bb: SBox)
    requires
        wf_link(l),
        !(l is Empty),
        forall|t: Triangle| #[trigger] link_tris(l).contains(t) ==> sbox_contains_tri(bb, t@),
    ensures
        sbox_le(link_sbox(l), bb),
    decreases l,
{
    match l {
        Link::Empty => {},
        Link::Triangle(t) => {
            assert(link_tris(l).contains(t));
        },
        Link::Node(n) => {
            assert forall|t: Triangle| #[trigger] link_tris(n.left.root).contains(t) implies
                sbox_contains_tri(bb, t@) by {
                assert(link_tris(l).contains(t));
            }
            assert forall|t: Triangle| #[trigger] link_tris(n.right.root).contains(t) implies
                sbox_contains_tri(bb, t@) by {
                assert(link_tris(l).contains(t));
            }
            lemma_box_within(n.left.root, bb);
            lemma_box_within(n.right.root, bb);
        },
    }
}

/// The root box is determined by the triangle multiset alone: two
/// well-formed trees holding the same triangles have the same root box,
/// whatever order the triangles were inserted in. Together with
/// [`lemma_tris_in_box`] and [`lemma_box_within`] this says the root box is
/// exactly the tight bound of all inserted vertices.
pub proof fn lemma_root_box_order_independent(a: Link, b: Link)
    requires
        wf_link(a),
        wf_link(b),
        link_tris(a) == link_tris(b),
        !(a is Empty),
    ensures
        !(b is Empty),
        link_sbox(a) == link_sbox(b),
{
    lemma_tris_nonempty(a);
    if b is Empty {
        assert(link_tris(b).len() == 0);
    }
    lemma_tris_in_box(a);
    lemma_tris_in_box(b);
    lemma_box_within(a, link_sbox(b));
    lemma_box_within(b, link_sbox(a));
    let ba = link_sbox(a);
    let bbx = link_sbox(b);
    assert(ba.lo.x == bbx.lo.x && ba.lo.y == bbx.lo.y && ba.lo.z == bbx.lo.z);
    assert(ba.hi.x == bbx.hi.x && ba.hi.y == bbx.hi.y && ba.hi.z == bbx.hi.z);
}

/// Acceleration equivalence: the tree's queries and a brute-force scan over
/// any list with the same triangles are specified against the same
/// predicates over the same multiset, so their answers coincide.
pub proof fn lemma_acceleration_equivalence(
    t: Tree,
    v: Seq<Triangle>,
    o: V3,
    d: V3,
    rng: RayRange,
)
    requires
        t.tris() == v.to_multiset(),
    ensures
        set_any_hit(t.tris(), o, d, rng) == set_any_hit(v.to_multiset(), o, d, rng),
        forall|r: Option<Hit>|
            nearest_spec(t.tris(), o, d, rng, r) == #[trigger] nearest_spec_of_seq(
                r,
                v,
                o,
                d,
                rng,
            ),
{
}

/// The nearest-hit contract read over a sequence's multiset.
pub open spec fn nearest_spec_of_seq(r: Option<Hit>, v: Seq<Triangle>, o: V3, d: V3, rng: RayRange)
    -> bool {
    nearest_spec(v.to_multiset(), o, d, rng, r)
}

/// Any two records meeting the nearest-hit contract for the same multiset
/// and ray carry the same parameter `t` (as a rational).
pub proof fn lemma_nearest_t_unique(
    m: Multiset<Triangle>,
    o: V3,
    d: V3,
    rng: RayRange,
    h1: Hit,
    h2: Hit,
)
    requires
        crate::query::nearest_spec(m, o, d, rng, Some(h1)),
        crate::query::nearest_spec(m, o, d, rng, Some(h2)),
    ensures
        spec_rat_eq(h1.t.num as int, h1.t.den as int, h2.t.num as int, h2.t.den as int),
{
    let w1 = choose|t: Triangle| #[trigger]
        m.contains(t) && tri_hit_in(o, d, t@, rng) && hit_matches(h1, o, d, t@);
    let w2 = choose|t: Triangle| #[trigger]
        m.contains(t) && tri_hit_in(o, d, t@, rng) && hit_matches(h2, o, d, t@);
    assert(spec_rat_le(
        h1.t.num as int,
        h1.t.den as int,
        mt_t_num_pos(o, d, w2@),
        mt_den_pos(o, d, w2@),
    ));
    assert(spec_rat_le(
        h2.t.num as int,
        h2.t.den as int,
        mt_t_num_pos(o, d, w1@),
        mt_den_pos(o, d, w1@),
    ));
    lemma_rat_le_antisymm(h1.t.num as int, h1.t.den as int, h2.t.num as int, h2.t.den as int);
}

/// A ray that misses the root box hits nothing in the tree (the traversal
/// also rejects it before visiting any child or leaf).
pub proof fn lemma_root_miss_rejected(t: Tree, o: V3, d: V3, rng: RayRange)
    requires
        t.wf(),
        !ray_reaches_box(o, d, link_sbox(t.root).lo, link_sbox(t.root).hi),
    ensures
        !set_any_hit(t.tris(), o, d, rng),
{
    lemma_tris_in_box(t.root);
    assert forall|w: Triangle| !(#[trigger] t.tris().contains(w) && tri_hit_in(o, d, w@, rng))
        by {
        if t.tris().contains(w) && tri_hit_in(o, d, w@, rng) {
            crate::geom::lemma_hit_reaches_box(o, d, w@, link_sbox(t.root));
        }
    }
}

/// A degenerate (zero-area) triangle is never hit, in any range, by any ray.
pub proof fn lemma_degenerate_triangle_never_hits(o: V3, d: V3, tri: STri, rng: RayRange)
    requires
        s_cross(mt_e1(tri), mt_e2(tri)) == (V3 { x: 0, y: 0, z: 0 }),
    ensures
        !tri_hit_in(o, d, tri, rng),
{
    crate::geom::lemma_degenerate_no_hit(o, d, tri);
}

/// Insertion order cannot change what queries see: two well-formed trees
/// with equal triangle multisets satisfy the same any-hit predicate and the
/// same nearest-hit contract for every ray.
pub proof fn lemma_query_results_order_independent(
    a: Tree,
    b: Tree,
    o: V3,
    d: V3,
    rng: RayRange,
)
    requires
        a.tris() == b.tris(),
    ensures
        set_any_hit(a.tris(), o, d, rng) == set_any_hit(b.tris(), o, d, rng),
        forall|r: Option<Hit>| #[trigger]
            crate::query::nearest_spec(a.tris(), o, d, rng, r) == crate::query::nearest_spec(
                b.tris(),
                o,
                d,
                rng,
                r,
            ),
{
}

} // verus!
