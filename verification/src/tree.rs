//! The incremental bounding-volume hierarchy.
//!
//! A tree is grown by inserting one triangle at a time: a volume heuristic
//! picks the subtree each new triangle joins, and a local one-level
//! rearrangement keeps sibling boxes small as the tree grows. Every internal
//! node's box is exactly the union of its children's boxes — the invariant
//! [`wf_link`] that insertion preserves and every query relies on.
use vstd::prelude::*;

use vstd::multiset::Multiset;

use crate::vec3::{
    max_coor, min_coor, s_max_coor, s_min_coor, v3_bounded, Vec3, V3, COORD_LIMIT,
};

verus! {

broadcast use vstd::multiset::group_multiset_axioms;

/// A triangle: an ordered triple of vertices, a disjoint immutable primitive.
#[derive(Copy, Clone, Debug, PartialEq, Eq, Structural)]
pub struct Triangle {
    pub v0: Vec3,
    pub v1: Vec3,
    pub v2: Vec3,
}

/// The mathematical value of a [`Triangle`].
pub ghost struct STri {
    pub v0: V3,
    pub v1: V3,
    pub v2: V3,
}

impl View for Triangle {
    type V = STri;

    open spec fn view(&self) -> STri {
        STri { v0: self.v0@, v1: self.v1@, v2: self.v2@ }
    }
}

/// All vertex coordinates within the global coordinate bound.
pub open spec fn tri_bounded(t: STri) -> bool {
    &&& v3_bounded(t.v0, COORD_LIMIT as int)
    &&& v3_bounded(t.v1, COORD_LIMIT as int)
    &&& v3_bounded(t.v2, COORD_LIMIT as int)
}

/// An axis-aligned bounding box, as a pair of corner points.
pub ghost struct SBox {
    pub lo: V3,
    pub hi: V3,
}

/// The empty box: the sentinel `(+max, -max)` pair, an identity for
/// [`sbox_union`] against any box with representable corners.
pub open spec fn empty_sbox() -> SBox {
    SBox {
        lo: V3 { x: i64::MAX as int, y: i64::MAX as int, z: i64::MAX as int },
        hi: V3 { x: i64::MIN as int, y: i64::MIN as int, z: i64::MIN as int },
    }
}

pub open spec fn sbox_union(a: SBox, b: SBox) -> SBox {
    SBox { lo: s_min_coor(a.lo, b.lo), hi: s_max_coor(a.hi, b.hi) }
}

/// The tight bound of a triangle's three vertices.
pub open spec fn tri_sbox(t: STri) -> SBox {
    SBox {
        lo: s_min_coor(t.v2, s_min_coor(t.v0, t.v1)),
        hi: s_max_coor(t.v2, s_max_coor(t.v0, t.v1)),
    }
}

pub open spec fn v3_in_sbox(bb: SBox, v: V3) -> bool {
    &&& bb.lo.x <= v.x <= bb.hi.x
    &&& bb.lo.y <= v.y <= bb.hi.y
    &&& bb.lo.z <= v.z <= bb.hi.z
}

/// All three vertices of `t` lie inside `bb`.
pub open spec fn sbox_contains_tri(bb: SBox, t: STri) -> bool {
    &&& v3_in_sbox(bb, t.v0)
    &&& v3_in_sbox(bb, t.v1)
    &&& v3_in_sbox(bb, t.v2)
}

/// `inner` lies inside `outer`.
pub open spec fn sbox_le(inner: SBox, outer: SBox) -> bool {
    &&& outer.lo.x <= inner.lo.x && inner.hi.x <= outer.hi.x
    &&& outer.lo.y <= inner.lo.y && inner.hi.y <= outer.hi.y
    &&& outer.lo.z <= inner.lo.z && inner.hi.z <= outer.hi.z
}

/// Volume of a box: the product of its three extents. A planar box has
/// volume zero, so on flat meshes the insertion heuristic compares ties —
/// a known weakness of raw volume as a cost metric, kept as designed.
pub open spec fn sbox_vol(bb: SBox) -> int {
    (bb.hi.x - bb.lo.x) * (bb.hi.y - bb.lo.y) * (bb.hi.z - bb.lo.z)
}

/// Box union is commutative and associative in the ways insertion needs.
pub proof fn lemma_union_aci(a: SBox, b: SBox, c: SBox)
    ensures
        sbox_union(a, b) == sbox_union(b, a),
        sbox_union(sbox_union(a, c), b) == sbox_union(sbox_union(a, b), c),
        sbox_union(a, sbox_union(b, c)) == sbox_union(sbox_union(a, b), c),
{
}

/// A subtree: empty, a single triangle, or an internal node.
#[derive(Debug)]
pub enum Link {
    Empty,
    Triangle(Triangle),
    Node(Box<Node>),
}

/// An internal node: a bounding box and two owned subtrees.
#[derive(Debug)]
pub struct Node {
    pub min_value: Vec3,
    pub max_value: Vec3,
    pub left: Tree,
    pub right: Tree,
}

/// The tree: a single root subtree.
#[derive(Debug)]
pub struct Tree {
    pub root: Link,
}

/// The multiset of triangles stored at the leaves of `l`.
pub open spec fn link_tris(l: Link) -> Multiset<Triangle>
    decreases l,
{
    match l {
        Link::Empty => Multiset::empty(),
        Link::Triangle(t) => Multiset::empty().insert(t),
        Link::Node(n) => link_tris(n.left.root).add(link_tris(n.right.root)),
    }
}

/// The number of leaves of `l`.
pub open spec fn leaf_count(l: Link) -> nat
    decreases l,
{
    match l {
        Link::Empty => 0,
        Link::Triangle(t) => 1,
        Link::Node(n) => leaf_count(n.left.root) + leaf_count(n.right.root),
    }
}

/// The bounding box of a subtree: the sentinel for an empty subtree, the
/// tight vertex bound for a leaf, the stored corners for a node.
pub open spec fn link_sbox(l: Link) -> SBox {
    match l {
        Link::Empty => empty_sbox(),
        Link::Triangle(t) => tri_sbox(t@),
        Link::Node(n) => SBox { lo: n.min_value@, hi: n.max_value@ },
    }
}

/// Well-formedness: leaves hold bounded triangles; every internal node has
/// two non-empty children and stores exactly the union of their boxes.
pub open spec fn wf_link(l: Link) -> bool
    decreases l,
{
    match l {
        Link::Empty => true,
        Link::Triangle(t) => tri_bounded(t@),
        Link::Node(n) => {
            &&& !(n.left.root is Empty)
            &&& !(n.right.root is Empty)
            &&& wf_link(n.left.root)
            &&& wf_link(n.right.root)
            &&& n.min_value@ == s_min_coor(link_sbox(n.left.root).lo, link_sbox(n.right.root).lo)
            &&& n.max_value@ == s_max_coor(link_sbox(n.left.root).hi, link_sbox(n.right.root).hi)
        },
    }
}

/// The box of a well-formed non-empty subtree has in-bound corners in the
/// right order.
pub proof fn lemma_wf_box_bounded(l: Link)
    requires
        wf_link(l),
        !(l is Empty),
    ensures
        v3_bounded(link_sbox(l).lo, COORD_LIMIT as int),
        v3_bounded(link_sbox(l).hi, COORD_LIMIT as int),
        link_sbox(l).lo.x <= link_sbox(l).hi.x,
        link_sbox(l).lo.y <= link_sbox(l).hi.y,
        link_sbox(l).lo.z <= link_sbox(l).hi.z,
    decreases l,
{
    match l {
        Link::Empty => {},
        Link::Triangle(t) => {},
        Link::Node(n) => {
            lemma_wf_box_bounded(n.left.root);
            lemma_wf_box_bounded(n.right.root);
        },
    }
}

/// Every triangle of a well-formed subtree lies inside the subtree's box.
pub proof fn lemma_tris_in_box(l: Link)
    requires
        wf_link(l),
    ensures
        forall|t: Triangle| #[trigger]
            link_tris(l).contains(t) ==> sbox_contains_tri(link_sbox(l), t@),
    decreases l,
{
    match l {
        Link::Empty => {},
        Link::Triangle(t) => {},
        Link::Node(n) => {
            lemma_tris_in_box(n.left.root);
            lemma_tris_in_box(n.right.root);
            assert forall|t: Triangle| #[trigger] link_tris(l).contains(t) implies
                sbox_contains_tri(link_sbox(l), t@) by {
                if link_tris(n.left.root).contains(t) {
                    assert(sbox_contains_tri(link_sbox(n.left.root), t@));
                } else {
                    assert(link_tris(n.right.root).contains(t));
                    assert(sbox_contains_tri(link_sbox(n.right.root), t@));
                }
            }
        },
    }
}

/// The box of a tree, as the corner pair `(min, max)`; the empty tree yields
/// the sentinel `(max, min)` pair.
pub fn get_bouncies(tree: &Tree) -> (r: (Vec3, Vec3))
    ensures
        r.0@ == link_sbox(tree.root).lo,
        r.1@ == link_sbox(tree.root).hi,
{
    match &tree.root {
        Link::Empty => (
            Vec3 { x: i64::MAX, y: i64::MAX, z: i64::MAX },
            Vec3 { x: i64::MIN, y: i64::MIN, z: i64::MIN },
        ),
        Link::Triangle(triangle) => (
            min_coor(triangle.v2, min_coor(triangle.v0, triangle.v1)),
            max_coor(triangle.v2, max_coor(triangle.v0, triangle.v1)),
        ),
        Link::Node(node) => (node.min_value, node.max_value),
    }
}

/// Volume of a box extent vector.
pub fn vec_volume(vec: Vec3) -> (r: i64)
    requires
        0 <= vec@.x <= 4 * COORD_LIMIT,
        0 <= vec@.y <= 4 * COORD_LIMIT,
        0 <= vec@.z <= 4 * COORD_LIMIT,
    ensures
        r == vec@.x * vec@.y * vec@.z,
        0 <= r <= 0x1000_0000_0000_0000,
{
    proof {
        assert(0 <= vec@.x * vec@.y <= 0x100_0000_0000) by (nonlinear_arith)
            requires
                0 <= vec@.x <= 0x10_0000,
                0 <= vec@.y <= 0x10_0000,
        ;
        assert(0 <= (vec@.x * vec@.y) * vec@.z <= 0x1000_0000_0000_0000) by (nonlinear_arith)
            requires
                0 <= vec@.x * vec@.y <= 0x100_0000_0000,
                0 <= vec@.z <= 0x10_0000,
        ;
    }
    vec.x * vec.y * vec.z
}

/// Cost of inserting `new_value` into `insert_tree` while leaving
/// `other_tree` alone: the volume `insert_tree`'s box would grow to, plus
/// `other_tree`'s volume.
pub fn insert_value_into_tree_volume(new_value: &Triangle, insert_tree: &Tree, other_tree: &Tree)
    -> (r: i64)
    requires
        wf_link(insert_tree.root),
        wf_link(other_tree.root),
        !(insert_tree.root is Empty),
        !(other_tree.root is Empty),
        tri_bounded(new_value@),
    ensures
        r == sbox_vol(sbox_union(link_sbox(insert_tree.root), tri_sbox(new_value@))) + sbox_vol(
            link_sbox(other_tree.root),
        ),
{
    proof {
        lemma_wf_box_bounded(insert_tree.root);
        lemma_wf_box_bounded(other_tree.root);
    }
    let (min_insert_tree, max_insert_tree) = get_bouncies(insert_tree);
    let (min_other_tree, max_other_tree) = get_bouncies(other_tree);

    let (tri_min, tri_max) = (
        min_coor(new_value.v2, min_coor(new_value.v0, new_value.v1)),
        max_coor(new_value.v2, max_coor(new_value.v0, new_value.v1)),
    );
    let grown_min = min_coor(min_insert_tree, tri_min);
    let grown_max = max_coor(max_insert_tree, tri_max);

    vec_volume(grown_max.sub(grown_min)) + vec_volume(max_other_tree.sub(min_other_tree))
}

/// Cost of pairing `left` with `right` while `other` stands alone: the
/// volume of their combined box plus `other`'s volume.
pub fn combine_tree_volume(left: &Tree, right: &Tree, other: &Tree) -> (r: i64)
    requires
        wf_link(left.root),
        wf_link(right.root),
        wf_link(other.root),
        !(left.root is Empty),
        !(right.root is Empty),
        !(other.root is Empty),
    ensures
        r == sbox_vol(sbox_union(link_sbox(left.root), link_sbox(right.root))) + sbox_vol(
            link_sbox(other.root),
        ),
{
    proof {
        lemma_wf_box_bounded(left.root);
        lemma_wf_box_bounded(right.root);
        lemma_wf_box_bounded(other.root);
    }
    let (min_left, max_left) = get_bouncies(left);
    let (min_right, max_right) = get_bouncies(right);
    let (min_other, max_other) = get_bouncies(other);

    vec_volume(max_coor(max_left, max_right).sub(min_coor(min_left, min_right))) + vec_volume(
        max_other.sub(min_other),
    )
}

/// Build an internal node over two non-empty subtrees, with its box set to
/// exactly the union of theirs.
fn mk_node(left: Tree, right: Tree) -> (r: Link)
    requires
        wf_link(left.root),
        wf_link(right.root),
        !(left.root is Empty),
        !(right.root is Empty),
    ensures
        r is Node,
        wf_link(r),
        link_tris(r) == link_tris(left.root).add(link_tris(right.root)),
        link_sbox(r) == sbox_union(link_sbox(left.root), link_sbox(right.root)),
{
    let (min_left, max_left) = get_bouncies(&left);
    let (min_right, max_right) = get_bouncies(&right);
    Link::Node(
        Box::new(
            Node {
                min_value: min_coor(min_left, min_right),
                max_value: max_coor(max_left, max_right),
                left,
                right,
            },
        ),
    )
}

/// One-level local rearrangement after an insertion: among keeping the
/// freshly grown subtree's two children together, or trading either of them
/// for the sibling subtree, pick the pairing of smallest combined volume.
/// Returns the pair to re-join and the subtree left single.
fn rebalance(touched: Tree, sib: Tree) -> (r: (Tree, Tree))
    requires
        wf_link(touched.root),
        touched.root is Node,
        wf_link(sib.root),
        !(sib.root is Empty),
    ensures
        wf_link(r.0.root),
        wf_link(r.1.root),
        !(r.0.root is Empty),
        !(r.1.root is Empty),
        link_tris(r.0.root).add(link_tris(r.1.root)) == link_tris(touched.root).add(
            link_tris(sib.root),
        ),
        sbox_union(link_sbox(r.0.root), link_sbox(r.1.root)) == sbox_union(
            link_sbox(touched.root),
            link_sbox(sib.root),
        ),
{
    let ghost old_tris = link_tris(touched.root).add(link_tris(sib.root));
    let ghost old_span = sbox_union(link_sbox(touched.root), link_sbox(sib.root));
    match touched.root {
        Link::Node(boxed) => {
            let node = *boxed;
            let Node { min_value: _, max_value: _, left: a, right: b } = node;
            let keep = combine_tree_volume(&a, &b, &sib);
            let swap_b = combine_tree_volume(&a, &sib, &b);
            let swap_a = combine_tree_volume(&sib, &b, &a);
            if swap_b < keep && swap_b <= swap_a {
                let r = (Tree { root: mk_node(a, sib) }, b);
                proof {
                    assert(link_tris(r.0.root).add(link_tris(r.1.root)) =~= old_tris);
                }
                r
            } else if swap_a < keep {
                let r = (Tree { root: mk_node(sib, b) }, a);
                proof {
                    assert(link_tris(r.0.root).add(link_tris(r.1.root)) =~= old_tris);
                }
                r
            } else {
                let r = (Tree { root: mk_node(a, b) }, sib);
                proof {
                    assert(link_tris(r.0.root).add(link_tris(r.1.root)) =~= old_tris);
                }
                r
            }
        },
        _ => vstd::pervasive::unreached(),
    }
}

/// Insert a triangle into a subtree, returning the grown subtree. Follows
/// the volume heuristic to pick a child, then rearranges one level.
#[verifier::rlimit(60)]
fn insert_link(l: Link, tri: Triangle) -> (r: Link)
    requires
        wf_link(l),
        tri_bounded(tri@),
    ensures
        wf_link(r),
        !(r is Empty),
        !(l is Empty) ==> r is Node,
        link_tris(r) == link_tris(l).insert(tri),
        link_sbox(r) == if l is Empty {
            tri_sbox(tri@)
        } else {
            sbox_union(link_sbox(l), tri_sbox(tri@))
        },
    decreases l,
{
    let ghost old_l = l;
    match l {
        Link::Empty => {
            let r = Link::Triangle(tri);
            proof {
                assert(link_tris(r) =~= link_tris(old_l).insert(tri));
            }
            r
        },
        Link::Triangle(old_t) => {
            let left = Tree { root: Link::Triangle(old_t) };
            let right = Tree { root: Link::Triangle(tri) };
            let r = mk_node(left, right);
            proof {
                assert(link_tris(r) =~= link_tris(old_l).insert(tri));
            }
            r
        },
        Link::Node(boxed) => {
            let node = *boxed;
            let Node { min_value: _, max_value: _, left, right } = node;
            let ghost lt = link_tris(left.root);
            let ghost rt = link_tris(right.root);
            let ghost lb = link_sbox(left.root);
            let ghost rb = link_sbox(right.root);
            let ghost tb = tri_sbox(tri@);
            proof {
                assert(link_tris(old_l) == lt.add(rt));
                assert(link_sbox(old_l) == sbox_union(lb, rb));
            }
            let iv_left = insert_value_into_tree_volume(&tri, &left, &right);
            let iv_right = insert_value_into_tree_volume(&tri, &right, &left);
            if iv_left < iv_right {
                let grown = Tree { root: insert_link(left.root, tri) };
                let (c, s) = rebalance(grown, right);
                let r = mk_node(c, s);
                proof {
                    assert(link_tris(r) =~= lt.insert(tri).add(rt));
                    assert(lt.insert(tri).add(rt) =~= lt.add(rt).insert(tri));
                    assert(link_sbox(r) == sbox_union(sbox_union(lb, tb), rb));
                    lemma_union_aci(lb, rb, tb);
                }
                r
            } else {
                let grown = Tree { root: insert_link(right.root, tri) };
                let (c, s) = rebalance(grown, left);
                let r = mk_node(s, c);
                proof {
                    assert(link_tris(r) =~= rt.insert(tri).add(lt));
                    assert(rt.insert(tri).add(lt) =~= lt.add(rt).insert(tri));
                    assert(link_sbox(r) == sbox_union(lb, sbox_union(rb, tb)));
                    lemma_union_aci(lb, rb, tb);
                }
                r
            }
        },
    }
}

impl Tree {
    pub open spec fn wf(self) -> bool {
        wf_link(self.root)
    }

    /// The triangles this tree holds, as a multiset.
    pub open spec fn tris(self) -> Multiset<Triangle> {
        link_tris(self.root)
    }

    /// A new, empty tree.
    pub fn new() -> (t: Tree)
        ensures
            t.root is Empty,
            t.wf(),
            t.tris() == Multiset::<Triangle>::empty(),
    {
        Tree { root: Link::Empty }
    }

    /// Insert one triangle. The tree gains exactly that triangle as one new
    /// leaf, and its root box grows to absorb exactly the triangle's box.
    pub fn insert(&mut self, arg: &Triangle)
        requires
            old(self).wf(),
            tri_bounded(arg@),
        ensures
            final(self).wf(),
            !(final(self).root is Empty),
            final(self).tris() == old(self).tris().insert(*arg),
            link_sbox(final(self).root) == if old(self).root is Empty {
                tri_sbox(arg@)
            } else {
                sbox_union(link_sbox(old(self).root), tri_sbox(arg@))
            },
    {
        let mut root = Link::Empty;
        core::mem::swap(&mut root, &mut self.root);
        self.root = insert_link(root, *arg);
    }
}

/// Build a tree by inserting the given triangles one at a time, in order.
pub fn build(triangles: &Vec<Triangle>) -> (t: Tree)
    requires
        forall|i: int| 0 <= i < triangles@.len() ==> tri_bounded(#[trigger] triangles@[i]@),
    ensures
        t.wf(),
        t.tris() == triangles@.to_multiset(),
{
    let mut t = Tree::new();
    let mut i: usize = 0;
    proof {
        broadcast use vstd::seq_lib::group_to_multiset_ensures;

        assert(t.tris() =~= triangles@.take(0).to_multiset());
    }
    while i < triangles.len()
        invariant
            0 <= i <= triangles@.len(),
            forall|j: int| 0 <= j < triangles@.len() ==> tri_bounded(#[trigger] triangles@[j]@),
            t.wf(),
            t.tris() == triangles@.take(i as int).to_multiset(),
        decreases triangles@.len() - i,
    {
        t.insert(&triangles[i]);
        proof {
            broadcast use vstd::seq_lib::group_to_multiset_ensures;

            assert(triangles@.take(i as int + 1) =~= triangles@.take(i as int).push(
                triangles@[i as int],
            ));
        }
        i += 1;
    }
    proof {
        assert(triangles@.take(triangles@.len() as int) =~= triangles@);
    }
    t
}

} // verus!
