//! Proved properties of the flat hierarchy that GPU-side traversal
//! relies on, each stated against [`bvh_represents`] — the contract of
//! [`build_bvh_flat`].

use vstd::prelude::*;

use crate::aabb::Aabb;
use crate::bvh::{
    aabb_union_of_prims, bvh_represents, bvh_tree_encodes, decode_ref, encode_ref,
    lemma_encode_decode, lemma_size_leaves, BvhBuildNode, BvhNode, PrimEntry,
};

verus! {

broadcast use vstd::seq_lib::group_to_multiset_ensures;

/// The root always sits at slot 0, and its stored box is the exact
/// union of every primitive's box handed to the builder.
pub proof fn lemma_root_bounds_are_union(nodes: Seq<BvhNode>, entries: Seq<PrimEntry>)
    requires
        bvh_represents(nodes, entries),
    ensures
        nodes.len() > 0,
        aabb_union_of_prims(nodes[0].spec_box(), entries),
{
    let t = choose|t: BvhBuildNode| bvh_tree_encodes(t, nodes, entries);
    assert(t.size() >= 1);
    assert(nodes[0].spec_box() == t.spec_box());
}

/// The flat array holds exactly `2k - 1` slots for `k` leaves, and the
/// builder makes one leaf per primitive (one placeholder leaf when
/// there are none).
pub proof fn lemma_flat_node_count(nodes: Seq<BvhNode>, entries: Seq<PrimEntry>)
    requires
        bvh_represents(nodes, entries),
    ensures
        nodes.len() == if entries.len() == 0 {
            1int
        } else {
            2 * entries.len() - 1
        },
{
    let t = choose|t: BvhBuildNode| bvh_tree_encodes(t, nodes, entries);
    lemma_size_leaves(t);
}

proof fn lemma_flat_links_rec(t: BvhBuildNode, arr: Seq<BvhNode>, i: int)
    requires
        t.built(),
        t.positive(),
        crate::bvh::flat_rep(t, arr, i),
    ensures
        forall|j: int|
            i <= j < i + t.size() && (#[trigger] arr[j]).count == 0 ==> j + 1 < arr[j].data < i
                + t.size(),
    decreases t,
{
    match (t.left, t.right) {
        (Some(l), Some(r)) => {
            assert(t.size() == 1 + l.size() + r.size());
            assert(l.size() >= 1 && r.size() >= 1);
            lemma_flat_links_rec(*l, arr, i + 1);
            lemma_flat_links_rec(*r, arr, i + 1 + l.size());
            assert forall|j: int|
                i <= j < i + t.size() && (#[trigger] arr[j]).count == 0 implies j + 1 < arr[j].data
                < i + t.size() by {
                if j == i {
                } else if j < i + 1 + l.size() {
                } else {
                }
            }
        },
        _ => {},
    }
}

/// Child links of the flat encoding, for any non-empty scene: every
/// internal slot's left child is the very next slot, and its recorded
/// right child lies strictly beyond it but inside the array.
pub proof fn lemma_internal_links(nodes: Seq<BvhNode>, entries: Seq<PrimEntry>)
    requires
        bvh_represents(nodes, entries),
        entries.len() > 0,
    ensures
        forall|j: int|
            0 <= j < nodes.len() && (#[trigger] nodes[j]).count == 0 ==> j + 1 < nodes[j].data < nodes.len(),
{
    let t = choose|t: BvhBuildNode| bvh_tree_encodes(t, nodes, entries);
    lemma_flat_links_rec(t, nodes, 0);
}

/// `b` is the exact union of the boxes of the leaf slots of `nodes`:
/// it contains each of them and every face of `b` is attained by one.
pub open spec fn aabb_union_of_leaf_boxes(b: Aabb, nodes: Seq<BvhNode>) -> bool {
    &&& forall|j: int|
        0 <= j < nodes.len() && (#[trigger] nodes[j]).count > 0 ==> b.contains(nodes[j].spec_box())
    &&& exists|j: int| 0 <= j < nodes.len() && (#[trigger] nodes[j]).count > 0 && nodes[j].min.x == b.min.x
    &&& exists|j: int| 0 <= j < nodes.len() && (#[trigger] nodes[j]).count > 0 && nodes[j].min.y == b.min.y
    &&& exists|j: int| 0 <= j < nodes.len() && (#[trigger] nodes[j]).count > 0 && nodes[j].min.z == b.min.z
    &&& exists|j: int| 0 <= j < nodes.len() && (#[trigger] nodes[j]).count > 0 && nodes[j].max.x == b.max.x
    &&& exists|j: int| 0 <= j < nodes.len() && (#[trigger] nodes[j]).count > 0 && nodes[j].max.y == b.max.y
    &&& exists|j: int| 0 <= j < nodes.len() && (#[trigger] nodes[j]).count > 0 && nodes[j].max.z == b.max.z
}

proof fn lemma_flat_union_rec(t: BvhBuildNode, arr: Seq<BvhNode>, i: int)
    requires
        t.built(),
        t.positive(),
        crate::bvh::flat_rep(t, arr, i),
    ensures
        forall|j: int|
            i <= j < i + t.size() && (#[trigger] arr[j]).count > 0 ==> arr[i].spec_box().contains(
                arr[j].spec_box(),
            ),
        exists|j: int|
            i <= j < i + t.size() && (#[trigger] arr[j]).count > 0 && arr[j].min.x == arr[i].min.x,
        exists|j: int|
            i <= j < i + t.size() && (#[trigger] arr[j]).count > 0 && arr[j].min.y == arr[i].min.y,
        exists|j: int|
            i <= j < i + t.size() && (#[trigger] arr[j]).count > 0 && arr[j].min.z == arr[i].min.z,
        exists|j: int|
            i <= j < i + t.size() && (#[trigger] arr[j]).count > 0 && arr[j].max.x == arr[i].max.x,
        exists|j: int|
            i <= j < i + t.size() && (#[trigger] arr[j]).count > 0 && arr[j].max.y == arr[i].max.y,
        exists|j: int|
            i <= j < i + t.size() && (#[trigger] arr[j]).count > 0 && arr[j].max.z == arr[i].max.z,
    decreases t,
{
    match (t.left, t.right) {
        (Some(l), Some(r)) => {
            assert(t.size() == 1 + l.size() + r.size());
            let li = i + 1;
            let ri = i + 1 + l.size();
            lemma_flat_union_rec(*l, arr, li);
            lemma_flat_union_rec(*r, arr, ri);
            assert(crate::bvh::flat_rep(*l, arr, li) && crate::bvh::flat_rep(*r, arr, ri));
            assert(arr[li].min == l.min && arr[li].max == l.max);
            assert(arr[ri].min == r.min && arr[ri].max == r.max);
            assert(t.spec_box() == Aabb::spec_union(l.spec_box(), r.spec_box()));
            assert(arr[i].spec_box() == Aabb::spec_union(arr[li].spec_box(), arr[ri].spec_box()));
            assert(arr[i].spec_box().contains(arr[li].spec_box()));
            assert(arr[i].spec_box().contains(arr[ri].spec_box()));
            if arr[i].min.x == arr[li].min.x {
                let j = choose|j: int|
                    li <= j < li + l.size() && (#[trigger] arr[j]).count > 0 && arr[j].min.x
                        == arr[li].min.x;
                assert(i <= j < i + t.size() && arr[j].count > 0 && arr[j].min.x == arr[i].min.x);
            } else {
                let j = choose|j: int|
                    ri <= j < ri + r.size() && (#[trigger] arr[j]).count > 0 && arr[j].min.x
                        == arr[ri].min.x;
                assert(i <= j < i + t.size() && arr[j].count > 0 && arr[j].min.x == arr[i].min.x);
            }
            if arr[i].min.y == arr[li].min.y {
                let j = choose|j: int|
                    li <= j < li + l.size() && (#[trigger] arr[j]).count > 0 && arr[j].min.y
                        == arr[li].min.y;
                assert(i <= j < i + t.size() && arr[j].count > 0 && arr[j].min.y == arr[i].min.y);
            } else {
                let j = choose|j: int|
                    ri <= j < ri + r.size() && (#[trigger] arr[j]).count > 0 && arr[j].min.y
                        == arr[ri].min.y;
                assert(i <= j < i + t.size() && arr[j].count > 0 && arr[j].min.y == arr[i].min.y);
            }
            if arr[i].min.z == arr[li].min.z {
                let j = choose|j: int|
                    li <= j < li + l.size() && (#[trigger] arr[j]).count > 0 && arr[j].min.z
                        == arr[li].min.z;
                assert(i <= j < i + t.size() && arr[j].count > 0 && arr[j].min.z == arr[i].min.z);
            } else {
                let j = choose|j: int|
                    ri <= j < ri + r.size() && (#[trigger] arr[j]).count > 0 && arr[j].min.z
                        == arr[ri].min.z;
                assert(i <= j < i + t.size() && arr[j].count > 0 && arr[j].min.z == arr[i].min.z);
            }
            if arr[i].max.x == arr[li].max.x {
                let j = choose|j: int|
                    li <= j < li + l.size() && (#[trigger] arr[j]).count > 0 && arr[j].max.x
                        == arr[li].max.x;
                assert(i <= j < i + t.size() && arr[j].count > 0 && arr[j].max.x == arr[i].max.x);
            } else {
                let j = choose|j: int|
                    ri <= j < ri + r.size() && (#[trigger] arr[j]).count > 0 && arr[j].max.x
                        == arr[ri].max.x;
                assert(i <= j < i + t.size() && arr[j].count > 0 && arr[j].max.x == arr[i].max.x);
            }
            if arr[i].max.y == arr[li].max.y {
                let j = choose|j: int|
                    li <= j < li + l.size() && (#[trigger] arr[j]).count > 0 && arr[j].max.y
                        == arr[li].max.y;
                assert(i <= j < i + t.size() && arr[j].count > 0 && arr[j].max.y == arr[i].max.y);
            } else {
                let j = choose|j: int|
                    ri <= j < ri + r.size() && (#[trigger] arr[j]).count > 0 && arr[j].max.y
                        == arr[ri].max.y;
                assert(i <= j < i + t.size() && arr[j].count > 0 && arr[j].max.y == arr[i].max.y);
            }
            if arr[i].max.z == arr[li].max.z {
                let j = choose|j: int|
                    li <= j < li + l.size() && (#[trigger] arr[j]).count > 0 && arr[j].max.z
                        == arr[li].max.z;
                assert(i <= j < i + t.size() && arr[j].count > 0 && arr[j].max.z == arr[i].max.z);
            } else {
                let j = choose|j: int|
                    ri <= j < ri + r.size() && (#[trigger] arr[j]).count > 0 && arr[j].max.z
                        == arr[ri].max.z;
                assert(i <= j < i + t.size() && arr[j].count > 0 && arr[j].max.z == arr[i].max.z);
            }
        },
        _ => {
            assert(arr[i].count == 1);
            assert(arr[i].spec_box().contains(arr[i].spec_box()));
        },
    }
}

/// Round trip for any non-empty scene: the union of all leaf boxes
/// reachable in the flat array is exactly the box stored at the root.
pub proof fn lemma_flat_round_trip(nodes: Seq<BvhNode>, entries: Seq<PrimEntry>)
    requires
        bvh_represents(nodes, entries),
        entries.len() > 0,
    ensures
        nodes.len() > 0,
        aabb_union_of_leaf_boxes(nodes[0].spec_box(), nodes),
{
    let t = choose|t: BvhBuildNode| bvh_tree_encodes(t, nodes, entries);
    lemma_flat_union_rec(t, nodes, 0);
}

proof fn lemma_flat_leaves_rec(t: BvhBuildNode, arr: Seq<BvhNode>, i: int)
    requires
        t.built(),
        t.positive(),
        t.refs_small(),
        crate::bvh::flat_rep(t, arr, i),
    ensures
        forall|j: int|
            i <= j < i + t.size() && (#[trigger] arr[j]).count > 0 ==> arr[j].count == 1
                && t.leaf_entries().contains((decode_ref(arr[j].data), arr[j].spec_box())),
        forall|e: PrimEntry|
            #[trigger] t.leaf_entries().contains(e) ==> exists|j: int|
                i <= j < i + t.size() && arr[j].count == 1 && arr[j].data == encode_ref(e.0)
                    && arr[j].spec_box() == e.1,
    decreases t,
{
    match (t.left, t.right) {
        (Some(l), Some(r)) => {
            assert(t.size() == 1 + l.size() + r.size());
            let li = i + 1;
            let ri = i + 1 + l.size();
            lemma_flat_leaves_rec(*l, arr, li);
            lemma_flat_leaves_rec(*r, arr, ri);
            let le = l.leaf_entries();
            let re = r.leaf_entries();
            assert(t.leaf_entries() == le + re);
            assert forall|j: int|
                i <= j < i + t.size() && (#[trigger] arr[j]).count > 0 implies arr[j].count == 1
                && t.leaf_entries().contains((decode_ref(arr[j].data), arr[j].spec_box())) by {
                let e = (decode_ref(arr[j].data), arr[j].spec_box());
                if j < ri {
                    assert(le.contains(e));
                    let k = choose|k: int| 0 <= k < le.len() && le[k] == e;
                    assert((le + re)[k] == e);
                } else {
                    assert(re.contains(e));
                    let k = choose|k: int| 0 <= k < re.len() && re[k] == e;
                    assert((le + re)[le.len() + k] == e);
                }
            }
            assert forall|e: PrimEntry| #[trigger] t.leaf_entries().contains(e) implies exists|
                j: int,
            |
                i <= j < i + t.size() && arr[j].count == 1 && arr[j].data == encode_ref(e.0)
                    && arr[j].spec_box() == e.1 by {
                let k = choose|k: int| 0 <= k < (le + re).len() && (le + re)[k] == e;
                if k < le.len() {
                    assert(le[k] == e);
                    assert(le.contains(e));
                } else {
                    assert(re[k - le.len()] == e);
                    assert(re.contains(e));
                }
            }
        },
        _ => {
            let p = t.primitive_indices@[0];
            lemma_encode_decode(p);
            assert(t.leaf_entries() == t.primitive_indices@.map_values(
                |q: (crate::object::ObjectType, usize)| (q, t.spec_box()),
            ));
            assert(t.leaf_entries().len() == 1);
            assert(t.leaf_entries()[0] == (p, t.spec_box()));
            assert(arr[i].spec_box() == t.spec_box());
            assert forall|e: PrimEntry| #[trigger] t.leaf_entries().contains(e) implies exists|
                j: int,
            |
                i <= j < i + t.size() && arr[j].count == 1 && arr[j].data == encode_ref(e.0)
                    && arr[j].spec_box() == e.1 by {
                assert(e == t.leaf_entries()[0]);
                assert(arr[i].count == 1 && arr[i].data == encode_ref(e.0) && arr[i].spec_box()
                    == e.1);
            }
        },
    }
}

/// Leaf decoding, for any non-empty scene: every leaf slot holds
/// exactly one primitive, and unpacking its `data` — kind from the top
/// bit, index from the low 31 bits — recovers a `(kind, index)` pair
/// the builder was given, with that primitive's own box; conversely
/// every primitive the builder was given appears at some leaf slot,
/// packed exactly this way.
pub proof fn lemma_leaf_decoding(nodes: Seq<BvhNode>, entries: Seq<PrimEntry>)
    requires
        bvh_represents(nodes, entries),
        entries.len() > 0,
    ensures
        forall|j: int|
            0 <= j < nodes.len() && (#[trigger] nodes[j]).count > 0 ==> nodes[j].count == 1
                && entries.contains((decode_ref(nodes[j].data), nodes[j].spec_box())),
        forall|e: PrimEntry|
            #[trigger] entries.contains(e) ==> exists|j: int|
                0 <= j < nodes.len() && nodes[j].count == 1 && nodes[j].data == encode_ref(e.0)
                    && nodes[j].spec_box() == e.1,
{
    let t = choose|t: BvhBuildNode| bvh_tree_encodes(t, nodes, entries);
    lemma_flat_leaves_rec(t, nodes, 0);
    assert forall|j: int|
        0 <= j < nodes.len() && (#[trigger] nodes[j]).count > 0 implies nodes[j].count == 1
        && entries.contains((decode_ref(nodes[j].data), nodes[j].spec_box())) by {
        let e = (decode_ref(nodes[j].data), nodes[j].spec_box());
        assert(t.leaf_entries().contains(e));
        assert(t.leaf_entries().to_multiset().contains(e));
    }
    assert forall|e: PrimEntry| #[trigger] entries.contains(e) implies exists|j: int|
        0 <= j < nodes.len() && nodes[j].count == 1 && nodes[j].data == encode_ref(e.0)
            && nodes[j].spec_box() == e.1 by {
        assert(entries.to_multiset().contains(e));
        assert(t.leaf_entries().contains(e));
    }
}

/// Every tree has at least one leaf.
proof fn lemma_leaves_at_least_one(t: BvhBuildNode)
    ensures
        t.leaves() >= 1,
    decreases t,
{
    match (t.left, t.right) {
        (Some(l), Some(r)) => {
            lemma_leaves_at_least_one(*l);
            lemma_leaves_at_least_one(*r);
        },
        (Some(l), None) => {
            lemma_leaves_at_least_one(*l);
        },
        (None, Some(r)) => {
            lemma_leaves_at_least_one(*r);
        },
        (None, None) => {},
    }
}

/// With one primitive per leaf, the leaf-entry sequence has one entry
/// per leaf.
proof fn lemma_leaf_entries_len(t: BvhBuildNode)
    requires
        t.built(),
        t.positive(),
    ensures
        t.leaf_entries().len() == t.leaves(),
    decreases t,
{
    match (t.left, t.right) {
        (Some(l), Some(r)) => {
            lemma_leaf_entries_len(*l);
            lemma_leaf_entries_len(*r);
        },
        _ => {},
    }
}

/// A built tree's bounds are the exact union of its leaf entries.
proof fn lemma_tree_union(t: BvhBuildNode)
    requires
        t.built(),
        t.positive(),
    ensures
        crate::bvh::aabb_union_of_prims(t.spec_box(), t.leaf_entries()),
    decreases t,
{
    match (t.left, t.right) {
        (Some(l), Some(r)) => {
            lemma_tree_union(*l);
            lemma_tree_union(*r);
            crate::bvh::lemma_union_concat(
                l.spec_box(),
                l.leaf_entries(),
                r.spec_box(),
                r.leaf_entries(),
            );
        },
        _ => {
            let e = t.leaf_entries()[0];
            assert(t.leaf_entries().len() == 1);
            assert(e.1 == t.spec_box());
        },
    }
}

/// Equal concatenations with equally long left parts have equal parts.
proof fn lemma_concat_split(
    a1: Seq<PrimEntry>,
    b1: Seq<PrimEntry>,
    a2: Seq<PrimEntry>,
    b2: Seq<PrimEntry>,
)
    requires
        a1 + b1 == a2 + b2,
        a1.len() == a2.len(),
    ensures
        a1 == a2,
        b1 == b2,
{
    assert(a1 =~= (a1 + b1).subrange(0, a1.len() as int));
    assert(a2 =~= (a2 + b2).subrange(0, a2.len() as int));
    assert(b1 =~= (a1 + b1).subrange(a1.len() as int, (a1 + b1).len() as int));
    assert(b2 =~= (a2 + b2).subrange(a2.len() as int, (a2 + b2).len() as int));
}

/// Two built trees with the same leaf entries flatten to the same
/// slots.
proof fn lemma_flat_unique(
    t1: BvhBuildNode,
    arr1: Seq<BvhNode>,
    t2: BvhBuildNode,
    arr2: Seq<BvhNode>,
    i: int,
)
    requires
        t1.built(),
        t1.positive(),
        t2.built(),
        t2.positive(),
        t1.leaf_entries() == t2.leaf_entries(),
        crate::bvh::flat_rep(t1, arr1, i),
        crate::bvh::flat_rep(t2, arr2, i),
    ensures
        t1.size() == t2.size(),
        t1.spec_box() == t2.spec_box(),
        forall|j: int| i <= j < i + t1.size() ==> arr1[j] == arr2[j],
    decreases t1,
{
    lemma_leaf_entries_len(t1);
    lemma_leaf_entries_len(t2);
    lemma_size_leaves(t1);
    lemma_size_leaves(t2);
    assert(t1.leaves() == t2.leaves());
    match (t1.left, t1.right) {
        (Some(l1), Some(r1)) => {
            lemma_leaves_at_least_one(*l1);
            lemma_leaves_at_least_one(*r1);
            match (t2.left, t2.right) {
                (Some(l2), Some(r2)) => {
                    let le1 = l1.leaf_entries();
                    let re1 = r1.leaf_entries();
                    let le2 = l2.leaf_entries();
                    let re2 = r2.leaf_entries();
                    lemma_leaf_entries_len(*l1);
                    lemma_leaf_entries_len(*l2);
                    assert(le1.len() == le2.len());
                    lemma_concat_split(le1, re1, le2, re2);
                    lemma_flat_unique(*l1, arr1, *l2, arr2, i + 1);
                    lemma_flat_unique(*r1, arr1, *r2, arr2, i + 1 + l1.size());
                    lemma_tree_union(*r1);
                    lemma_tree_union(*r2);
                    crate::bvh::lemma_union_unique(r1.spec_box(), re1, r2.spec_box(), re2);
                    assert(t1.spec_box() == t2.spec_box());
                    assert(arr1[i] == arr2[i]);
                    assert forall|j: int| i <= j < i + t1.size() implies arr1[j] == arr2[j] by {
                        if j == i {
                        } else if j < i + 1 + l1.size() {
                        } else {
                        }
                    }
                },
                _ => {
                    // t2 would be a single leaf against t1's two or
                    // more.
                    assert(t2.leaves() == 1);
                    assert(false);
                },
            }
        },
        _ => {
            assert(t1.leaves() == 1);
            match (t2.left, t2.right) {
                (Some(l2), Some(r2)) => {
                    lemma_leaves_at_least_one(*l2);
                    lemma_leaves_at_least_one(*r2);
                    assert(false);
                },
                _ => {
                    let e = t1.leaf_entries()[0];
                    assert(t1.leaf_entries().len() == 1);
                    assert(e == (t1.primitive_indices@[0], t1.spec_box()));
                    assert(e == (t2.primitive_indices@[0], t2.spec_box()));
                    assert(arr1[i] == arr2[i]);
                },
            }
        },
    }
}

/// The flat hierarchy is a function of the primitives alone: any two
/// arrays that represent the same primitives are one and the same, so
/// repeated builds over equal inputs return identical arrays.
pub proof fn lemma_bvh_deterministic(
    nodes1: Seq<BvhNode>,
    nodes2: Seq<BvhNode>,
    entries: Seq<PrimEntry>,
)
    requires
        bvh_represents(nodes1, entries),
        bvh_represents(nodes2, entries),
    ensures
        nodes1 == nodes2,
{
    let t1 = choose|t: BvhBuildNode| bvh_tree_encodes(t, nodes1, entries);
    let t2 = choose|t: BvhBuildNode| bvh_tree_encodes(t, nodes2, entries);
    if entries.len() == 0 {
        lemma_empty_scene_slot(t1, nodes1, entries);
        lemma_empty_scene_slot(t2, nodes2, entries);
        assert(nodes1 =~= nodes2);
    } else {
        assert(t1.leaf_entries() == t2.leaf_entries());
        lemma_flat_unique(t1, nodes1, t2, nodes2, 0);
        assert(nodes1 =~= nodes2);
    }
}

/// An empty scene flattens to the one placeholder slot: the empty
/// sentinel box with zeroed payload.
proof fn lemma_empty_scene_slot(t: BvhBuildNode, nodes: Seq<BvhNode>, entries: Seq<PrimEntry>)
    requires
        bvh_tree_encodes(t, nodes, entries),
        entries.len() == 0,
    ensures
        nodes.len() == 1,
        nodes[0] == (BvhNode {
            min: Aabb::spec_empty().min,
            data: 0,
            max: Aabb::spec_empty().max,
            count: 0,
        }),
{
    match (t.left, t.right) {
        (Some(l), Some(r)) => {
            lemma_leaves_at_least_one(*l);
            lemma_leaves_at_least_one(*r);
            assert(false);
        },
        _ => {
            assert(t.leaf_entries().len() == 0);
            assert(t.primitive_indices@.len() == 0);
            assert(t.spec_box() == Aabb::spec_empty());
        },
    }
}

} // verus!
