//! The bounding volume hierarchy: an object-median builder over
//! `(kind, index)` primitive references, and a flattener that encodes
//! the tree as one contiguous, pointer-free array for GPU traversal.
//!
//! Flat encoding: the root sits at slot 0.  A slot with `count == 0` is
//! an internal node whose left child is the next slot and whose right
//! child is the slot named by `data`.  A slot with `count > 0` is a
//! leaf; its `data` packs the primitive kind in the top bit and the
//! primitive's index within its kind's array in the low 31 bits.

use vstd::prelude::*;

use crate::aabb::{Aabb, Bounded};
use crate::object::{obj_type_code, Mesh, ObjectType, Sphere};
use crate::vec3::Vec3i;

verus! {

broadcast use vstd::seq_lib::group_to_multiset_ensures;

/// One primitive as the builder sees it: its `(kind, index)` reference
/// and its bounding box.
pub type PrimEntry = ((ObjectType, usize), Aabb);

/// Twice the centroid coordinate of `b` along `axis`.  Doubling keeps
/// the value an integer and preserves the centroid order exactly, so
/// this is the comparison key of the centroid sort.
pub open spec fn centroid_key(b: Aabb, axis: int) -> int {
    b.min.axis(axis) + b.max.axis(axis)
}

/// The axis a node of the given bounds is split along: the one with
/// the largest extent, x winning ties with y, y winning ties with z.
pub open spec fn split_axis(b: Aabb) -> int {
    let ex = b.max.x - b.min.x;
    let ey = b.max.y - b.min.y;
    let ez = b.max.z - b.min.z;
    if ex >= ey && ex >= ez {
        0
    } else if ey >= ez {
        1
    } else {
        2
    }
}

/// The union box of the entries, folded left to right: the value the
/// builder's bounding loop computes.
pub open spec fn union_box(s: Seq<PrimEntry>) -> Aabb
    decreases s.len(),
{
    if s.len() == 0 {
        Aabb::spec_empty()
    } else {
        Aabb::spec_union(union_box(s.drop_last()), s.last().1)
    }
}

/// `e` inserted into `s` after every entry whose key does not exceed
/// `e`'s: the insertion step of a stable sort.
pub open spec fn insert_by_centroid(s: Seq<PrimEntry>, e: PrimEntry, axis: int) -> Seq<PrimEntry>
    decreases s.len(),
{
    if s.len() == 0 {
        seq![e]
    } else if centroid_key(s.last().1, axis) <= centroid_key(e.1, axis) {
        s.push(e)
    } else {
        insert_by_centroid(s.drop_last(), e, axis).push(s.last())
    }
}

/// The stable ascending sort of the entries by centroid along `axis`:
/// entries with equal keys keep their input order.
pub open spec fn stable_sort_by_centroid(s: Seq<PrimEntry>, axis: int) -> Seq<PrimEntry>
    decreases s.len(),
{
    if s.len() == 0 {
        s
    } else {
        insert_by_centroid(stable_sort_by_centroid(s.drop_last(), axis), s.last(), axis)
    }
}

/// A sequence of at most one entry is already stably sorted.
pub proof fn lemma_stable_sort_short(s: Seq<PrimEntry>, axis: int)
    requires
        s.len() <= 1,
    ensures
        stable_sort_by_centroid(s, axis) == s,
{
    if s.len() == 1 {
        assert(s.drop_last().len() == 0);
        assert(stable_sort_by_centroid(s.drop_last(), axis) == s.drop_last());
        assert(insert_by_centroid(s.drop_last(), s.last(), axis) == seq![s.last()]);
        assert(seq![s.last()] =~= s);
    }
}

/// Insertion adds exactly one entry.
pub proof fn lemma_insert_len(s: Seq<PrimEntry>, e: PrimEntry, axis: int)
    ensures
        insert_by_centroid(s, e, axis).len() == s.len() + 1,
    decreases s.len(),
{
    if s.len() > 0 && centroid_key(s.last().1, axis) > centroid_key(e.1, axis) {
        lemma_insert_len(s.drop_last(), e, axis);
    }
}

/// The stable sort keeps the length.
pub proof fn lemma_stable_sort_len(s: Seq<PrimEntry>, axis: int)
    ensures
        stable_sort_by_centroid(s, axis).len() == s.len(),
    decreases s.len(),
{
    if s.len() > 0 {
        lemma_stable_sort_len(s.drop_last(), axis);
        lemma_insert_len(stable_sort_by_centroid(s.drop_last(), axis), s.last(), axis);
    }
}

/// Where the stable insertion lands: `e` goes exactly in front of the
/// suffix of strictly greater keys.
pub proof fn lemma_insert_position(s: Seq<PrimEntry>, e: PrimEntry, axis: int, j: int)
    requires
        0 <= j <= s.len(),
        forall|k: int|
            j <= k < s.len() ==> centroid_key((#[trigger] s[k]).1, axis) > centroid_key(
                e.1,
                axis,
            ),
        j > 0 ==> centroid_key(s[j - 1].1, axis) <= centroid_key(e.1, axis),
    ensures
        insert_by_centroid(s, e, axis) == s.subrange(0, j) + seq![e] + s.subrange(
            j,
            s.len() as int,
        ),
    decreases s.len(),
{
    if j == s.len() {
        if s.len() == 0 {
            assert(insert_by_centroid(s, e, axis) =~= s.subrange(0, j) + seq![e] + s.subrange(
                j,
                s.len() as int,
            ));
        } else {
            assert(centroid_key(s.last().1, axis) <= centroid_key(e.1, axis));
            assert(s.push(e) =~= s.subrange(0, j) + seq![e] + s.subrange(j, s.len() as int));
        }
    } else {
        assert(centroid_key(s.last().1, axis) > centroid_key(e.1, axis));
        assert(forall|k: int|
            j <= k < s.drop_last().len() ==> centroid_key(
                (#[trigger] s.drop_last()[k]).1,
                axis,
            ) > centroid_key(e.1, axis));
        lemma_insert_position(s.drop_last(), e, axis, j);
        assert((s.drop_last().subrange(0, j) + seq![e] + s.drop_last().subrange(
            j,
            s.len() - 1,
        )).push(s.last()) =~= s.subrange(0, j) + seq![e] + s.subrange(j, s.len() as int));
    }
}

/// One slot of the flat, GPU-resident hierarchy.
#[derive(Clone, Copy, Debug, PartialEq, Eq, Structural)]
pub struct BvhNode {
    pub min: Vec3i,
    pub data: u32,
    pub max: Vec3i,
    pub count: u32,
}

impl BvhNode {
    /// The box this slot covers.
    pub open spec fn spec_box(self) -> Aabb {
        Aabb { min: self.min, max: self.max }
    }
}

/// A node of the transient build tree: bounds, owned children, and —
/// at leaves — the primitive references stored there.
pub struct BvhBuildNode {
    pub min: Vec3i,
    pub max: Vec3i,
    pub left: Option<Box<BvhBuildNode>>,
    pub right: Option<Box<BvhBuildNode>>,
    pub primitive_indices: Vec<(ObjectType, usize)>,
}

impl BvhBuildNode {
    /// The bounds this node stores.
    pub open spec fn spec_box(self) -> Aabb {
        Aabb { min: self.min, max: self.max }
    }

    /// A node is a leaf exactly when both children are absent.
    pub open spec fn is_leaf(self) -> bool {
        self.left is None && self.right is None
    }

    /// Number of nodes in the subtree.
    pub open spec fn size(self) -> nat
        decreases self,
    {
        1 + (match self.left {
            Some(l) => l.size(),
            None => 0nat,
        }) + (match self.right {
            Some(r) => r.size(),
            None => 0nat,
        })
    }

    /// Number of leaves in the subtree.
    pub open spec fn leaves(self) -> nat
        decreases self,
    {
        match (self.left, self.right) {
            (Some(l), Some(r)) => l.leaves() + r.leaves(),
            (Some(l), None) => l.leaves(),
            (None, Some(r)) => r.leaves(),
            (None, None) => 1nat,
        }
    }

    /// The primitives stored at the leaves, left to right, each paired
    /// with the box of the leaf that holds it.
    pub open spec fn leaf_entries(self) -> Seq<PrimEntry>
        decreases self,
    {
        match (self.left, self.right) {
            (Some(l), Some(r)) => l.leaf_entries() + r.leaf_entries(),
            (Some(l), None) => l.leaf_entries(),
            (None, Some(r)) => r.leaf_entries(),
            (None, None) => self.primitive_indices@.map_values(
                |p: (ObjectType, usize)| (p, self.spec_box()),
            ),
        }
    }

    /// Shape invariant of everything the builder returns: a leaf holds
    /// at most one primitive; an internal node has both children, no
    /// primitives of its own, bounds equal to the union of its
    /// children's bounds, and — the object-median split — exactly half
    /// of its leaves (rounded down) in the left child.
    pub open spec fn built(self) -> bool
        decreases self,
    {
        match (self.left, self.right) {
            (Some(l), Some(r)) => {
                &&& self.primitive_indices@.len() == 0
                &&& l.built()
                &&& r.built()
                &&& self.spec_box() == Aabb::spec_union(l.spec_box(), r.spec_box())
                &&& l.leaves() == self.leaves() / 2
                &&& forall|a: int, b: int|
                    0 <= a < l.leaf_entries().len() && 0 <= b < r.leaf_entries().len()
                        ==> centroid_key(
                        (#[trigger] l.leaf_entries()[a]).1,
                        split_axis(self.spec_box()),
                    ) <= centroid_key((#[trigger] r.leaf_entries()[b]).1, split_axis(self.spec_box()))
            },
            (None, None) => self.primitive_indices@.len() <= 1,
            _ => false,
        }
    }

    /// Every leaf holds exactly one primitive — true of any build over
    /// a non-empty input.
    pub open spec fn positive(self) -> bool
        decreases self,
    {
        match (self.left, self.right) {
            (Some(l), Some(r)) => l.positive() && r.positive(),
            (None, None) => self.primitive_indices@.len() == 1,
            _ => false,
        }
    }

    /// Every primitive index at a leaf fits the 31 bits of the flat
    /// leaf encoding.
    pub open spec fn refs_small(self) -> bool
        decreases self,
    {
        match (self.left, self.right) {
            (Some(l), Some(r)) => l.refs_small() && r.refs_small(),
            _ => forall|i: int|
                0 <= i < self.primitive_indices@.len() ==> (
                #[trigger] self.primitive_indices@[i]).1 < 0x8000_0000,
        }
    }
}

/// The flat leaf payload for a primitive reference: kind tag in the
/// most significant bit, index below.
pub open spec fn encode_ref(p: (ObjectType, usize)) -> u32 {
    (obj_type_code(p.0) << 31) | (p.1 as u32)
}

/// The kind tag of a flat leaf payload.
pub open spec fn decode_kind(data: u32) -> u32 {
    data >> 31
}

/// The primitive index of a flat leaf payload.
pub open spec fn decode_index(data: u32) -> u32 {
    data & 0x7FFF_FFFF
}

/// The primitive reference a flat leaf payload stands for.
pub open spec fn decode_ref(data: u32) -> (ObjectType, usize) {
    (
        if decode_kind(data) == 1 {
            ObjectType::Mesh
        } else {
            ObjectType::Sphere
        },
        decode_index(data) as usize,
    )
}

/// Round trip of the leaf payload: decoding recovers exactly the kind
/// and index that were packed, for any index that fits 31 bits.
pub proof fn lemma_encode_decode(p: (ObjectType, usize))
    requires
        p.1 < 0x8000_0000,
    ensures
        decode_ref(encode_ref(p)) == p,
{
    let tag = obj_type_code(p.0);
    let idx = p.1 as u32;
    assert(tag == 0 || tag == 1);
    assert(tag <= 1 && idx < 0x8000_0000 ==> ((tag << 31) | idx) >> 31 == tag && ((tag << 31)
        | idx) & 0x7FFF_FFFF == idx) by (bit_vector);
    assert(decode_index(encode_ref(p)) as usize == p.1);
    match p.0 {
        ObjectType::Sphere => {},
        ObjectType::Mesh => {},
    }
}

/// Splits a flat leaf payload back into the primitive kind and index
/// it packs, exactly as the GPU traversal does.
pub fn decode_leaf_data(data: u32) -> (r: (ObjectType, u32))
    ensures
        obj_type_code(r.0) == decode_kind(data),
        r.1 == decode_index(data),
{
    let kind = data >> 31;
    proof {
        assert(data >> 31 == 0 || data >> 31 == 1) by (bit_vector);
    }
    (
        if kind == 1 {
            ObjectType::Mesh
        } else {
            ObjectType::Sphere
        },
        data & 0x7FFF_FFFF,
    )
}

/// `b` is the exact union of the boxes of `s`: it contains each of
/// them, every face of `b` is attained by one of them, and for an
/// empty `s` it is the empty sentinel.
pub open spec fn aabb_union_of_prims(b: Aabb, s: Seq<PrimEntry>) -> bool {
    if s.len() == 0 {
        b == Aabb::spec_empty()
    } else {
        &&& forall|i: int| 0 <= i < s.len() ==> b.contains((#[trigger] s[i]).1)
        &&& exists|i: int| 0 <= i < s.len() && (#[trigger] s[i]).1.min.x == b.min.x
        &&& exists|i: int| 0 <= i < s.len() && (#[trigger] s[i]).1.min.y == b.min.y
        &&& exists|i: int| 0 <= i < s.len() && (#[trigger] s[i]).1.min.z == b.min.z
        &&& exists|i: int| 0 <= i < s.len() && (#[trigger] s[i]).1.max.x == b.max.x
        &&& exists|i: int| 0 <= i < s.len() && (#[trigger] s[i]).1.max.y == b.max.y
        &&& exists|i: int| 0 <= i < s.len() && (#[trigger] s[i]).1.max.z == b.max.z
    }
}

/// Growing the union of `s` by one more finite box yields the union of
/// `s` extended by that box's entry.
pub proof fn lemma_union_push(b: Aabb, s: Seq<PrimEntry>, e: PrimEntry)
    requires
        aabb_union_of_prims(b, s),
        e.1.finite(),
    ensures
        aabb_union_of_prims(Aabb::spec_union(b, e.1), s.push(e)),
{
    let b2 = Aabb::spec_union(b, e.1);
    let s2 = s.push(e);
    assert(s2[s.len() as int] == e);
    if s.len() == 0 {
        assert(b2.contains(e.1));
    } else {
        assert forall|i: int| 0 <= i < s2.len() implies b2.contains((#[trigger] s2[i]).1) by {
            if i < s.len() {
                assert(s2[i] == s[i]);
                assert(b.contains(s[i].1));
            }
        }
        assert forall|i: int| 0 <= i < s.len() implies s2[i] == s[i] by {}
    }
}

/// The union over a concatenation is the union of the two unions.
pub proof fn lemma_union_concat(b1: Aabb, s1: Seq<PrimEntry>, b2: Aabb, s2: Seq<PrimEntry>)
    requires
        aabb_union_of_prims(b1, s1),
        aabb_union_of_prims(b2, s2),
    ensures
        aabb_union_of_prims(Aabb::spec_union(b1, b2), s1 + s2),
{
    let b = Aabb::spec_union(b1, b2);
    let s = s1 + s2;
    if s1.len() == 0 {
        assert(Aabb::spec_union(Aabb::spec_empty(), b2) == b2);
        assert(s =~= s2);
    } else if s2.len() == 0 {
        assert(Aabb::spec_union(b1, Aabb::spec_empty()) == b1);
        assert(s =~= s1);
    } else {
        assert forall|i: int| 0 <= i < s.len() implies b.contains((#[trigger] s[i]).1) by {
            if i < s1.len() {
                assert(s[i] == s1[i]);
                assert(b1.contains(s1[i].1));
            } else {
                assert(s[i] == s2[i - s1.len()]);
                assert(b2.contains(s2[i - s1.len()].1));
            }
        }
        assert forall|i: int| 0 <= i < s1.len() implies s[i] == s1[i] by {}
        assert forall|i: int| 0 <= i < s2.len() implies s[s1.len() + i] == s2[i] by {}
        if b.min.x == b1.min.x {
            let i = choose|i: int| 0 <= i < s1.len() && (#[trigger] s1[i]).1.min.x == b1.min.x;
            assert(s[i].1.min.x == b.min.x);
        } else {
            let i = choose|i: int| 0 <= i < s2.len() && (#[trigger] s2[i]).1.min.x == b2.min.x;
            assert(s[s1.len() + i].1.min.x == b.min.x);
        }
        if b.min.y == b1.min.y {
            let i = choose|i: int| 0 <= i < s1.len() && (#[trigger] s1[i]).1.min.y == b1.min.y;
            assert(s[i].1.min.y == b.min.y);
        } else {
            let i = choose|i: int| 0 <= i < s2.len() && (#[trigger] s2[i]).1.min.y == b2.min.y;
            assert(s[s1.len() + i].1.min.y == b.min.y);
        }
        if b.min.z == b1.min.z {
            let i = choose|i: int| 0 <= i < s1.len() && (#[trigger] s1[i]).1.min.z == b1.min.z;
            assert(s[i].1.min.z == b.min.z);
        } else {
            let i = choose|i: int| 0 <= i < s2.len() && (#[trigger] s2[i]).1.min.z == b2.min.z;
            assert(s[s1.len() + i].1.min.z == b.min.z);
        }
        if b.max.x == b1.max.x {
            let i = choose|i: int| 0 <= i < s1.len() && (#[trigger] s1[i]).1.max.x == b1.max.x;
            assert(s[i].1.max.x == b.max.x);
        } else {
            let i = choose|i: int| 0 <= i < s2.len() && (#[trigger] s2[i]).1.max.x == b2.max.x;
            assert(s[s1.len() + i].1.max.x == b.max.x);
        }
        if b.max.y == b1.max.y {
            let i = choose|i: int| 0 <= i < s1.len() && (#[trigger] s1[i]).1.max.y == b1.max.y;
            assert(s[i].1.max.y == b.max.y);
        } else {
            let i = choose|i: int| 0 <= i < s2.len() && (#[trigger] s2[i]).1.max.y == b2.max.y;
            assert(s[s1.len() + i].1.max.y == b.max.y);
        }
        if b.max.z == b1.max.z {
            let i = choose|i: int| 0 <= i < s1.len() && (#[trigger] s1[i]).1.max.z == b1.max.z;
            assert(s[i].1.max.z == b.max.z);
        } else {
            let i = choose|i: int| 0 <= i < s2.len() && (#[trigger] s2[i]).1.max.z == b2.max.z;
            assert(s[s1.len() + i].1.max.z == b.max.z);
        }
    }
}

/// Two exact unions over rearrangements of the same primitives are the
/// same box.
pub proof fn lemma_union_unique(b1: Aabb, s1: Seq<PrimEntry>, b2: Aabb, s2: Seq<PrimEntry>)
    requires
        aabb_union_of_prims(b1, s1),
        aabb_union_of_prims(b2, s2),
        s1.to_multiset() == s2.to_multiset(),
    ensures
        b1 == b2,
{
    if s1.len() == 0 || s2.len() == 0 {
        assert(s1.to_multiset().len() == s1.len());
        assert(s2.to_multiset().len() == s2.len());
        assert(s1.len() == 0 && s2.len() == 0);
        assert(b1 == Aabb::spec_empty() && b2 == Aabb::spec_empty());
    } else {
        assert forall|i: int| 0 <= i < s1.len() implies b2.contains((#[trigger] s1[i]).1) by {
            assert(s1.contains(s1[i]));
            assert(s1.to_multiset().contains(s1[i]));
            assert(s2.contains(s1[i]));
            let j = choose|j: int| 0 <= j < s2.len() && s2[j] == s1[i];
            assert(b2.contains(s2[j].1));
        }
        assert forall|i: int| 0 <= i < s2.len() implies b1.contains((#[trigger] s2[i]).1) by {
            assert(s2.contains(s2[i]));
            assert(s2.to_multiset().contains(s2[i]));
            assert(s1.contains(s2[i]));
            let j = choose|j: int| 0 <= j < s1.len() && s1[j] == s2[i];
            assert(b1.contains(s1[j].1));
        }
        assert(b1.min.x == b2.min.x && b1.min.y == b2.min.y && b1.min.z == b2.min.z && b1.max.x
            == b2.max.x && b1.max.y == b2.max.y && b1.max.z == b2.max.z);
    }
}

/// The entries are in ascending centroid order along `axis`.
pub open spec fn sorted_by_centroid(s: Seq<PrimEntry>, axis: int) -> bool {
    forall|i: int, j: int|
        0 <= i < j < s.len() ==> centroid_key(#[trigger] s[i].1, axis) <= centroid_key(
            #[trigger] s[j].1,
            axis,
        )
}

/// Every entry's box is real geometry.
pub open spec fn all_finite(s: Seq<PrimEntry>) -> bool {
    forall|i: int| 0 <= i < s.len() ==> (#[trigger] s[i]).1.finite()
}

/// Every entry's primitive index fits the 31 bits of the flat leaf
/// encoding.
pub open spec fn all_refs_small(s: Seq<PrimEntry>) -> bool {
    forall|i: int| 0 <= i < s.len() ==> (#[trigger] s[i]).0.1 < 0x8000_0000
}

/// The exact union over a single entry is that entry's box.
pub proof fn lemma_union_singleton(b: Aabb, s: Seq<PrimEntry>)
    requires
        aabb_union_of_prims(b, s),
        s.len() == 1,
    ensures
        b == s[0].1,
{
    assert(b.contains(s[0].1));
}

/// The exact union of finite boxes is itself finite.
pub proof fn lemma_union_finite(b: Aabb, s: Seq<PrimEntry>)
    requires
        aabb_union_of_prims(b, s),
        all_finite(s),
        s.len() > 0,
    ensures
        b.finite(),
{
    assert(b.contains(s[0].1));
}

/// Rearranging entries keeps every box finite.
pub proof fn lemma_perm_all_finite(s1: Seq<PrimEntry>, s2: Seq<PrimEntry>)
    requires
        all_finite(s1),
        s1.to_multiset() == s2.to_multiset(),
    ensures
        all_finite(s2),
{
    assert forall|i: int| 0 <= i < s2.len() implies (#[trigger] s2[i]).1.finite() by {
        assert(s2.contains(s2[i]));
        assert(s2.to_multiset().contains(s2[i]));
        assert(s1.contains(s2[i]));
        let j = choose|j: int| 0 <= j < s1.len() && s1[j] == s2[i];
        assert(s1[j].1.finite());
    }
}

/// Rearranging entries keeps every primitive index small.
pub proof fn lemma_perm_refs_small(s1: Seq<PrimEntry>, s2: Seq<PrimEntry>)
    requires
        all_refs_small(s1),
        s1.to_multiset() == s2.to_multiset(),
    ensures
        all_refs_small(s2),
{
    assert forall|i: int| 0 <= i < s2.len() implies (#[trigger] s2[i]).0.1 < 0x8000_0000 by {
        assert(s2.contains(s2[i]));
        assert(s2.to_multiset().contains(s2[i]));
        assert(s1.contains(s2[i]));
        let j = choose|j: int| 0 <= j < s1.len() && s1[j] == s2[i];
        assert(s1[j].0.1 < 0x8000_0000);
    }
}

/// Whether `a`'s centroid lies strictly after `b`'s along `axis`.
fn centroid_greater(a: &PrimEntry, b: &PrimEntry, axis: usize) -> (r: bool)
    requires
        a.1.finite(),
        b.1.finite(),
    ensures
        r == (centroid_key(a.1, axis as int) > centroid_key(b.1, axis as int)),
{
    let ka = a.1.min.get_axis(axis) + a.1.max.get_axis(axis);
    let kb = b.1.min.get_axis(axis) + b.1.max.get_axis(axis);
    ka > kb
}

/// Ascending, stable insertion sort of the entries by centroid along
/// `axis`: the result is exactly [`stable_sort_by_centroid`] of the
/// input, so entries with equal keys keep their input order.
fn sort_by_centroid_axis(v: &mut Vec<PrimEntry>, axis: usize)
    requires
        all_finite(old(v)@),
    ensures
        final(v)@.len() == old(v)@.len(),
        final(v)@.to_multiset() == old(v)@.to_multiset(),
        sorted_by_centroid(final(v)@, axis as int),
        final(v)@ == stable_sort_by_centroid(old(v)@, axis as int),
{
    let ghost orig = v@;
    if v.len() <= 1 {
        proof {
            lemma_stable_sort_short(orig, axis as int);
        }
        return ;
    }
    let mut i: usize = 1;
    proof {
        lemma_stable_sort_short(orig.subrange(0, 1), axis as int);
        assert(v@.subrange(0, 1) =~= orig.subrange(0, 1));
    }
    while i < v.len()
        invariant
            1 <= i <= orig.len(),
            v@.len() == orig.len(),
            v@.to_multiset() == orig.to_multiset(),
            all_finite(v@),
            forall|a: int, b: int|
                0 <= a < b < i && b < v@.len() ==> centroid_key(#[trigger] v@[a].1, axis as int)
                    <= centroid_key(#[trigger] v@[b].1, axis as int),
            v@.subrange(0, i as int) == stable_sort_by_centroid(
                orig.subrange(0, i as int),
                axis as int,
            ),
            forall|k: int| i <= k < orig.len() ==> v@[k] == orig[k],
        decreases v@.len() - i,
    {
        let ghost sorted_prefix = v@.subrange(0, i as int);
        let ghost e = orig[i as int];
        let mut j: usize = i;
        while j > 0 && centroid_greater(&v[j - 1], &v[j], axis)
            invariant
                j <= i < v@.len(),
                v@.len() == orig.len(),
                v@.to_multiset() == orig.to_multiset(),
                all_finite(v@),
                forall|a: int, b: int|
                    0 <= a < b <= i && b != j ==> centroid_key(#[trigger] v@[a].1, axis as int)
                        <= centroid_key(#[trigger] v@[b].1, axis as int),
                sorted_prefix.len() == i,
                v@[j as int] == e,
                forall|k: int| 0 <= k < j ==> v@[k] == sorted_prefix[k],
                forall|k: int| j < k <= i ==> v@[k] == sorted_prefix[k - 1],
                forall|k: int|
                    j <= k < i ==> centroid_key((#[trigger] sorted_prefix[k]).1, axis as int)
                        > centroid_key(e.1, axis as int),
                forall|k: int| i < k < orig.len() ==> v@[k] == orig[k],
            decreases j,
        {
            let ghost pre = v@;
            let ea = v[j - 1];
            let eb = v[j];
            v[j - 1] = eb;
            v[j] = ea;
            proof {
                assert(v@ =~= pre.update(j - 1, pre[j as int]).update(j as int, pre[j - 1]));
                assert(v@.to_multiset() =~= pre.to_multiset());
            }
            j = j - 1;
        }
        proof {
            assert(j > 0 ==> centroid_key(sorted_prefix[j - 1].1, axis as int) <= centroid_key(
                e.1,
                axis as int,
            ));
            lemma_insert_position(sorted_prefix, e, axis as int, j as int);
            assert(v@.subrange(0, i + 1) =~= sorted_prefix.subrange(0, j as int) + seq![e]
                + sorted_prefix.subrange(j as int, i as int));
            assert(orig.subrange(0, i + 1).drop_last() =~= orig.subrange(0, i as int));
            assert(orig.subrange(0, i + 1).last() == e);
            assert(v@.subrange(0, i + 1) == stable_sort_by_centroid(
                orig.subrange(0, i + 1),
                axis as int,
            ));
        }
        i = i + 1;
    }
    proof {
        assert(orig.subrange(0, orig.len() as int) =~= orig);
        assert(v@.subrange(0, orig.len() as int) =~= v@);
    }
}

/// The union box over all the given primitives.
fn compute_bounds(primitives: &Vec<PrimEntry>) -> (bounds: Aabb)
    requires
        all_finite(primitives@),
    ensures
        aabb_union_of_prims(bounds, primitives@),
        bounds == union_box(primitives@),
{
    let ghost orig = primitives@;
    let mut bounds = Aabb::empty();
    let mut i: usize = 0;
    while i < primitives.len()
        invariant
            i <= orig.len(),
            primitives@ == orig,
            all_finite(orig),
            aabb_union_of_prims(bounds, orig.subrange(0, i as int)),
            bounds == union_box(orig.subrange(0, i as int)),
        decreases orig.len() - i,
    {
        let ghost pre = bounds;
        bounds.grow_aabb(&primitives[i].1);
        proof {
            lemma_union_push(pre, orig.subrange(0, i as int), orig[i as int]);
            assert(orig.subrange(0, i + 1) =~= orig.subrange(0, i as int).push(orig[i as int]));
            assert(orig.subrange(0, i + 1).drop_last() =~= orig.subrange(0, i as int));
            assert(orig.subrange(0, i + 1).last() == orig[i as int]);
        }
        i = i + 1;
    }
    proof {
        assert(orig.subrange(0, orig.len() as int) =~= orig);
    }
    bounds
}

/// A leaf over zero or one primitives, holding their references
/// verbatim.
fn build_leaf(primitives: Vec<PrimEntry>, bounds: Aabb) -> (t: BvhBuildNode)
    requires
        primitives@.len() <= 1,
        aabb_union_of_prims(bounds, primitives@),
        all_refs_small(primitives@),
    ensures
        t.built(),
        t.refs_small(),
        t.is_leaf(),
        t.spec_box() == bounds,
        t.leaf_entries() == primitives@,
        t.leaf_entries().to_multiset() == primitives@.to_multiset(),
        t.leaves() == 1nat,
        primitives@.len() > 0 ==> t.positive(),
{
    let ghost orig = primitives@;
    let mut refs: Vec<(ObjectType, usize)> = Vec::new();
    let mut k: usize = 0;
    while k < primitives.len()
        invariant
            k <= orig.len(),
            primitives@ == orig,
            refs@ =~= orig.subrange(0, k as int).map_values(|e: PrimEntry| e.0),
        decreases orig.len() - k,
    {
        refs.push(primitives[k].0);
        proof {
            assert(orig.subrange(0, k + 1) =~= orig.subrange(0, k as int).push(orig[k as int]));
        }
        k = k + 1;
    }
    proof {
        assert(orig.subrange(0, orig.len() as int) =~= orig);
        assert(refs@ =~= orig.map_values(|e: PrimEntry| e.0));
    }
    let t = BvhBuildNode {
        min: bounds.min,
        max: bounds.max,
        left: None,
        right: None,
        primitive_indices: refs,
    };
    proof {
        if orig.len() == 0 {
            assert(t.leaf_entries() =~= orig);
        } else {
            lemma_union_singleton(bounds, orig);
            assert(t.leaf_entries() =~= orig);
        }
    }
    t
}

/// The exact left-to-right leaf order the builder produces for the
/// given primitives: sort stably by centroid along the bounds' split
/// axis, cut at the midpoint (the right half keeps the extra entry of
/// an odd split), recurse on both halves.
pub open spec fn build_order(s: Seq<PrimEntry>) -> Seq<PrimEntry>
    decreases s.len(),
    via build_order_decreases
{
    if s.len() <= 1 {
        s
    } else {
        let sorted = stable_sort_by_centroid(s, split_axis(union_box(s)));
        build_order(sorted.subrange(0, s.len() as int / 2)) + build_order(
            sorted.subrange(s.len() as int / 2, s.len() as int),
        )
    }
}

#[via_fn]
proof fn build_order_decreases(s: Seq<PrimEntry>) {
    if s.len() > 1 {
        let sorted = stable_sort_by_centroid(s, split_axis(union_box(s)));
        lemma_stable_sort_len(s, split_axis(union_box(s)));
        assert(sorted.subrange(0, s.len() as int / 2).len() == s.len() as int / 2);
        assert(sorted.subrange(s.len() as int / 2, s.len() as int).len() == s.len() as int - s.len()
            as int / 2);
        assert(s.len() as int / 2 >= 1);
    }
}

/// Builds the tree over the given primitives by recursive object-median
/// splitting: bound everything, stop at one primitive, otherwise sort
/// stably by centroid along the widest axis and recurse on the two
/// halves; the leaves land exactly in [`build_order`].
#[verifier::rlimit(100)]
fn build_recursive(primitives: Vec<PrimEntry>) -> (t: BvhBuildNode)
    requires
        all_finite(primitives@),
        all_refs_small(primitives@),
    ensures
        t.built(),
        t.refs_small(),
        aabb_union_of_prims(t.spec_box(), primitives@),
        t.leaf_entries() == build_order(primitives@),
        t.leaf_entries().to_multiset() == primitives@.to_multiset(),
        t.leaves() == if primitives@.len() == 0 {
            1nat
        } else {
            primitives@.len() as nat
        },
        primitives@.len() > 0 ==> t.positive(),
    decreases primitives@.len(),
{
    let ghost orig = primitives@;
    let bounds = compute_bounds(&primitives);
    if primitives.len() <= 1 {
        build_leaf(primitives, bounds)
    } else {
        proof {
            lemma_union_finite(bounds, orig);
        }
        let extent_x = bounds.max.x - bounds.min.x;
        let extent_y = bounds.max.y - bounds.min.y;
        let extent_z = bounds.max.z - bounds.min.z;
        let axis: usize = if extent_x >= extent_y && extent_x >= extent_z {
            0
        } else if extent_y >= extent_z {
            1
        } else {
            2
        };
        let mut work = primitives;
        sort_by_centroid_axis(&mut work, axis);
        let ghost sorted = work@;
        proof {
            lemma_perm_all_finite(orig, sorted);
            lemma_perm_refs_small(orig, sorted);
        }
        let mid = work.len() / 2;
        let right_vec = work.split_off(mid);
        let ghost lefts = work@;
        let ghost rights = right_vec@;
        proof {
            assert(sorted =~= lefts + rights);
            assert(all_finite(lefts)) by {
                assert(forall|q: int| 0 <= q < lefts.len() ==> lefts[q] == sorted[q]);
            }
            assert(all_refs_small(lefts)) by {
                assert(forall|q: int| 0 <= q < lefts.len() ==> lefts[q] == sorted[q]);
            }
            assert(all_finite(rights)) by {
                assert(forall|q: int|
                    0 <= q < rights.len() ==> rights[q] == sorted[q + lefts.len()]);
            }
            assert(all_refs_small(rights)) by {
                assert(forall|q: int|
                    0 <= q < rights.len() ==> rights[q] == sorted[q + lefts.len()]);
            }
        }
        let left_node = build_recursive(work);
        let right_node = build_recursive(right_vec);
        let t = BvhBuildNode {
            min: bounds.min,
            max: bounds.max,
            left: Some(Box::new(left_node)),
            right: Some(Box::new(right_node)),
            primitive_indices: Vec::new(),
        };
        proof {
            vstd::seq_lib::lemma_multiset_commutative(lefts, rights);
            assert(sorted.to_multiset() == orig.to_multiset());
            lemma_union_concat(left_node.spec_box(), lefts, right_node.spec_box(), rights);
            lemma_union_unique(
                bounds,
                orig,
                Aabb::spec_union(left_node.spec_box(), right_node.spec_box()),
                lefts + rights,
            );
            assert(t.spec_box() == Aabb::spec_union(left_node.spec_box(), right_node.spec_box()));
            vstd::seq_lib::lemma_multiset_commutative(
                left_node.leaf_entries(),
                right_node.leaf_entries(),
            );
            assert(t.leaf_entries() == left_node.leaf_entries() + right_node.leaf_entries());
            assert(t.leaf_entries().to_multiset() == left_node.leaf_entries().to_multiset().add(
                right_node.leaf_entries().to_multiset(),
            ));
            assert((lefts + rights).to_multiset() == lefts.to_multiset().add(
                rights.to_multiset(),
            ));
            assert(t.leaf_entries().to_multiset() == orig.to_multiset());
            assert(t.leaves() == orig.len());
            assert(left_node.leaves() == t.leaves() / 2);
            let ghost ax = split_axis(t.spec_box());
            assert(ax == axis as int);
            assert forall|a: int, b: int|
                0 <= a < left_node.leaf_entries().len() && 0 <= b
                    < right_node.leaf_entries().len() implies centroid_key(
                (#[trigger] left_node.leaf_entries()[a]).1,
                ax,
            ) <= centroid_key((#[trigger] right_node.leaf_entries()[b]).1, ax) by {
                let ea = left_node.leaf_entries()[a];
                let eb = right_node.leaf_entries()[b];
                assert(left_node.leaf_entries().contains(ea));
                assert(left_node.leaf_entries().to_multiset().contains(ea));
                assert(lefts.contains(ea));
                let ia = choose|ia: int| 0 <= ia < lefts.len() && lefts[ia] == ea;
                assert(right_node.leaf_entries().contains(eb));
                assert(right_node.leaf_entries().to_multiset().contains(eb));
                assert(rights.contains(eb));
                let ib = choose|ib: int| 0 <= ib < rights.len() && rights[ib] == eb;
                assert(sorted[ia] == ea);
                assert(sorted[lefts.len() + ib] == eb);
                assert(centroid_key(sorted[ia].1, axis as int) <= centroid_key(
                    sorted[lefts.len() + ib].1,
                    axis as int,
                ));
            }
            assert(t.built());
        }
        t
    }
}

/// The flat array `arr` holds, starting at slot `i`, exactly the
/// pre-order, left-first encoding of the subtree `t`: the slot carries
/// the node's bounds; an internal node's slot has `count == 0` and
/// names its right child — one slot past its whole left subtree — in
/// `data`; a leaf's slot carries its primitive count and its encoded
/// first reference (zero for the degenerate empty leaf).
pub open spec fn flat_rep(t: BvhBuildNode, arr: Seq<BvhNode>, i: int) -> bool
    decreases t,
{
    &&& 0 <= i
    &&& i + t.size() <= arr.len()
    &&& arr[i].min == t.min
    &&& arr[i].max == t.max
    &&& match (t.left, t.right) {
        (Some(l), Some(r)) => {
            &&& arr[i].count == 0
            &&& arr[i].data as int == i + 1 + l.size()
            &&& flat_rep(*l, arr, i + 1)
            &&& flat_rep(*r, arr, i + 1 + l.size())
        },
        (None, None) => {
            &&& arr[i].count == t.primitive_indices@.len()
            &&& if t.primitive_indices@.len() == 0 {
                arr[i].data == 0
            } else {
                arr[i].data == encode_ref(t.primitive_indices@[0])
            }
        },
        _ => false,
    }
}

/// The encoding of a subtree depends only on the slots it occupies:
/// any array that agrees there encodes it too.
pub proof fn lemma_flat_rep_frame(t: BvhBuildNode, arr1: Seq<BvhNode>, arr2: Seq<BvhNode>, i: int)
    requires
        flat_rep(t, arr1, i),
        arr2.len() >= i + t.size(),
        forall|j: int| i <= j < i + t.size() ==> arr2[j] == arr1[j],
    ensures
        flat_rep(t, arr2, i),
    decreases t,
{
    match (t.left, t.right) {
        (Some(l), Some(r)) => {
            assert(t.size() == 1 + l.size() + r.size());
            lemma_flat_rep_frame(*l, arr1, arr2, i + 1);
            lemma_flat_rep_frame(*r, arr1, arr2, i + 1 + l.size());
        },
        _ => {},
    }
}

/// Serializes the subtree into `nodes` in pre-order: the node's slot
/// is reserved first, the left child therefore lands in the very next
/// slot, and the right child's slot index is recorded in the parent
/// once known.  Returns the subtree root's slot index.
#[verifier::rlimit(100)]
fn flatten_tree(node: &BvhBuildNode, nodes: &mut Vec<BvhNode>) -> (r: u32)
    requires
        node.built(),
        node.refs_small(),
        old(nodes)@.len() + node.size() <= u32::MAX,
    ensures
        final(nodes)@.len() == old(nodes)@.len() + node.size(),
        r as int == old(nodes)@.len(),
        final(nodes)@.subrange(0, old(nodes)@.len() as int) == old(nodes)@,
        flat_rep(*node, final(nodes)@, old(nodes)@.len() as int),
    decreases *node,
{
    let ghost prefix = old(nodes)@;
    let ghost base = old(nodes)@.len() as int;
    proof {
        assert(node.size() >= 1);
    }
    let index_usize: usize = nodes.len();
    let index: u32 = index_usize as u32;
    nodes.push(
        BvhNode {
            min: Vec3i { x: 0, y: 0, z: 0 },
            data: 0,
            max: Vec3i { x: 0, y: 0, z: 0 },
            count: 0,
        },
    );
    match (&node.left, &node.right) {
        (Some(left), Some(right)) => {
            proof {
                assert(node.size() == 1 + left.size() + right.size());
            }
            let ghost after_push = nodes@;
            flatten_tree(left, nodes);
            let ghost after_left = nodes@;
            proof {
                assert forall|j: int| 0 <= j < base + 1 implies after_left[j] == after_push[j] by {
                    assert(after_left.subrange(0, base + 1)[j] == after_push[j]);
                }
            }
            let right_idx = flatten_tree(right, nodes);
            let ghost after_right = nodes@;
            proof {
                assert forall|j: int|
                    0 <= j < base + 1 + left.size() implies after_right[j] == after_left[j] by {
                    assert(after_right.subrange(0, base + 1 + left.size() as int)[j]
                        == after_left[j]);
                }
                lemma_flat_rep_frame(**left, after_left, after_right, base + 1);
            }
            nodes[index_usize] = BvhNode { min: node.min, data: right_idx, max: node.max, count: 0 };
            proof {
                assert(nodes@ == after_right.update(
                    base,
                    BvhNode { min: node.min, data: right_idx, max: node.max, count: 0 },
                ));
                assert forall|j: int|
                    base + 1 <= j < base + node.size() implies nodes@[j] == after_right[j] by {}
                lemma_flat_rep_frame(**left, after_right, nodes@, base + 1);
                lemma_flat_rep_frame(**right, after_right, nodes@, base + 1 + left.size());
                assert(flat_rep(*node, nodes@, base));
                assert forall|j: int| 0 <= j < base implies nodes@[j] == prefix[j] by {
                    assert(nodes@[j] == after_right[j]);
                    assert(after_right[j] == after_left[j]);
                    assert(after_left[j] == after_push[j]);
                    assert(after_push[j] == prefix[j]);
                }
                assert(nodes@.subrange(0, base) =~= prefix);
            }
            index
        },
        _ => {
            proof {
                assert(node.left is None && node.right is None);
                assert(node.size() == 1);
            }
            let ghost after_push = nodes@;
            let (obj_type, obj_idx): (ObjectType, usize) = if node.primitive_indices.len() > 0 {
                node.primitive_indices[0]
            } else {
                (ObjectType::Sphere, 0)
            };
            let type_bit: u32 = obj_type.as_u32();
            let data: u32 = (type_bit << 31) | (obj_idx as u32);
            let count: u32 = node.primitive_indices.len() as u32;
            proof {
                if node.primitive_indices@.len() == 0 {
                    assert((0u32 << 31) | 0u32 == 0u32) by (bit_vector);
                }
            }
            nodes[index_usize] = BvhNode { min: node.min, data, max: node.max, count };
            proof {
                assert(nodes@ == after_push.update(
                    base,
                    BvhNode { min: node.min, data, max: node.max, count },
                ));
                assert(flat_rep(*node, nodes@, base));
                assert forall|j: int| 0 <= j < base implies nodes@[j] == prefix[j] by {
                    assert(nodes@[j] == after_push[j]);
                    assert(after_push[j] == prefix[j]);
                }
                assert(nodes@.subrange(0, base) =~= prefix);
            }
            index
        },
    }
}

/// A built tree encodes `2k - 1` slots for `k` leaves.
pub proof fn lemma_size_leaves(t: BvhBuildNode)
    requires
        t.built(),
    ensures
        t.size() == 2 * t.leaves() - 1,
    decreases t,
{
    match (t.left, t.right) {
        (Some(l), Some(r)) => {
            lemma_size_leaves(*l);
            lemma_size_leaves(*r);
        },
        _ => {},
    }
}

/// The primitives handed to the builder for a scene: every sphere,
/// then every triangle, each tagged with its kind, its index within
/// its own array, and its bounds.
pub open spec fn scene_entries(spheres: Seq<Sphere>, meshes: Seq<Mesh>) -> Seq<PrimEntry> {
    Seq::new(spheres.len(), |i: int| ((ObjectType::Sphere, i as usize), spheres[i].spec_aabb()))
        + Seq::new(meshes.len(), |i: int| ((ObjectType::Mesh, i as usize), meshes[i].spec_aabb()))
}

/// The tree `t` ties a flat array to the primitives it was built from:
/// `t` is a well-formed build over exactly those primitives with its
/// leaves in the one order [`build_order`] fixes, its bounds are their
/// exact union, and `nodes` is its encoding with the root at slot 0.
pub open spec fn bvh_tree_encodes(
    t: BvhBuildNode,
    nodes: Seq<BvhNode>,
    entries: Seq<PrimEntry>,
) -> bool {
    &&& t.built()
    &&& t.refs_small()
    &&& nodes.len() == t.size()
    &&& flat_rep(t, nodes, 0)
    &&& aabb_union_of_prims(t.spec_box(), entries)
    &&& t.leaf_entries() == build_order(entries)
    &&& t.leaf_entries().to_multiset() == entries.to_multiset()
    &&& t.leaves() == if entries.len() == 0 {
        1nat
    } else {
        entries.len() as nat
    }
    &&& entries.len() > 0 ==> t.positive()
}

/// `nodes` is the flat hierarchy some well-formed build tree over
/// exactly the primitives `entries` flattens to.
pub open spec fn bvh_represents(nodes: Seq<BvhNode>, entries: Seq<PrimEntry>) -> bool {
    exists|t: BvhBuildNode| bvh_tree_encodes(t, nodes, entries)
}

/// Builds the hierarchy over all spheres and triangles of a scene and
/// returns its flat, GPU-traversable encoding: `2k - 1` slots for `k`
/// primitives (one placeholder slot for an empty scene), root at
/// slot 0.  The contract pins the leaf order to [`build_order`], so
/// the array is a function of the inputs alone (see
/// [`crate::bvh_laws::lemma_bvh_deterministic`]).
pub fn build_bvh_flat(spheres: &[Sphere], meshes: &[Mesh]) -> (nodes: Vec<BvhNode>)
    requires
        forall|i: int| 0 <= i < spheres@.len() ==> (#[trigger] spheres@[i]).wf(),
        forall|i: int| 0 <= i < meshes@.len() ==> (#[trigger] meshes@[i]).wf(),
        spheres@.len() + meshes@.len() < 0x8000_0000,
    ensures
        bvh_represents(nodes@, scene_entries(spheres@, meshes@)),
        nodes@.len() == if spheres@.len() + meshes@.len() == 0 {
            1int
        } else {
            2 * (spheres@.len() + meshes@.len()) - 1
        },
{
    let ghost sphere_part = Seq::new(
        spheres@.len(),
        |i: int| ((ObjectType::Sphere, i as usize), spheres@[i].spec_aabb()),
    );
    let ghost mesh_part = Seq::new(
        meshes@.len(),
        |i: int| ((ObjectType::Mesh, i as usize), meshes@[i].spec_aabb()),
    );
    let mut primitives: Vec<PrimEntry> = Vec::new();
    let mut i: usize = 0;
    while i < spheres.len()
        invariant
            i <= spheres@.len(),
            forall|k: int| 0 <= k < spheres@.len() ==> (#[trigger] spheres@[k]).wf(),
            sphere_part == Seq::new(
                spheres@.len(),
                |k: int| ((ObjectType::Sphere, k as usize), spheres@[k].spec_aabb()),
            ),
            primitives@ == sphere_part.subrange(0, i as int),
            all_finite(primitives@),
        decreases spheres@.len() - i,
    {
        let b = spheres[i].aabb();
        primitives.push(((ObjectType::Sphere, i), b));
        proof {
            assert(primitives@ =~= sphere_part.subrange(0, i + 1));
        }
        i = i + 1;
    }
    proof {
        assert(primitives@ == sphere_part) by {
            assert(sphere_part.subrange(0, spheres@.len() as int) =~= sphere_part);
        }
    }
    let mut j: usize = 0;
    while j < meshes.len()
        invariant
            j <= meshes@.len(),
            forall|k: int| 0 <= k < meshes@.len() ==> (#[trigger] meshes@[k]).wf(),
            mesh_part == Seq::new(
                meshes@.len(),
                |k: int| ((ObjectType::Mesh, k as usize), meshes@[k].spec_aabb()),
            ),
            sphere_part.len() == spheres@.len(),
            all_finite(sphere_part),
            primitives@ == sphere_part + mesh_part.subrange(0, j as int),
            all_finite(primitives@),
        decreases meshes@.len() - j,
    {
        let b = meshes[j].aabb();
        primitives.push(((ObjectType::Mesh, j), b));
        proof {
            assert(primitives@ =~= sphere_part + mesh_part.subrange(0, j + 1));
        }
        j = j + 1;
    }
    let ghost entries = scene_entries(spheres@, meshes@);
    proof {
        assert(primitives@ == entries) by {
            assert(mesh_part.subrange(0, meshes@.len() as int) =~= mesh_part);
        }
        assert(all_refs_small(primitives@)) by {
            assert forall|k: int| 0 <= k < entries.len() implies (#[trigger] entries[k]).0.1
                < 0x8000_0000 by {
                if k < spheres@.len() {
                    assert(entries[k] == sphere_part[k]);
                } else {
                    assert(entries[k] == mesh_part[k - spheres@.len()]);
                }
            }
        }
    }
    let root = build_recursive(primitives);
    proof {
        lemma_size_leaves(root);
    }
    let mut nodes: Vec<BvhNode> = Vec::new();
    flatten_tree(&root, &mut nodes);
    proof {
        assert(nodes@.len() == root.size());
        assert(bvh_tree_encodes(root, nodes@, entries));
    }
    nodes
}

} // verus!
