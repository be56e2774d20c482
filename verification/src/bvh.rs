//! The bounding volume hierarchy: a balanced binary tree of boxes over the
//! primitives of a scene.

use vstd::prelude::*;
use crate::aabb::{box_test, Aabb, Slab, Slabs};
use crate::hittable::{
    answers_within, lies_within, is_closest, lemma_closest_agree, lemma_closest_of_both, narrowed, steady, HitRecord, Hittable,
};
use crate::hittable_list::{bound_after, keep_closer, lemma_list_hit_is_closest, HittableList};
use crate::random::random_int;
use crate::ray::Ray;
use crate::vec3::Scalar;

verus! {

/// What the hierarchy reads of one primitive.
#[derive(Clone, Copy, Debug, PartialEq, Eq, Structural)]
pub struct PrimitiveBounds {
    /// The box by which primitives are put in order: the one at time zero.
    pub sort_box: Aabb,
    /// The box that holds the primitive over the whole build interval.
    pub bbox: Aabb,
}

/// One side of a branching: a primitive, named by its index, or a further
/// branching.
#[derive(Debug)]
pub enum BvhChild {
    Primitive(usize),
    Node(Box<Branch>),
}

/// A branching of the hierarchy: two children and the box that holds them both.
#[derive(Debug)]
pub struct Branch {
    pub left: BvhChild,
    pub right: BvhChild,
    pub bbox: Aabb,
}

/// Why no hierarchy could be built.
#[derive(Clone, Copy, Debug, PartialEq, Eq, Structural)]
pub enum BuildError {
    /// There is no primitive at all.
    Empty,
    /// The primitive with this index has no bounding box.
    Unbounded(usize),
}

/// The key by which the primitive `p` is ordered on `axis`: the minimum of its
/// sort box there.
pub open spec fn sort_key(p: PrimitiveBounds, axis: int) -> int {
    p.sort_box.minimum.component(axis)
}

/// On `axis`, the item at position `p` of `items` comes before the one at
/// position `q`: its key is smaller, or the keys are equal and `p` is the
/// earlier position.
pub open spec fn comes_before(
    items: Seq<usize>,
    prims: Seq<PrimitiveBounds>,
    axis: int,
    p: int,
    q: int,
) -> bool {
    let kp = sort_key(prims[items[p] as int], axis);
    let kq = sort_key(prims[items[q] as int], axis);
    kp < kq || (kp == kq && p < q)
}

/// `perm` lists every position of `items` once, in ascending order of the
/// items' keys on `axis`; positions whose keys are equal keep their order.
pub open spec fn is_stable_order(
    perm: Seq<usize>,
    items: Seq<usize>,
    prims: Seq<PrimitiveBounds>,
    axis: int,
) -> bool {
    &&& perm.len() == items.len()
    &&& forall|i: int| 0 <= i < perm.len() ==> (#[trigger] perm[i]) < items.len()
    &&& forall|p: usize| p < items.len() ==> #[trigger] perm.contains(p)
    &&& forall|i: int, j: int|
        0 <= i < j < perm.len() ==> comes_before(
            items,
            prims,
            axis,
            #[trigger] perm[i] as int,
            #[trigger] perm[j] as int,
        )
}

/// The items of `items` in the order that `perm` gives their positions.
pub open spec fn arranged(items: Seq<usize>, perm: Seq<usize>) -> Seq<usize> {
    Seq::new(perm.len(), |i: int| items[perm[i] as int])
}

/// Every item names a primitive.
pub open spec fn items_in_range(items: Seq<usize>, prims: Seq<PrimitiveBounds>) -> bool {
    forall|i: int| 0 <= i < items.len() ==> (#[trigger] items[i]) < prims.len()
}

impl BvhChild {
    /// The box of this child: the primitive's own, or the node's.
    pub open spec fn bound(self, prims: Seq<PrimitiveBounds>) -> Aabb {
        match self {
            BvhChild::Primitive(i) => prims[i as int].bbox,
            BvhChild::Node(n) => n.bbox,
        }
    }

    /// The primitives under this child, from left to right.
    pub open spec fn leaves(self) -> Seq<usize>
        decreases self,
    {
        match self {
            BvhChild::Primitive(i) => seq![i],
            BvhChild::Node(n) => n.leaves(),
        }
    }

    /// The number of nodes on the longest way down from this child.
    pub open spec fn height(self) -> nat
        decreases self,
    {
        match self {
            BvhChild::Primitive(_) => 0,
            BvhChild::Node(n) => n.height(),
        }
    }
}

impl Branch {
    /// The primitives under this node, from left to right.
    pub open spec fn leaves(self) -> Seq<usize>
        decreases self,
    {
        self.left.leaves() + self.right.leaves()
    }

    /// The number of nodes on the longest way down from this node, itself
    /// included.
    pub open spec fn height(self) -> nat
        decreases self,
    {
        let l = self.left.height();
        let r = self.right.height();
        if l >= r {
            l + 1
        } else {
            r + 1
        }
    }

    /// The two items of `items` are the children of this node, the one that
    /// is strictly smaller on `axis` on the left; if neither is, the second is
    /// on the left.
    pub open spec fn holds_pair(
        self,
        items: Seq<usize>,
        prims: Seq<PrimitiveBounds>,
        axis: int,
    ) -> bool {
        if sort_key(prims[items[0] as int], axis) < sort_key(prims[items[1] as int], axis) {
            self.left == BvhChild::Primitive(items[0]) && self.right == BvhChild::Primitive(
                items[1],
            )
        } else {
            self.left == BvhChild::Primitive(items[1]) && self.right == BvhChild::Primitive(
                items[0],
            )
        }
    }

    /// The children of this node are nodes built from the two halves of
    /// `items` put in the order `perm`: the first `len / 2` on the left, the
    /// rest on the right.
    pub open spec fn holds_halves(
        self,
        items: Seq<usize>,
        prims: Seq<PrimitiveBounds>,
        perm: Seq<usize>,
    ) -> bool
        decreases self, 0nat,
    {
        let sorted = arranged(items, perm);
        let mid = (items.len() / 2) as int;
        &&& self.left matches BvhChild::Node(l) && l.built_from(sorted.subrange(0, mid), prims)
        &&& self.right matches BvhChild::Node(r) && r.built_from(
            sorted.subrange(mid, sorted.len() as int),
            prims,
        )
    }

    /// This node is the hierarchy over `items`.
    ///
    /// Its box is the union of its children's boxes. A single item is both of
    /// its children. Two items are its children, ordered on some axis. More
    /// are put in stable ascending order on some axis and halved, and each
    /// half is a hierarchy of its own.
    pub open spec fn built_from(self, items: Seq<usize>, prims: Seq<PrimitiveBounds>) -> bool
        decreases self, 1nat,
    {
        &&& items.len() >= 1
        &&& self.bbox == Aabb::union(self.left.bound(prims), self.right.bound(prims))
        &&& if items.len() == 1 {
            self.left == BvhChild::Primitive(items[0]) && self.right == BvhChild::Primitive(
                items[0],
            )
        } else if items.len() == 2 {
            exists|axis: int| 0 <= axis < 3 && #[trigger] self.holds_pair(items, prims, axis)
        } else {
            exists|axis: int, perm: Seq<usize>|
                0 <= axis < 3 && #[trigger] is_stable_order(perm, items, prims, axis)
                    && self.holds_halves(items, prims, perm)
        }
    }
}

/// The pairs by which `items` are sorted on `axis`: each item's key, with the
/// item's position.
pub open spec fn keyed(items: Seq<usize>, prims: Seq<PrimitiveBounds>, axis: int) -> Seq<
    (Scalar, usize),
> {
    Seq::new(
        items.len(),
        |p: int| (prims[items[p] as int].sort_box.minimum.index_spec(axis), p as usize),
    )
}

/// The order of pairs: by the first component, then by the second.
pub open spec fn pair_le(a: (Scalar, usize), b: (Scalar, usize)) -> bool {
    a.0 < b.0 || (a.0 == b.0 && a.1 <= b.1)
}

/// Sorts pairs of a key and a position.
///
/// Trusted: the body calls `sort` of std's slices, which puts the elements in
/// ascending order by their `Ord`; for a pair of integers that is the order
/// by the first component and then by the second. The contract claims that
/// the vector afterwards holds the same pairs, each as often as before, and
/// that they ascend in that order.
#[verifier::external_body]
fn sort_pairs(v: &mut Vec<(Scalar, usize)>)
    ensures
        final(v)@.to_multiset() == old(v)@.to_multiset(),
        forall|i: int, j: int|
            0 <= i < j < final(v)@.len() ==> pair_le(#[trigger] final(v)@[i], #[trigger] final(v)@[j]),
{
    v.sort();
}

/// What a rearrangement of the keyed pairs of `items` is known to hold.
proof fn lemma_rearranged_pairs(
    items: Seq<usize>,
    prims: Seq<PrimitiveBounds>,
    axis: int,
    pairs: Seq<(Scalar, usize)>,
)
    requires
        items.len() <= usize::MAX,
        pairs.to_multiset() == keyed(items, prims, axis).to_multiset(),
    ensures
        pairs.len() == items.len(),
        pairs.no_duplicates(),
        forall|i: int|
            0 <= i < pairs.len() ==> (#[trigger] pairs[i]).1 < items.len() && pairs[i]
                == keyed(items, prims, axis)[pairs[i].1 as int],
        forall|p: int| 0 <= p < items.len() ==> pairs.contains(#[trigger] keyed(items, prims, axis)[p]),
{
    broadcast use vstd::seq_lib::group_to_multiset_ensures;

    let k = keyed(items, prims, axis);
    assert(k.no_duplicates());
    k.lemma_multiset_has_no_duplicates();
    pairs.lemma_multiset_has_no_duplicates_conv();
    assert(pairs.len() == pairs.to_multiset().len());
    assert(k.len() == k.to_multiset().len());
    assert forall|i: int| 0 <= i < pairs.len() implies (#[trigger] pairs[i]).1 < items.len()
        && pairs[i] == k[pairs[i].1 as int] by {
        assert(pairs.contains(pairs[i]));
        assert(pairs.to_multiset().count(pairs[i]) > 0);
        assert(k.contains(pairs[i]));
        let p = choose|p: int| 0 <= p < k.len() && k[p] == pairs[i];
        assert(k[p].1 == p);
    }
    assert forall|p: int| 0 <= p < items.len() implies pairs.contains(#[trigger] k[p]) by {
        assert(k.contains(k[p]));
        assert(k.to_multiset().count(k[p]) > 0);
    }
}

/// The positions of `items`, in stable ascending order of the items' keys on
/// `axis`.
fn sort_positions(items: &Vec<usize>, prims: &Vec<PrimitiveBounds>, axis: usize) -> (perm: Vec<
    usize,
>)
    requires
        axis < 3,
        items_in_range(items@, prims@),
    ensures
        is_stable_order(perm@, items@, prims@, axis as int),
{
    let n = items.len();
    let mut pairs: Vec<(Scalar, usize)> = Vec::new();
    let mut p: usize = 0;
    while p < n
        invariant
            p <= n,
            n == items.len(),
            axis < 3,
            items_in_range(items@, prims@),
            pairs.len() == p,
            forall|q: int| 0 <= q < p ==> pairs@[q] == keyed(items@, prims@, axis as int)[q],
        decreases n - p,
    {
        let item = items[p];
        pairs.push((prims[item].sort_box.minimum.index(axis), p));
        p += 1;
    }
    proof {
        assert(pairs@ =~= keyed(items@, prims@, axis as int));
    }
    sort_pairs(&mut pairs);
    proof {
        lemma_rearranged_pairs(items@, prims@, axis as int, pairs@);
    }
    let mut perm: Vec<usize> = Vec::new();
    let mut i: usize = 0;
    while i < n
        invariant
            i <= n,
            n == pairs.len(),
            perm.len() == i,
            forall|k: int| 0 <= k < i ==> perm@[k] == pairs@[k].1,
        decreases n - i,
    {
        perm.push(pairs[i].1);
        i += 1;
    }
    proof {
        let k = keyed(items@, prims@, axis as int);
        assert forall|q: usize| q < items@.len() implies #[trigger] perm@.contains(q) by {
            assert(pairs@.contains(k[q as int]));
            let w = choose|w: int| 0 <= w < pairs@.len() && pairs@[w] == k[q as int];
            assert(perm@[w] == q);
        }
        assert forall|a: int, b: int| 0 <= a < b < perm@.len() implies comes_before(
            items@,
            prims@,
            axis as int,
            #[trigger] perm@[a] as int,
            #[trigger] perm@[b] as int,
        ) by {
            assert(pair_le(pairs@[a], pairs@[b]));
            assert(pairs@[a] != pairs@[b]);
            assert(pairs@[a] == k[pairs@[a].1 as int]);
            assert(pairs@[b] == k[pairs@[b].1 as int]);
        }
    }
    perm
}

/// The part of `v` from position `lo` up to, not including, `hi`.
fn copy_range(v: &Vec<usize>, lo: usize, hi: usize) -> (r: Vec<usize>)
    requires
        lo <= hi <= v.len(),
    ensures
        r@ == v@.subrange(lo as int, hi as int),
{
    let mut r: Vec<usize> = Vec::new();
    let mut i: usize = lo;
    while i < hi
        invariant
            lo <= i <= hi <= v.len(),
            r@ == v@.subrange(lo as int, i as int),
        decreases hi - i,
    {
        r.push(v[i]);
        proof {
            assert(r@ =~= v@.subrange(lo as int, i + 1));
        }
        i += 1;
    }
    r
}

/// One of the three axes, drawn at random.
fn random_axis() -> (axis: usize)
    ensures
        axis < 3,
{
    axis_for(random_int(0, 2))
}

/// The axis that the draw `drawn` stands for: x for 0, y for 1, z for any
/// other.
pub open spec fn axis_of(drawn: int) -> int {
    if drawn == 0 {
        0
    } else if drawn == 1 {
        1
    } else {
        2
    }
}

/// The axis that the draw `drawn` stands for.
pub fn axis_for(drawn: i32) -> (axis: usize)
    ensures
        axis == axis_of(drawn as int),
{
    if drawn == 0 {
        0
    } else if drawn == 1 {
        1
    } else {
        2
    }
}

/// The hierarchy over `items`, which name primitives of `prims`.
fn build(items: Vec<usize>, prims: &Vec<PrimitiveBounds>) -> (node: Branch)
    requires
        items.len() >= 1,
        items_in_range(items@, prims@),
    ensures
        node.built_from(items@, prims@),
    decreases items.len(),
{
    let axis = random_axis();
    let n = items.len();
    if n == 1 {
        let only = items[0];
        let bbox = Aabb::surrounding_box(&prims[only].bbox, &prims[only].bbox);
        Branch { left: BvhChild::Primitive(only), right: BvhChild::Primitive(only), bbox }
    } else if n == 2 {
        let a = items[0];
        let b = items[1];
        let key_a = prims[a].sort_box.minimum.index(axis);
        let key_b = prims[b].sort_box.minimum.index(axis);
        let (first, second) = if key_a < key_b {
            (a, b)
        } else {
            (b, a)
        };
        let bbox = Aabb::surrounding_box(&prims[first].bbox, &prims[second].bbox);
        let node = Branch {
            left: BvhChild::Primitive(first),
            right: BvhChild::Primitive(second),
            bbox,
        };
        proof {
            assert(node.holds_pair(items@, prims@, axis as int));
        }
        node
    } else {
        let perm = sort_positions(&items, prims, axis);
        let mut sorted: Vec<usize> = Vec::new();
        let mut i: usize = 0;
        while i < n
            invariant
                i <= n,
                n == items.len(),
                n == perm.len(),
                is_stable_order(perm@, items@, prims@, axis as int),
                sorted.len() == i,
                forall|k: int| 0 <= k < i ==> sorted@[k] == items@[perm@[k] as int],
            decreases n - i,
        {
            let position = perm[i];
            sorted.push(items[position]);
            i += 1;
        }
        proof {
            assert(sorted@ =~= arranged(items@, perm@));
        }
        let mid = n / 2;
        let left_items = copy_range(&sorted, 0, mid);
        let right_items = copy_range(&sorted, mid, n);
        let left = build(left_items, prims);
        let right = build(right_items, prims);
        let bbox = Aabb::surrounding_box(&left.bbox, &right.bbox);
        let node = Branch {
            left: BvhChild::Node(Box::new(left)),
            right: BvhChild::Node(Box::new(right)),
            bbox,
        };
        proof {
            assert(node.holds_halves(items@, prims@, perm@));
            assert(is_stable_order(perm@, items@, prims@, axis as int));
        }
        node
    }
}

impl Branch {
    /// The primitives under a hierarchy are the items it was built from:
    /// every leaf is one of the items, and every item is a leaf.
    pub proof fn lemma_leaves_are_items(self, items: Seq<usize>, prims: Seq<PrimitiveBounds>)
        requires
            self.built_from(items, prims),
            items.len() <= usize::MAX,
        ensures
            forall|k: int|
                0 <= k < self.leaves().len() ==> items.contains(#[trigger] self.leaves()[k]),
            forall|p: int| 0 <= p < items.len() ==> self.leaves().contains(#[trigger] items[p]),
        decreases self,
    {
        let leaves = self.leaves();
        if items.len() == 1 {
            assert(leaves =~= seq![items[0], items[0]]);
            assert(leaves[0] == items[0]);
        } else if items.len() == 2 {
            let axis = choose|axis: int|
                0 <= axis < 3 && #[trigger] self.holds_pair(items, prims, axis);
            if sort_key(prims[items[0] as int], axis) < sort_key(prims[items[1] as int], axis) {
                assert(leaves =~= seq![items[0], items[1]]);
                assert(leaves[0] == items[0] && leaves[1] == items[1]);
            } else {
                assert(leaves =~= seq![items[1], items[0]]);
                assert(leaves[0] == items[1] && leaves[1] == items[0]);
            }
        } else {
            let (axis, perm) = choose|axis: int, perm: Seq<usize>|
                0 <= axis < 3 && #[trigger] is_stable_order(perm, items, prims, axis)
                    && self.holds_halves(items, prims, perm);
            let sorted = arranged(items, perm);
            let mid = (items.len() / 2) as int;
            let lo = sorted.subrange(0, mid);
            let hi = sorted.subrange(mid, sorted.len() as int);
            match (self.left, self.right) {
                (BvhChild::Node(l), BvhChild::Node(r)) => {
                    l.lemma_leaves_are_items(lo, prims);
                    r.lemma_leaves_are_items(hi, prims);
                    let ll = l.leaves();
                    let rl = r.leaves();
                    assert(leaves == ll + rl);
                    assert forall|k: int| 0 <= k < leaves.len() implies items.contains(
                        #[trigger] leaves[k],
                    ) by {
                        if k < ll.len() {
                            assert(leaves[k] == ll[k]);
                            assert(lo.contains(ll[k]));
                            let j = choose|j: int| 0 <= j < lo.len() && lo[j] == ll[k];
                            assert(lo[j] == items[perm[j] as int]);
                        } else {
                            assert(leaves[k] == rl[k - ll.len()]);
                            assert(hi.contains(rl[k - ll.len()]));
                            let j = choose|j: int| 0 <= j < hi.len() && hi[j] == rl[k - ll.len()];
                            assert(hi[j] == items[perm[j + mid] as int]);
                        }
                    }
                    assert forall|p: int| 0 <= p < items.len() implies leaves.contains(
                        #[trigger] items[p],
                    ) by {
                        assert(perm.contains(p as usize));
                        let i = choose|i: int| 0 <= i < perm.len() && perm[i] == p as usize;
                        assert(sorted[i] == items[p]);
                        if i < mid {
                            assert(lo[i] == items[p]);
                            assert(ll.contains(lo[i]));
                            let w = choose|w: int| 0 <= w < ll.len() && ll[w] == items[p];
                            assert(leaves[w] == items[p]);
                        } else {
                            assert(hi[i - mid] == items[p]);
                            assert(rl.contains(hi[i - mid]));
                            let w = choose|w: int| 0 <= w < rl.len() && rl[w] == items[p];
                            assert(leaves[w + ll.len()] == items[p]);
                        }
                    }
                },
                _ => {},
            }
        }
    }

    /// The box of a hierarchy encloses the box of every primitive under it.
    pub proof fn lemma_box_encloses_leaves(self, items: Seq<usize>, prims: Seq<PrimitiveBounds>)
        requires
            self.built_from(items, prims),
        ensures
            forall|k: int|
                0 <= k < self.leaves().len() ==> self.bbox.encloses(
                    prims[#[trigger] self.leaves()[k] as int].bbox,
                ),
    {
        self.lemma_built_is_tight(items, prims);
        self.lemma_tight_encloses_leaves(prims);
    }
}

impl BvhChild {
    /// Every box under this child is the union of the boxes of its two
    /// children.
    pub open spec fn tight(self, prims: Seq<PrimitiveBounds>) -> bool
        decreases self,
    {
        match self {
            BvhChild::Primitive(_) => true,
            BvhChild::Node(n) => n.tight(prims),
        }
    }

    /// Whether `rec` may be the answer of this child for the ray `r` over
    /// `[t_min, bound]`: the answer of the primitive, or of the branching.
    pub open spec fn outcome<H: Hittable, F: Fn(Aabb, Ray, usize) -> Slab>(
        self,
        objects: Seq<H>,
        slab_of: F,
        r: Ray,
        t_min: Scalar,
        bound: Scalar,
        rec: Option<HitRecord>,
    ) -> bool
        decreases self, 0nat,
    {
        match self {
            BvhChild::Primitive(i) => objects[i as int].hit_outcome(r, t_min, bound, rec),
            BvhChild::Node(n) => n.may_answer(objects, slab_of, r, t_min, bound, rec),
        }
    }
}

impl Branch {
    /// Every box of this hierarchy is the union of the boxes of its two
    /// children.
    pub open spec fn tight(self, prims: Seq<PrimitiveBounds>) -> bool
        decreases self,
    {
        &&& self.bbox == Aabb::union(self.left.bound(prims), self.right.bound(prims))
        &&& self.left.tight(prims)
        &&& self.right.tight(prims)
    }

    /// Every primitive under this branching has an index below `n`.
    pub open spec fn leaves_below(self, n: int) -> bool {
        forall|k: int| 0 <= k < self.leaves().len() ==> (#[trigger] self.leaves()[k]) < n
    }

    /// Whether `rec` may be the answer of this hierarchy for the ray `r` over
    /// `[t_min, bound]`.
    ///
    /// If the ray misses the box of the hierarchy within the range, the
    /// answer is none. Else the left child answers, the right child answers
    /// within what the left child's hit leaves of the range, and the answer is
    /// the right child's hit if it has one, else the left child's.
    pub open spec fn may_answer<H: Hittable, F: Fn(Aabb, Ray, usize) -> Slab>(
        self,
        objects: Seq<H>,
        slab_of: F,
        r: Ray,
        t_min: Scalar,
        bound: Scalar,
        rec: Option<HitRecord>,
    ) -> bool
        decreases self, 1nat,
    {
        exists|s: Slabs, pass: bool|
            {
                &&& #[trigger] box_test(slab_of, self.bbox, r, t_min, bound, s, pass)
                &&& if pass {
                    exists|left_rec: Option<HitRecord>, right_rec: Option<HitRecord>|
                        {
                            &&& rec == #[trigger] keep_closer(left_rec, right_rec)
                            &&& self.left.outcome(objects, slab_of, r, t_min, bound, left_rec)
                            &&& self.right.outcome(
                                objects,
                                slab_of,
                                r,
                                t_min,
                                bound_after(left_rec, bound),
                                right_rec,
                            )
                        }
                } else {
                    rec.is_none()
                }
            }
    }
}

/// The answer of the child `child` for the ray `r` over `[t_min, t_max]`.
fn hit_child<H: Hittable, F: Fn(Aabb, Ray, usize) -> Slab>(
    child: &BvhChild,
    objects: &Vec<H>,
    slab_of: &F,
    r: &Ray,
    t_min: Scalar,
    t_max: Scalar,
) -> (rec: Option<HitRecord>)
    requires
        forall|k: int| 0 <= k < child.leaves().len() ==> (#[trigger] child.leaves()[k]) < objects.len(),
        forall|b: Aabb, q: Ray, a: usize| a < 3 ==> slab_of.requires((b, q, a)),
    ensures
        child.outcome(objects@, *slab_of, *r, t_min, t_max, rec),
    decreases child,
{
    match child {
        BvhChild::Primitive(i) => {
            proof {
                assert(child.leaves()[0] == *i);
            }
            objects[*i].hit(r, t_min, t_max)
        },
        BvhChild::Node(n) => {
            proof {
                assert(child.leaves() == n.leaves());
            }
            hit_branch(n, objects, slab_of, r, t_min, t_max)
        },
    }
}

/// The answer of the hierarchy `node` for the ray `r` over `[t_min, t_max]`.
///
/// A hierarchy whose box the ray misses is not looked into. Else the left
/// child is asked, then the right child for a hit that is no farther, and the
/// later hit is the answer.
fn hit_branch<H: Hittable, F: Fn(Aabb, Ray, usize) -> Slab>(
    node: &Branch,
    objects: &Vec<H>,
    slab_of: &F,
    r: &Ray,
    t_min: Scalar,
    t_max: Scalar,
) -> (rec: Option<HitRecord>)
    requires
        node.leaves_below(objects.len() as int),
        forall|b: Aabb, q: Ray, a: usize| a < 3 ==> slab_of.requires((b, q, a)),
    ensures
        node.may_answer(objects@, *slab_of, *r, t_min, t_max, rec),
    decreases node,
{
    let pass = node.bbox.hit(slab_of, r, t_min, t_max);
    let ghost s = choose|s: Slabs| box_test(*slab_of, node.bbox, *r, t_min, t_max, s, pass);
    if !pass {
        return None;
    }
    proof {
        let ll = node.left.leaves();
        let rl = node.right.leaves();
        assert forall|k: int| 0 <= k < ll.len() implies (#[trigger] ll[k]) < objects.len() by {
            assert(node.leaves()[k] == ll[k]);
        }
        assert forall|k: int| 0 <= k < rl.len() implies (#[trigger] rl[k]) < objects.len() by {
            assert(node.leaves()[k + ll.len()] == rl[k]);
        }
    }
    let left_rec = hit_child(&node.left, objects, slab_of, r, t_min, t_max);
    let closest_so_far: Scalar = match left_rec {
        Some(h) => h.t,
        None => t_max,
    };
    let right_rec = hit_child(&node.right, objects, slab_of, r, t_min, closest_so_far);
    let rec = match right_rec {
        Some(_) => right_rec,
        None => left_rec,
    };
    proof {
        assert(rec == keep_closer(left_rec, right_rec));
    }
    rec
}

/// The items of a whole scene of `n` primitives: every index once, in order.
pub open spec fn all_items(n: nat) -> Seq<usize> {
    Seq::new(n, |i: int| i as usize)
}

/// What the hierarchy reads of the shape `object`, if it has the boxes that
/// are read.
///
/// Of every shape the box from `time0` to `time1` is read. Shapes are put in
/// order by their boxes at time zero, so that box is read too, unless the
/// shape is alone: a lone shape is put in order with no other, and its box
/// over the interval stands for its sort box.
pub open spec fn primitive_bounds<H: Hittable>(
    object: H,
    time0: Scalar,
    time1: Scalar,
    alone: bool,
) -> Option<PrimitiveBounds> {
    match object.bounds(time0, time1) {
        Some(bbox) => if alone {
            Some(PrimitiveBounds { sort_box: bbox, bbox })
        } else {
            match object.bounds(0, 0) {
                Some(sort_box) => Some(PrimitiveBounds { sort_box, bbox }),
                None => None,
            }
        },
        None => None,
    }
}

/// A bounding volume hierarchy over the shapes of a scene.
pub struct BvhNode<H: Hittable> {
    /// The shapes.
    pub objects: Vec<H>,
    /// What was read of each shape when the hierarchy was built.
    pub bounds: Vec<PrimitiveBounds>,
    /// The tree over the indices of the shapes.
    pub root: Branch,
}

impl<H: Hittable> BvhNode<H> {
    /// The hierarchy is whole: it holds at least one shape, knows the bounds
    /// of each, and its tree is the hierarchy over all of them.
    pub open spec fn wf(&self) -> bool {
        &&& self.objects@.len() >= 1
        &&& self.bounds@.len() == self.objects@.len()
        &&& self.root.built_from(all_items(self.objects@.len()), self.bounds@)
    }

    /// Whether `rec` may be the answer of the hierarchy for the ray `r` over
    /// `[t_min, t_max]`, where `slab_of` gives the slab of a box for a ray
    /// on one axis.
    pub open spec fn hit_outcome<F: Fn(Aabb, Ray, usize) -> Slab>(
        &self,
        slab_of: F,
        r: Ray,
        t_min: Scalar,
        t_max: Scalar,
        rec: Option<HitRecord>,
    ) -> bool {
        self.root.may_answer(self.objects@, slab_of, r, t_min, t_max, rec)
    }

    /// The hierarchy over `objects`, bounded from `time0` to `time1`.
    ///
    /// There must be at least one shape, and each must have a bounding box
    /// over the interval. Two shapes or more are put in order by their boxes
    /// at time zero, so each must have that box as well; of a lone shape it is
    /// not asked. Else no hierarchy is built, and the error names the first
    /// shape that lacks a box that is read.
    pub fn new(objects: Vec<H>, time0: Scalar, time1: Scalar) -> (r: Result<
        BvhNode<H>,
        BuildError,
    >)
        ensures
            match r {
                Ok(node) => {
                    &&& node.wf()
                    &&& node.objects@ == objects@
                    &&& forall|i: int|
                        0 <= i < objects@.len() ==> primitive_bounds(
                            #[trigger] objects@[i],
                            time0,
                            time1,
                            objects@.len() == 1,
                        ) == Some(node.bounds@[i])
                },
                Err(BuildError::Empty) => objects@.len() == 0,
                Err(BuildError::Unbounded(i)) => {
                    &&& i < objects@.len()
                    &&& primitive_bounds(
                        objects@[i as int],
                        time0,
                        time1,
                        objects@.len() == 1,
                    ).is_none()
                    &&& forall|j: int|
                        0 <= j < i ==> primitive_bounds(
                            #[trigger] objects@[j],
                            time0,
                            time1,
                            objects@.len() == 1,
                        ).is_some()
                },
            },
    {
        let n = objects.len();
        if n == 0 {
            return Err(BuildError::Empty);
        }
        let alone = n == 1;
        let mut bounds: Vec<PrimitiveBounds> = Vec::new();
        let mut items: Vec<usize> = Vec::new();
        let mut i: usize = 0;
        while i < n
            invariant
                i <= n,
                n == objects.len(),
                alone == (n == 1),
                bounds.len() == i,
                items.len() == i,
                forall|j: int| 0 <= j < i ==> (#[trigger] items@[j]) == j,
                forall|j: int|
                    0 <= j < i ==> primitive_bounds(
                        #[trigger] objects@[j],
                        time0,
                        time1,
                        alone,
                    ) == Some(bounds@[j]),
            decreases n - i,
        {
            let bbox = match objects[i].bounding_box(time0, time1) {
                Some(bbox) => bbox,
                None => {
                    return Err(BuildError::Unbounded(i));
                },
            };
            let sort_box = if alone {
                bbox
            } else {
                match objects[i].bounding_box(0, 0) {
                    Some(sort_box) => sort_box,
                    None => {
                        return Err(BuildError::Unbounded(i));
                    },
                }
            };
            bounds.push(PrimitiveBounds { sort_box, bbox });
            items.push(i);
            i += 1;
        }
        proof {
            assert(items@ =~= all_items(n as nat));
        }
        let root = build(items, &bounds);
        Ok(BvhNode { objects, bounds, root })
    }

    /// The closest hit of the ray `r` with the shapes of the hierarchy within
    /// `[t_min, t_max]`, found by way of the boxes: `slab_of` gives the slab
    /// of a box for a ray on one axis, and what lies in a box that the ray misses is not
    /// asked.
    pub fn hit<F: Fn(Aabb, Ray, usize) -> Slab>(
        &self,
        slab_of: &F,
        r: &Ray,
        t_min: Scalar,
        t_max: Scalar,
    ) -> (rec: Option<HitRecord>)
        requires
            self.wf(),
            forall|b: Aabb, q: Ray, a: usize| a < 3 ==> slab_of.requires((b, q, a)),
        ensures
            self.hit_outcome(*slab_of, *r, t_min, t_max, rec),
    {
        let n = self.objects.len();
        proof {
            let items = all_items(n as nat);
            self.root.lemma_leaves_are_items(items, self.bounds@);
            assert forall|k: int| 0 <= k < self.root.leaves().len() implies (
            #[trigger] self.root.leaves()[k]) < self.objects@.len() by {
                let leaf = self.root.leaves()[k];
                assert(items.contains(leaf));
                let p = choose|p: int| 0 <= p < items.len() && items[p] == leaf;
                assert(leaf == p);
            }
        }
        hit_branch(&self.root, &self.objects, slab_of, r, t_min, t_max)
    }

    /// The box of the whole hierarchy.
    pub fn bounding_box(&self, time0: Scalar, time1: Scalar) -> (b: Option<Aabb>)
        ensures
            b == Some(self.root.bbox),
    {
        Some(self.root.bbox)
    }
}

/// The answers of the primitives `leaves`, taken from the answers `full` of
/// all primitives.
pub open spec fn answers_of(leaves: Seq<usize>, full: Seq<Option<HitRecord>>) -> Seq<
    Option<HitRecord>,
> {
    Seq::new(leaves.len(), |k: int| full[leaves[k] as int])
}

/// The slabs that `slab_of` gives are sound for the ray `r`: every hit of a
/// primitive lies after the start of the range, and of a box that holds the
/// primitive the slabs say on every axis that the ray has entered the box
/// before the hit and has not left it before.
pub open spec fn sound_slabs<F: Fn(Aabb, Ray, usize) -> Slab>(
    slab_of: F,
    r: Ray,
    t_min: Scalar,
    prims: Seq<PrimitiveBounds>,
    full: Seq<Option<HitRecord>>,
) -> bool {
    &&& forall|i: int|
        0 <= i < full.len() && (#[trigger] full[i]).is_some() ==> t_min < full[i].unwrap().t
    &&& forall|i: int, bbox: Aabb, a: usize, s: Slab|
        0 <= i < full.len() && (#[trigger] full[i]).is_some() && bbox.encloses(prims[i].bbox) && a
            < 3 && #[trigger] slab_of.ensures((bbox, r, a), s) ==> s.enter < full[i].unwrap().t
            <= s.exit
}

impl BvhChild {
    /// The answer of a child is the closest hit of the primitives under it, if
    /// they answer steadily and the slabs are sound.
    pub proof fn lemma_child_finds_closest<H: Hittable, F: Fn(Aabb, Ray, usize) -> Slab>(
        self,
        objects: Seq<H>,
        prims: Seq<PrimitiveBounds>,
        slab_of: F,
        r: Ray,
        t_min: Scalar,
        t_max: Scalar,
        bound: Scalar,
        full: Seq<Option<HitRecord>>,
        rec: Option<HitRecord>,
    )
        requires
            self.tight(prims),
            forall|k: int|
                0 <= k < self.leaves().len() ==> (#[trigger] self.leaves()[k]) < objects.len(),
            steady(objects, r, t_min, t_max, full),
            sound_slabs(slab_of, r, t_min, prims, full),
            bound <= t_max,
            self.outcome(objects, slab_of, r, t_min, bound, rec),
        ensures
            is_closest(rec, answers_of(self.leaves(), full), bound),
        decreases self, 0nat,
    {
        match self {
            BvhChild::Primitive(i) => {
                assert(self.leaves()[0] == i);
                let answers = answers_of(self.leaves(), full);
                assert(answers[0] == full[i as int]);
                assert(rec == narrowed(full[i as int], bound));
            },
            BvhChild::Node(n) => {
                assert(self.leaves() == n.leaves());
                n.lemma_branch_finds_closest(
                    objects,
                    prims,
                    slab_of,
                    r,
                    t_min,
                    t_max,
                    bound,
                    full,
                    rec,
                );
            },
        }
    }
}

impl Branch {
    /// A hierarchy that was built is tight.
    pub proof fn lemma_built_is_tight(self, items: Seq<usize>, prims: Seq<PrimitiveBounds>)
        requires
            self.built_from(items, prims),
        ensures
            self.tight(prims),
        decreases self,
    {
        if items.len() == 1 {
        } else if items.len() == 2 {
            let axis = choose|axis: int|
                0 <= axis < 3 && #[trigger] self.holds_pair(items, prims, axis);
        } else {
            let (axis, perm) = choose|axis: int, perm: Seq<usize>|
                0 <= axis < 3 && #[trigger] is_stable_order(perm, items, prims, axis)
                    && self.holds_halves(items, prims, perm);
            let sorted = arranged(items, perm);
            let mid = (items.len() / 2) as int;
            match (self.left, self.right) {
                (BvhChild::Node(l), BvhChild::Node(r)) => {
                    l.lemma_built_is_tight(sorted.subrange(0, mid), prims);
                    r.lemma_built_is_tight(sorted.subrange(mid, sorted.len() as int), prims);
                },
                _ => {},
            }
        }
    }

    /// The box of a tight hierarchy encloses the box of every primitive under
    /// it.
    pub proof fn lemma_tight_encloses_leaves(self, prims: Seq<PrimitiveBounds>)
        requires
            self.tight(prims),
        ensures
            forall|k: int|
                0 <= k < self.leaves().len() ==> self.bbox.encloses(
                    prims[#[trigger] self.leaves()[k] as int].bbox,
                ),
        decreases self,
    {
        let leaves = self.leaves();
        let ll = self.left.leaves();
        let rl = self.right.leaves();
        Aabb::lemma_union_encloses(self.left.bound(prims), self.right.bound(prims));
        match self.left {
            BvhChild::Primitive(i) => {
                assert(ll[0] == i);
            },
            BvhChild::Node(l) => {
                l.lemma_tight_encloses_leaves(prims);
                assert(ll == l.leaves());
            },
        }
        match self.right {
            BvhChild::Primitive(i) => {
                assert(rl[0] == i);
            },
            BvhChild::Node(r) => {
                r.lemma_tight_encloses_leaves(prims);
                assert(rl == r.leaves());
            },
        }
        assert forall|k: int| 0 <= k < leaves.len() implies self.bbox.encloses(
            prims[#[trigger] leaves[k] as int].bbox,
        ) by {
            if k < ll.len() {
                assert(leaves[k] == ll[k]);
                Aabb::lemma_encloses_transitive(
                    self.bbox,
                    self.left.bound(prims),
                    prims[ll[k] as int].bbox,
                );
            } else {
                assert(leaves[k] == rl[k - ll.len()]);
                Aabb::lemma_encloses_transitive(
                    self.bbox,
                    self.right.bound(prims),
                    prims[rl[k - ll.len()] as int].bbox,
                );
            }
        }
    }

    /// The answer of a tight hierarchy is the closest hit of the primitives
    /// under it, if they answer steadily and the slabs are sound: nothing is
    /// lost by not asking what lies in a box that the ray misses.
    pub proof fn lemma_branch_finds_closest<H: Hittable, F: Fn(Aabb, Ray, usize) -> Slab>(
        self,
        objects: Seq<H>,
        prims: Seq<PrimitiveBounds>,
        slab_of: F,
        r: Ray,
        t_min: Scalar,
        t_max: Scalar,
        bound: Scalar,
        full: Seq<Option<HitRecord>>,
        rec: Option<HitRecord>,
    )
        requires
            self.tight(prims),
            self.leaves_below(objects.len() as int),
            steady(objects, r, t_min, t_max, full),
            sound_slabs(slab_of, r, t_min, prims, full),
            bound <= t_max,
            self.may_answer(objects, slab_of, r, t_min, bound, rec),
        ensures
            is_closest(rec, answers_of(self.leaves(), full), bound),
        decreases self, 1nat,
    {
        let leaves = self.leaves();
        let ll = self.left.leaves();
        let rl = self.right.leaves();
        let answers = answers_of(leaves, full);
        assert forall|k: int| 0 <= k < ll.len() implies (#[trigger] ll[k]) < objects.len() by {
            assert(leaves[k] == ll[k]);
        }
        assert forall|k: int| 0 <= k < rl.len() implies (#[trigger] rl[k]) < objects.len() by {
            assert(leaves[k + ll.len()] == rl[k]);
        }
        let (s, pass) = choose|s: Slabs, pass: bool|
            {
                &&& #[trigger] box_test(slab_of, self.bbox, r, t_min, bound, s, pass)
                &&& if pass {
                    exists|left_rec: Option<HitRecord>, right_rec: Option<HitRecord>|
                        {
                            &&& rec == #[trigger] keep_closer(left_rec, right_rec)
                            &&& self.left.outcome(objects, slab_of, r, t_min, bound, left_rec)
                            &&& self.right.outcome(
                                objects,
                                slab_of,
                                r,
                                t_min,
                                bound_after(left_rec, bound),
                                right_rec,
                            )
                        }
                } else {
                    rec.is_none()
                }
            };
        if pass {
            let (left_rec, right_rec) = choose|
                left_rec: Option<HitRecord>,
                right_rec: Option<HitRecord>,
            |
                {
                    &&& rec == #[trigger] keep_closer(left_rec, right_rec)
                    &&& self.left.outcome(objects, slab_of, r, t_min, bound, left_rec)
                    &&& self.right.outcome(
                        objects,
                        slab_of,
                        r,
                        t_min,
                        bound_after(left_rec, bound),
                        right_rec,
                    )
                };
            self.left.lemma_child_finds_closest(
                objects,
                prims,
                slab_of,
                r,
                t_min,
                t_max,
                bound,
                full,
                left_rec,
            );
            self.right.lemma_child_finds_closest(
                objects,
                prims,
                slab_of,
                r,
                t_min,
                t_max,
                bound_after(left_rec, bound),
                full,
                right_rec,
            );
            lemma_closest_of_both(
                answers_of(ll, full),
                answers_of(rl, full),
                bound,
                left_rec,
                right_rec,
            );
            assert(answers =~= answers_of(ll, full) + answers_of(rl, full));
        } else {
            self.lemma_tight_encloses_leaves(prims);
            assert forall|k: int| 0 <= k < answers.len() implies narrowed(
                #[trigger] answers[k],
                bound,
            ).is_none() by {
                let i = leaves[k] as int;
                assert(answers[k] == full[i]);
                if full[i].is_some() && full[i].unwrap().t <= bound {
                    assert(self.bbox.encloses(prims[i].bbox));
                    assert(slab_of.ensures((self.bbox, r, 0usize), s.x));
                    assert(s.x.enter < full[i].unwrap().t <= s.x.exit);
                    assert(slab_of.ensures((self.bbox, r, 1usize), s.y));
                    assert(s.y.enter < full[i].unwrap().t <= s.y.exit);
                    assert(slab_of.ensures((self.bbox, r, 2usize), s.z));
                    assert(s.z.enter < full[i].unwrap().t <= s.z.exit);
                    assert(false);
                }
            }
        }
    }
}

impl<H: Hittable> BvhNode<H> {
    /// The hit of a hierarchy is the closest hit of its shapes, if they answer
    /// steadily and the slabs are sound: the same as asking every shape over
    /// the whole range and keeping the nearest answer.
    pub proof fn lemma_hit_is_closest<F: Fn(Aabb, Ray, usize) -> Slab>(
        self,
        slab_of: F,
        r: Ray,
        t_min: Scalar,
        t_max: Scalar,
        full: Seq<Option<HitRecord>>,
        rec: Option<HitRecord>,
    )
        requires
            self.wf(),
            self.objects@.len() <= usize::MAX,
            steady(self.objects@, r, t_min, t_max, full),
            sound_slabs(slab_of, r, t_min, self.bounds@, full),
            self.hit_outcome(slab_of, r, t_min, t_max, rec),
        ensures
            is_closest(rec, full, t_max),
    {
        let items = all_items(self.objects@.len());
        let leaves = self.root.leaves();
        let answers = answers_of(leaves, full);
        self.root.lemma_leaves_are_items(items, self.bounds@);
        self.root.lemma_built_is_tight(items, self.bounds@);
        assert forall|k: int| 0 <= k < leaves.len() implies (#[trigger] leaves[k])
            < self.objects@.len() by {
            assert(items.contains(leaves[k]));
            let p = choose|p: int| 0 <= p < items.len() && items[p] == leaves[k];
        }
        self.root.lemma_branch_finds_closest(
            self.objects@,
            self.bounds@,
            slab_of,
            r,
            t_min,
            t_max,
            t_max,
            full,
            rec,
        );
        assert forall|j: int| 0 <= j < full.len() implies answers.contains(
            #[trigger] full[j],
        ) by {
            assert(items[j] == j);
            assert(leaves.contains(items[j]));
            let k = choose|k: int| 0 <= k < leaves.len() && leaves[k] == items[j];
            assert(answers[k] == full[j]);
        }
        match rec {
            Some(h) => {
                let w = choose|w: int| 0 <= w < answers.len() && answers[w] == Some(h);
                assert(full[leaves[w] as int] == Some(h));
                assert forall|j: int| 0 <= j < full.len() && (#[trigger] full[j]).is_some() implies h.t
                    <= full[j].unwrap().t by {
                    assert(answers.contains(full[j]));
                    let k = choose|k: int| 0 <= k < answers.len() && answers[k] == full[j];
                }
            },
            None => {
                assert forall|j: int| 0 <= j < full.len() implies narrowed(
                    #[trigger] full[j],
                    t_max,
                ).is_none() by {
                    assert(answers.contains(full[j]));
                    let k = choose|k: int| 0 <= k < answers.len() && answers[k] == full[j];
                }
            },
        }
    }

    /// A hierarchy and a plain list of the same shapes find the same closest
    /// hit, if the shapes answer steadily and the slabs are sound: there is a
    /// hit for both or for neither, both hits are equally far, and where no
    /// two shapes are hit equally far, both are the same hit.
    pub proof fn lemma_agrees_with_list<F: Fn(Aabb, Ray, usize) -> Slab>(
        self,
        list: HittableList<H>,
        slab_of: F,
        r: Ray,
        t_min: Scalar,
        t_max: Scalar,
        full: Seq<Option<HitRecord>>,
        by_tree: Option<HitRecord>,
        by_scan: Option<HitRecord>,
    )
        requires
            self.wf(),
            self.objects@.len() <= usize::MAX,
            list.objects@ == self.objects@,
            steady(self.objects@, r, t_min, t_max, full),
            sound_slabs(slab_of, r, t_min, self.bounds@, full),
            self.hit_outcome(slab_of, r, t_min, t_max, by_tree),
            list.hit_outcome(r, t_min, t_max, by_scan),
        ensures
            by_tree.is_none() <==> by_scan.is_none(),
            by_tree.is_some() ==> by_tree.unwrap().t == by_scan.unwrap().t,
            (forall|i: int, j: int|
                0 <= i < j < full.len() && (#[trigger] full[i]).is_some() && (
                #[trigger] full[j]).is_some() ==> full[i].unwrap().t != full[j].unwrap().t)
                ==> by_tree == by_scan,
    {
        self.lemma_hit_is_closest(slab_of, r, t_min, t_max, full, by_tree);
        lemma_list_hit_is_closest(list, r, t_min, t_max, full, by_scan);
        lemma_closest_agree(by_tree, by_scan, full, t_max);
    }
}

/// The number of primitives that a hierarchy of the height `h` has room for:
/// one without a branching, and twice as many with every further level.
pub open spec fn capacity(h: nat) -> nat
    decreases h,
{
    if h == 0 {
        1
    } else {
        2 * capacity((h - 1) as nat)
    }
}

impl Branch {
    /// A hierarchy that was built is balanced: it is as low as a binary tree
    /// over its items can be. Up to two items are the children of a single
    /// branching; more than that fill the hierarchy and would not fit into a
    /// lower one.
    pub proof fn lemma_built_is_balanced(self, items: Seq<usize>, prims: Seq<PrimitiveBounds>)
        requires
            self.built_from(items, prims),
        ensures
            self.height() >= 1,
            items.len() <= 2 ==> self.height() == 1,
            items.len() >= 2 ==> capacity((self.height() - 1) as nat) < items.len() <= capacity(
                self.height(),
            ),
        decreases self,
    {
        assert(capacity(0) == 1);
        assert(capacity(1) == 2 * capacity(0));
        if items.len() == 1 {
        } else if items.len() == 2 {
            let axis = choose|axis: int|
                0 <= axis < 3 && #[trigger] self.holds_pair(items, prims, axis);
        } else {
            let (axis, perm) = choose|axis: int, perm: Seq<usize>|
                0 <= axis < 3 && #[trigger] is_stable_order(perm, items, prims, axis)
                    && self.holds_halves(items, prims, perm);
            let sorted = arranged(items, perm);
            let n = items.len() as int;
            let mid = n / 2;
            match (self.left, self.right) {
                (BvhChild::Node(l), BvhChild::Node(r)) => {
                    l.lemma_built_is_balanced(sorted.subrange(0, mid), prims);
                    r.lemma_built_is_balanced(sorted.subrange(mid, sorted.len() as int), prims);
                    let hl = l.height();
                    let hr = r.height();
                    let h = self.height();
                    assert(sorted.subrange(0, mid).len() == mid);
                    assert(sorted.subrange(mid, sorted.len() as int).len() == n - mid);
                    assert(capacity(hl) == 2 * capacity((hl - 1) as nat));
                    assert(capacity(hr) == 2 * capacity((hr - 1) as nat));
                    assert(capacity(h) == 2 * capacity((h - 1) as nat));
                    assert(mid <= capacity(hl));
                    assert(n - mid <= capacity(hr));
                    if hl >= hr {
                        assert(h == hl + 1);
                        lemma_capacity_grows(hr, hl);
                    } else {
                        assert(h == hr + 1);
                        lemma_capacity_grows(hl, hr);
                    }
                },
                _ => {},
            }
        }
    }
}

/// A higher hierarchy has room for at least as many primitives.
pub proof fn lemma_capacity_grows(a: nat, b: nat)
    requires
        a <= b,
    ensures
        1 <= capacity(a) <= capacity(b),
    decreases b,
{
    if b == 0 {
    } else if a < b {
        lemma_capacity_grows(a, (b - 1) as nat);
    } else {
        lemma_capacity_grows((a - 1) as nat, (b - 1) as nat);
    }
}

impl BvhChild {
    /// The answer of a child lies within the range, if every primitive
    /// answers within the range it is asked for.
    pub proof fn lemma_child_lies_within<H: Hittable, F: Fn(Aabb, Ray, usize) -> Slab>(
        self,
        objects: Seq<H>,
        slab_of: F,
        r: Ray,
        t_min: Scalar,
        bound: Scalar,
        rec: Option<HitRecord>,
    )
        requires
            forall|k: int|
                0 <= k < self.leaves().len() ==> (#[trigger] self.leaves()[k]) < objects.len(),
            answers_within(objects, r, t_min),
            self.outcome(objects, slab_of, r, t_min, bound, rec),
        ensures
            lies_within(rec, t_min, bound),
        decreases self, 0nat,
    {
        match self {
            BvhChild::Primitive(i) => {
                assert(self.leaves()[0] == i);
            },
            BvhChild::Node(n) => {
                assert(self.leaves() == n.leaves());
                n.lemma_branch_lies_within(objects, slab_of, r, t_min, bound, rec);
            },
        }
    }
}

impl Branch {
    /// The answer of a hierarchy lies within the range, if every primitive
    /// answers within the range it is asked for.
    pub proof fn lemma_branch_lies_within<H: Hittable, F: Fn(Aabb, Ray, usize) -> Slab>(
        self,
        objects: Seq<H>,
        slab_of: F,
        r: Ray,
        t_min: Scalar,
        bound: Scalar,
        rec: Option<HitRecord>,
    )
        requires
            self.leaves_below(objects.len() as int),
            answers_within(objects, r, t_min),
            self.may_answer(objects, slab_of, r, t_min, bound, rec),
        ensures
            lies_within(rec, t_min, bound),
        decreases self, 1nat,
    {
        let leaves = self.leaves();
        let ll = self.left.leaves();
        let rl = self.right.leaves();
        assert forall|k: int| 0 <= k < ll.len() implies (#[trigger] ll[k]) < objects.len() by {
            assert(leaves[k] == ll[k]);
        }
        assert forall|k: int| 0 <= k < rl.len() implies (#[trigger] rl[k]) < objects.len() by {
            assert(leaves[k + ll.len()] == rl[k]);
        }
        let (s, pass) = choose|s: Slabs, pass: bool|
            {
                &&& #[trigger] box_test(slab_of, self.bbox, r, t_min, bound, s, pass)
                &&& if pass {
                    exists|left_rec: Option<HitRecord>, right_rec: Option<HitRecord>|
                        {
                            &&& rec == #[trigger] keep_closer(left_rec, right_rec)
                            &&& self.left.outcome(objects, slab_of, r, t_min, bound, left_rec)
                            &&& self.right.outcome(
                                objects,
                                slab_of,
                                r,
                                t_min,
                                bound_after(left_rec, bound),
                                right_rec,
                            )
                        }
                } else {
                    rec.is_none()
                }
            };
        if pass {
            let (left_rec, right_rec) = choose|
                left_rec: Option<HitRecord>,
                right_rec: Option<HitRecord>,
            |
                {
                    &&& rec == #[trigger] keep_closer(left_rec, right_rec)
                    &&& self.left.outcome(objects, slab_of, r, t_min, bound, left_rec)
                    &&& self.right.outcome(
                        objects,
                        slab_of,
                        r,
                        t_min,
                        bound_after(left_rec, bound),
                        right_rec,
                    )
                };
            self.left.lemma_child_lies_within(objects, slab_of, r, t_min, bound, left_rec);
            self.right.lemma_child_lies_within(
                objects,
                slab_of,
                r,
                t_min,
                bound_after(left_rec, bound),
                right_rec,
            );
        }
    }

    /// The box of a tight hierarchy is the least box that encloses the boxes
    /// of all primitives under it: every box that encloses them all encloses
    /// it.
    pub proof fn lemma_tight_box_is_least(self, prims: Seq<PrimitiveBounds>, outer: Aabb)
        requires
            self.tight(prims),
            forall|k: int|
                0 <= k < self.leaves().len() ==> outer.encloses(
                    prims[#[trigger] self.leaves()[k] as int].bbox,
                ),
        ensures
            outer.encloses(self.bbox),
        decreases self,
    {
        let leaves = self.leaves();
        let ll = self.left.leaves();
        let rl = self.right.leaves();
        assert forall|k: int| 0 <= k < ll.len() implies outer.encloses(
            prims[#[trigger] ll[k] as int].bbox,
        ) by {
            assert(leaves[k] == ll[k]);
        }
        assert forall|k: int| 0 <= k < rl.len() implies outer.encloses(
            prims[#[trigger] rl[k] as int].bbox,
        ) by {
            assert(leaves[k + ll.len()] == rl[k]);
        }
        match self.left {
            BvhChild::Primitive(i) => {
                assert(ll[0] == i);
            },
            BvhChild::Node(l) => {
                assert(ll == l.leaves());
                l.lemma_tight_box_is_least(prims, outer);
            },
        }
        match self.right {
            BvhChild::Primitive(i) => {
                assert(rl[0] == i);
            },
            BvhChild::Node(r) => {
                assert(rl == r.leaves());
                r.lemma_tight_box_is_least(prims, outer);
            },
        }
        Aabb::lemma_union_least(self.left.bound(prims), self.right.bound(prims), outer);
    }
}

impl<H: Hittable> BvhNode<H> {
    /// The hit of a hierarchy lies in `[t_min, t_max]`, if every shape answers
    /// within the range it is asked for.
    pub proof fn lemma_hit_lies_within<F: Fn(Aabb, Ray, usize) -> Slab>(
        self,
        slab_of: F,
        r: Ray,
        t_min: Scalar,
        t_max: Scalar,
        rec: Option<HitRecord>,
    )
        requires
            self.wf(),
            self.objects@.len() <= usize::MAX,
            answers_within(self.objects@, r, t_min),
            self.hit_outcome(slab_of, r, t_min, t_max, rec),
        ensures
            lies_within(rec, t_min, t_max),
    {
        let items = all_items(self.objects@.len());
        let leaves = self.root.leaves();
        self.root.lemma_leaves_are_items(items, self.bounds@);
        assert forall|k: int| 0 <= k < leaves.len() implies (#[trigger] leaves[k])
            < self.objects@.len() by {
            assert(items.contains(leaves[k]));
            let p = choose|p: int| 0 <= p < items.len() && items[p] == leaves[k];
        }
        self.root.lemma_branch_lies_within(self.objects@, slab_of, r, t_min, t_max, rec);
    }

    /// The box of a hierarchy is the union of the boxes of its shapes: it
    /// encloses the box of every shape, and every box that encloses them all
    /// encloses it.
    pub proof fn lemma_box_is_union(self, outer: Aabb)
        requires
            self.wf(),
            self.objects@.len() <= usize::MAX,
        ensures
            forall|i: int|
                0 <= i < self.bounds@.len() ==> self.root.bbox.encloses(
                    (#[trigger] self.bounds@[i]).bbox,
                ),
            (forall|i: int|
                0 <= i < self.bounds@.len() ==> outer.encloses((#[trigger] self.bounds@[i]).bbox))
                ==> outer.encloses(self.root.bbox),
    {
        let items = all_items(self.objects@.len());
        let leaves = self.root.leaves();
        self.root.lemma_leaves_are_items(items, self.bounds@);
        self.root.lemma_built_is_tight(items, self.bounds@);
        self.root.lemma_tight_encloses_leaves(self.bounds@);
        assert forall|i: int| 0 <= i < self.bounds@.len() implies self.root.bbox.encloses(
            (#[trigger] self.bounds@[i]).bbox,
        ) by {
            assert(items[i] == i);
            assert(leaves.contains(items[i]));
            let k = choose|k: int| 0 <= k < leaves.len() && leaves[k] == items[i];
        }
        if forall|i: int|
            0 <= i < self.bounds@.len() ==> outer.encloses((#[trigger] self.bounds@[i]).bbox) {
            assert forall|k: int| 0 <= k < leaves.len() implies outer.encloses(
                self.bounds@[#[trigger] leaves[k] as int].bbox,
            ) by {
                assert(items.contains(leaves[k]));
                let p = choose|p: int| 0 <= p < items.len() && items[p] == leaves[k];
                assert(outer.encloses(self.bounds@[p].bbox));
            }
            self.root.lemma_tight_box_is_least(self.bounds@, outer);
        }
    }
}

} // verus!
