//! The bounding-volume hierarchy: a binary tree over the shapes of a scene,
//! built once and then searched for the nearest hit of each ray.
//!
//! A tree does not own its shapes. Its leaves are positions in the sequence
//! of shapes that it was built from, and a search is handed that sequence.
use crate::aabb::{kernel_fixed, kernel_total, Slabs, AABB};
use crate::collision::{
    all_steady, below, closest_among, cut, lemma_closest_unique, lemma_scan_closest, scan, steady,
    HitRecord, Hittable,
};
use crate::scalar::Scalar;
use crate::vec3::Ray;
use vstd::prelude::*;

verus! {

/// One of the three coordinate axes.
#[derive(Clone, Copy, Debug, PartialEq, Eq, Structural)]
pub enum AxisIndexes {
    X,
    Y,
    Z,
}

/// A uniform draw from `0..n`, by `rand::Rng::gen_range` on the generator of
/// the current thread (`rand::thread_rng`). All that is claimed of the draw
/// is that it lies in the range; `gen_range` panics on an empty range, which
/// `n > 0` excludes.
#[verifier::external_body]
fn random_below(n: usize) -> (k: usize)
    requires
        n > 0,
    ensures
        k < n,
{
    rand::Rng::gen_range(&mut rand::thread_rng(), 0..n)
}

impl AxisIndexes {
    /// The position of the axis among the components of a vector.
    pub open spec fn index_spec(self) -> int {
        match self {
            AxisIndexes::X => 0,
            AxisIndexes::Y => 1,
            AxisIndexes::Z => 2,
        }
    }

    /// The axis that a draw from `0..3` stands for.
    pub open spec fn from_draw_spec(k: int) -> AxisIndexes {
        if k == 0 {
            AxisIndexes::X
        } else if k == 1 {
            AxisIndexes::Y
        } else {
            AxisIndexes::Z
        }
    }

    pub fn index(&self) -> (i: usize)
        ensures
            i == self.index_spec(),
            i < 3,
    {
        match self {
            AxisIndexes::X => 0,
            AxisIndexes::Y => 1,
            AxisIndexes::Z => 2,
        }
    }

    /// The axis with the given position.
    pub fn from_draw(k: usize) -> (axis: AxisIndexes)
        requires
            k < 3,
        ensures
            axis == Self::from_draw_spec(k as int),
            axis.index_spec() == k,
    {
        if k == 0 {
            AxisIndexes::X
        } else if k == 1 {
            AxisIndexes::Y
        } else {
            AxisIndexes::Z
        }
    }

    /// An axis chosen at random, each with the same chance. Nothing is known
    /// of the outcome beyond its being one of the three.
    pub fn random_axis() -> (axis: AxisIndexes)
        ensures
            0 <= axis.index_spec() < 3,
    {
        Self::from_draw(random_below(3))
    }
}

/// What hangs below a node: one shape, by its position, or another node.
#[derive(Debug)]
pub enum BVHChild {
    Leaf(usize),
    Node(Box<BVHNode>),
}

/// A node of the hierarchy: two children and the box that holds both.
#[derive(Debug)]
pub struct BVHNode {
    pub left: BVHChild,
    pub right: BVHChild,
    pub aabb: AABB,
}

/// The upper end of the search in the right child: a hit in the left child
/// shortens the interval to its distance.
pub open spec fn right_bound_spec(left: Option<HitRecord>, t_max: Scalar) -> Scalar {
    match left {
        Some(rec) => t_max.min_spec(rec.t),
        None => t_max,
    }
}

/// Of the hits of the two children, the one with the smaller distance; the
/// left one when the distances are equal; the only one, if there is one.
pub open spec fn closer_spec(left: Option<HitRecord>, right: Option<HitRecord>) -> Option<
    HitRecord,
> {
    match left {
        Some(l) => match right {
            Some(r) => if l.t.le_spec(r.t) {
                left
            } else {
                right
            },
            None => left,
        },
        None => right,
    }
}

pub fn right_bound(left: &Option<HitRecord>, t_max: Scalar) -> (bound: Scalar)
    ensures
        bound == right_bound_spec(*left, t_max),
{
    match left {
        Some(rec) => t_max.min(rec.t),
        None => t_max,
    }
}

pub fn closer(left: Option<HitRecord>, right: Option<HitRecord>) -> (out: Option<HitRecord>)
    ensures
        out == closer_spec(left, right),
{
    match left {
        Some(l) => match right {
            Some(r) => if l.t.le(r.t) {
                left
            } else {
                right
            },
            None => left,
        },
        None => right,
    }
}

impl BVHChild {
    /// The positions of the shapes below.
    pub open spec fn leaf_set(self) -> Set<int>
        decreases self,
    {
        match self {
            BVHChild::Leaf(i) => set![i as int],
            BVHChild::Node(node) => node.leaf_set(),
        }
    }

    /// Every leaf below is a position in a sequence of `n` shapes.
    pub open spec fn in_range(self, n: int) -> bool
        decreases self,
    {
        match self {
            BVHChild::Leaf(i) => i < n,
            BVHChild::Node(node) => node.in_range(n),
        }
    }

    /// What a search below finds: a shape's own answer, or a node's.
    pub open spec fn hit_spec<H: Hittable, F: Fn(&AABB, &Ray) -> Slabs>(
        self,
        items: Seq<H>,
        r: Ray,
        t_min: Scalar,
        t_max: Scalar,
        kernel: &F,
    ) -> Option<HitRecord>
        decreases self,
    {
        match self {
            BVHChild::Leaf(i) => items[i as int].hit_spec(r, t_min, t_max),
            BVHChild::Node(node) => node.hit_spec(items, r, t_min, t_max, kernel),
        }
    }

    /// Every box test below rejects only where no shape below is hit.
    pub open spec fn culls_soundly<H: Hittable, F: Fn(&AABB, &Ray) -> Slabs>(
        self,
        items: Seq<H>,
        r: Ray,
        t_min: Scalar,
        t_max: Scalar,
        kernel: &F,
    ) -> bool
        decreases self,
    {
        match self {
            BVHChild::Leaf(_) => true,
            BVHChild::Node(node) => node.culls_soundly(items, r, t_min, t_max, kernel),
        }
    }

    /// `out` is an answer that a search below can give.
    pub open spec fn finds<H: Hittable, F: Fn(&AABB, &Ray) -> Slabs>(
        self,
        items: Seq<H>,
        r: Ray,
        t_min: Scalar,
        t_max: Scalar,
        kernel: &F,
        out: Option<HitRecord>,
    ) -> bool
        decreases self,
    {
        match self {
            BVHChild::Leaf(i) => out == items[i as int].hit_spec(r, t_min, t_max),
            BVHChild::Node(node) => node.finds(items, r, t_min, t_max, kernel, out),
        }
    }

    pub fn hit<H: Hittable, F: Fn(&AABB, &Ray) -> Slabs>(
        &self,
        items: &Vec<H>,
        r: &Ray,
        t_min: Scalar,
        t_max: Scalar,
        kernel: &F,
    ) -> (rec: Option<HitRecord>)
        requires
            self.in_range(items@.len() as int),
            kernel_total(kernel),
        ensures
            self.finds(items@, *r, t_min, t_max, kernel, rec),
            kernel_fixed(kernel) ==> rec == self.hit_spec(items@, *r, t_min, t_max, kernel),
        decreases self,
    {
        match self {
            BVHChild::Leaf(i) => items[*i].hit(r, t_min, t_max),
            BVHChild::Node(node) => node.hit(items, r, t_min, t_max, kernel),
        }
    }
}

impl BVHNode {
    /// The positions of the shapes below the node.
    pub open spec fn leaf_set(self) -> Set<int>
        decreases self,
    {
        self.left.leaf_set().union(self.right.leaf_set())
    }

    /// Every leaf below the node is a position in a sequence of `n` shapes.
    pub open spec fn in_range(self, n: int) -> bool
        decreases self,
    {
        self.left.in_range(n) && self.right.in_range(n)
    }

    /// What the search of a node finds. A ray that misses the node's box
    /// finds nothing. Otherwise the left child is searched over the whole
    /// interval and the right child over what the left hit has left of it,
    /// and the closer of the two hits is the answer.
    pub open spec fn hit_spec<H: Hittable, F: Fn(&AABB, &Ray) -> Slabs>(
        self,
        items: Seq<H>,
        r: Ray,
        t_min: Scalar,
        t_max: Scalar,
        kernel: &F,
    ) -> Option<HitRecord>
        decreases self,
    {
        if self.aabb.hit_spec(r, t_min, t_max, kernel) {
            let left = self.left.hit_spec(items, r, t_min, t_max, kernel);
            let right = self.right.hit_spec(
                items,
                r,
                t_min,
                right_bound_spec(left, t_max),
                kernel,
            );
            closer_spec(left, right)
        } else {
            None
        }
    }

    /// The box test of this node, and every box test below it, rejects a
    /// ray on an interval `(t_min, b)` with `b` up to `t_max` only where no
    /// shape below is hit on that interval.
    pub open spec fn culls_soundly<H: Hittable, F: Fn(&AABB, &Ray) -> Slabs>(
        self,
        items: Seq<H>,
        r: Ray,
        t_min: Scalar,
        t_max: Scalar,
        kernel: &F,
    ) -> bool
        decreases self,
    {
        &&& forall|b: Scalar, i: int|
            !b.nan() && b.key() <= t_max.key() && !self.aabb.hit_spec(r, t_min, b, kernel)
                && self.leaf_set().contains(i) ==> (#[trigger] items[i].hit_spec(r, t_min, b))
                is None
        &&& self.left.culls_soundly(items, r, t_min, t_max, kernel)
        &&& self.right.culls_soundly(items, r, t_min, t_max, kernel)
    }

    /// `out` is an answer that the search of the node can give: nothing,
    /// where the box test can reject the ray; and where it can accept the
    /// ray, the closer of an answer of the left child on the whole interval
    /// and an answer of the right child on what the left one leaves of it.
    pub open spec fn finds<H: Hittable, F: Fn(&AABB, &Ray) -> Slabs>(
        self,
        items: Seq<H>,
        r: Ray,
        t_min: Scalar,
        t_max: Scalar,
        kernel: &F,
        out: Option<HitRecord>,
    ) -> bool
        decreases self,
    {
        ||| self.aabb.may_hit(r, t_min, t_max, kernel, false) && out is None
        ||| self.aabb.may_hit(r, t_min, t_max, kernel, true) && exists|
            left: Option<HitRecord>,
            right: Option<HitRecord>,
        |
            #![trigger closer_spec(left, right)]
            {
                &&& self.left.finds(items, r, t_min, t_max, kernel, left)
                &&& self.right.finds(
                    items,
                    r,
                    t_min,
                    right_bound_spec(left, t_max),
                    kernel,
                    right,
                )
                &&& out == closer_spec(left, right)
            }
    }

    /// The nearest hit of the ray inside `(t_min, t_max)` among the shapes
    /// below the node. `kernel` does the arithmetic of the box tests; where
    /// it is a function, the answer is `hit_spec`.
    pub fn hit<H: Hittable, F: Fn(&AABB, &Ray) -> Slabs>(
        &self,
        items: &Vec<H>,
        r: &Ray,
        t_min: Scalar,
        t_max: Scalar,
        kernel: &F,
    ) -> (rec: Option<HitRecord>)
        requires
            self.in_range(items@.len() as int),
            kernel_total(kernel),
        ensures
            self.finds(items@, *r, t_min, t_max, kernel, rec),
            kernel_fixed(kernel) ==> rec == self.hit_spec(items@, *r, t_min, t_max, kernel),
        decreases self,
    {
        if self.aabb.hit(r, t_min, t_max, kernel) {
            let rec_left = self.left.hit(items, r, t_min, t_max, kernel);
            let rec_right = self.right.hit(
                items,
                r,
                t_min,
                right_bound(&rec_left, t_max),
                kernel,
            );
            closer(rec_left, rec_right)
        } else {
            None
        }
    }

    pub fn bounding_box(&self) -> (b: AABB)
        ensures
            b == self.aabb,
    {
        self.aabb
    }
}

/// How the first of two keys stands to the second.
#[derive(Clone, Copy, Debug, PartialEq, Eq, Structural)]
pub enum KeyOrder {
    Less,
    Equal,
    Greater,
}

/// The key by which a box is ordered along an axis: the place of its lower
/// corner on that axis.
pub open spec fn axis_key(b: AABB, axis: AxisIndexes) -> int {
    b.min_corner().component_spec(axis.index_spec()).key()
}

/// How two keys compare.
pub open spec fn key_order(a: int, b: int) -> KeyOrder {
    if a < b {
        KeyOrder::Less
    } else if a == b {
        KeyOrder::Equal
    } else {
        KeyOrder::Greater
    }
}

/// The text of the error for a shape without a box.
pub open spec fn no_box_message() -> Seq<char> {
    "No bounding box in BVH constructor"@
}

/// The text of the error for an empty list of shapes.
pub open spec fn empty_list_message() -> Seq<char> {
    "Cannot build a BVH with an empty object list"@
}

fn exec_axis_key(b: &AABB, axis: AxisIndexes) -> (k: Scalar)
    ensures
        !k.nan(),
        k.key() == axis_key(*b, axis),
{
    b.min().component(axis.index())
}

/// Compares two shapes by the lower corners of their boxes along an axis.
/// It fails when one of them has no box.
pub fn box_compare<H: Hittable>(a: &H, b: &H, axis: AxisIndexes) -> (out: Result<KeyOrder, String>)
    ensures
        match out {
            Ok(order) => {
                &&& a.bounding_box_spec(Scalar { bits: 0 }, Scalar { bits: 0 }) matches Some(a_box)
                &&& b.bounding_box_spec(Scalar { bits: 0 }, Scalar { bits: 0 }) matches Some(b_box)
                &&& order == key_order(axis_key(a_box, axis), axis_key(b_box, axis))
            },
            Err(e) => {
                &&& a.bounding_box_spec(Scalar { bits: 0 }, Scalar { bits: 0 }) is None
                    || b.bounding_box_spec(Scalar { bits: 0 }, Scalar { bits: 0 }) is None
                &&& e@ == no_box_message()
            },
        },
{
    let a_box = a.bounding_box(Scalar::zero(), Scalar::zero());
    let b_box = b.bounding_box(Scalar::zero(), Scalar::zero());
    match (a_box, b_box) {
        (Some(a_box), Some(b_box)) => {
            let ka = exec_axis_key(&a_box, axis);
            let kb = exec_axis_key(&b_box, axis);
            if ka.lt(kb) {
                Ok(KeyOrder::Less)
            } else if kb.lt(ka) {
                Ok(KeyOrder::Greater)
            } else {
                Ok(KeyOrder::Equal)
            }
        },
        _ => Err(String::from_str("No bounding box in BVH constructor")),
    }
}

/// The positions `order` run by non-decreasing key along the axis.
pub open spec fn sorted_on(boxes: Seq<AABB>, order: Seq<usize>, axis: AxisIndexes) -> bool {
    forall|a: int, b: int|
        0 <= a <= b < order.len() ==> axis_key(boxes[order[a] as int], axis) <= axis_key(
            boxes[order[b] as int],
            axis,
        )
}

/// Every position of the sequence is below `n`.
pub open spec fn all_below(idx: Seq<usize>, n: int) -> bool {
    forall|k: int| 0 <= k < idx.len() ==> (#[trigger] idx[k]) < n
}

/// The positions that occur in the sequence.
pub open spec fn members(idx: Seq<usize>) -> Set<int> {
    Set::new(|i: int| exists|k: int| 0 <= k < idx.len() && (#[trigger] idx[k]) == i)
}

/// The boxes of the shapes, for shapes that all have one.
pub open spec fn boxes_of<H: Hittable>(items: Seq<H>) -> Seq<AABB> {
    Seq::new(
        items.len(),
        |i: int| items[i].bounding_box_spec(Scalar { bits: 0 }, Scalar { bits: 0 })->0,
    )
}

/// The positions `0, 1, .., n - 1` in their order.
pub open spec fn identity(n: nat) -> Seq<usize> {
    Seq::new(n, |i: int| i as usize)
}

impl BVHNode {
    /// The node over two shapes: along `axis` the one with the smaller key
    /// is the left child, and the first stays left when the keys are equal.
    pub open spec fn pair_ok(self, boxes: Seq<AABB>, idx: Seq<usize>, axis: AxisIndexes) -> bool {
        let first = boxes[idx[0] as int];
        let second = boxes[idx[1] as int];
        if axis_key(second, axis) < axis_key(first, axis) {
            &&& self.left == BVHChild::Leaf(idx[1])
            &&& self.right == BVHChild::Leaf(idx[0])
            &&& self.aabb == second.union_spec(first)
        } else {
            &&& self.left == BVHChild::Leaf(idx[0])
            &&& self.right == BVHChild::Leaf(idx[1])
            &&& self.aabb == first.union_spec(second)
        }
    }

    /// The node over three or more shapes, but for what lies below its
    /// children: `order` holds the same positions sorted along `axis`, both
    /// children are nodes, and the box is the union of theirs.
    pub open spec fn split_ok(
        self,
        boxes: Seq<AABB>,
        idx: Seq<usize>,
        axis: AxisIndexes,
        order: Seq<usize>,
    ) -> bool {
        &&& order.to_multiset() == idx.to_multiset()
        &&& order.len() == idx.len()
        &&& sorted_on(boxes, order, axis)
        &&& self.left matches BVHChild::Node(l)
        &&& self.right matches BVHChild::Node(r)
        &&& self.aabb == l.aabb.union_spec(r.aabb)
    }

    /// The node is what the construction makes of the shapes at the
    /// positions `idx`, whatever axes it drew. One shape is both children
    /// of its node; two shapes are ordered along an axis; three or more are
    /// sorted along an axis and split at the middle, the left child built
    /// over the first half and the right child over the rest. The box of a
    /// node is the union of the boxes of its children.
    pub open spec fn built(self, boxes: Seq<AABB>, idx: Seq<usize>) -> bool
        decreases self,
    {
        if idx.len() == 1 {
            &&& self.left == BVHChild::Leaf(idx[0])
            &&& self.right == BVHChild::Leaf(idx[0])
            &&& self.aabb == boxes[idx[0] as int].union_spec(boxes[idx[0] as int])
        } else if idx.len() == 2 {
            exists|axis: AxisIndexes| self.pair_ok(boxes, idx, axis)
        } else if idx.len() >= 3 {
            exists|axis: AxisIndexes, order: Seq<usize>|
                #![trigger self.split_ok(boxes, idx, axis, order)]
                {
                    &&& self.split_ok(boxes, idx, axis, order)
                    &&& self.left matches BVHChild::Node(l) && l.built(
                        boxes,
                        order.subrange(0, idx.len() as int / 2),
                    )
                    &&& self.right matches BVHChild::Node(r) && r.built(
                        boxes,
                        order.subrange(idx.len() as int / 2, idx.len() as int),
                    )
                }
        } else {
            false
        }
    }
}

/// The positions sorted by key along the axis; positions with equal keys
/// keep their order.
fn sort_on_axis(boxes: &Vec<AABB>, idx: &Vec<usize>, axis: AxisIndexes) -> (order: Vec<usize>)
    requires
        all_below(idx@, boxes@.len() as int),
    ensures
        order@.to_multiset() == idx@.to_multiset(),
        order@.len() == idx@.len(),
        sorted_on(boxes@, order@, axis),
        all_below(order@, boxes@.len() as int),
{
    let mut order: Vec<usize> = Vec::new();
    let mut k: usize = 0;
    proof {
        assert(idx@.subrange(0, 0) =~= Seq::<usize>::empty());
    }
    while k < idx.len()
        invariant
            k <= idx.len(),
            all_below(idx@, boxes@.len() as int),
            order@.to_multiset() == idx@.subrange(0, k as int).to_multiset(),
            order@.len() == k,
            sorted_on(boxes@, order@, axis),
            all_below(order@, boxes@.len() as int),
        decreases idx.len() - k,
    {
        let x = idx[k];
        let key = exec_axis_key(&boxes[x], axis);
        let mut pos: usize = order.len();
        while pos > 0 && key.lt(exec_axis_key(&boxes[order[pos - 1]], axis))
            invariant
                pos <= order.len(),
                x < boxes@.len(),
                !key.nan(),
                key.key() == axis_key(boxes@[x as int], axis),
                all_below(order@, boxes@.len() as int),
                forall|j: int|
                    pos <= j < order.len() ==> axis_key(boxes@[x as int], axis) < axis_key(
                        boxes@[order@[j] as int],
                        axis,
                    ),
            decreases pos,
        {
            pos = pos - 1;
        }
        let ghost before = order@;
        order.insert(pos, x);
        proof {
            vstd::seq_lib::to_multiset_insert(before, pos as int, x);
            vstd::seq_lib::to_multiset_build(idx@.subrange(0, k as int), x);
            assert(idx@.subrange(0, k as int).push(x) =~= idx@.subrange(0, k as int + 1));
            assert forall|a: int, b: int| 0 <= a <= b < order@.len() implies axis_key(
                boxes@[order@[a] as int],
                axis,
            ) <= axis_key(boxes@[order@[b] as int], axis) by {
                let a0 = if a < pos {
                    a
                } else {
                    a - 1
                };
                let b0 = if b < pos {
                    b
                } else {
                    b - 1
                };
                if a != pos && b != pos {
                    assert(order@[a] == before[a0] && order@[b] == before[b0]);
                } else if a == pos && b != pos {
                    assert(order@[b] == before[b0]);
                } else if a != pos && b == pos {
                    assert(order@[a] == before[a0]);
                    if pos > 0 {
                        assert(axis_key(boxes@[before[pos - 1] as int], axis) <= axis_key(
                            boxes@[x as int],
                            axis,
                        ));
                    }
                }
            }
            assert forall|j: int| 0 <= j < order@.len() implies (#[trigger] order@[j])
                < boxes@.len() by {
                if j < pos {
                    assert(order@[j] == before[j]);
                } else if j > pos {
                    assert(order@[j] == before[j - 1]);
                }
            }
        }
        k = k + 1;
    }
    proof {
        assert(idx@.subrange(0, idx@.len() as int) =~= idx@);
    }
    order
}

/// The part of the sequence from `from` up to `to`.
fn copy_range(v: &Vec<usize>, from: usize, to: usize) -> (part: Vec<usize>)
    requires
        from <= to <= v@.len(),
    ensures
        part@ == v@.subrange(from as int, to as int),
{
    let mut part: Vec<usize> = Vec::new();
    let mut k: usize = from;
    while k < to
        invariant
            from <= k <= to <= v@.len(),
            part@ == v@.subrange(from as int, k as int),
        decreases to - k,
    {
        part.push(v[k]);
        proof {
            assert(v@.subrange(from as int, k as int).push(v@[k as int]) =~= v@.subrange(
                from as int,
                k as int + 1,
            ));
        }
        k = k + 1;
    }
    part
}

/// Builds the node over the shapes at the positions `idx`.
fn build<H: Hittable>(items: &Vec<H>, boxes: &Vec<AABB>, idx: &Vec<usize>) -> (node: BVHNode)
    requires
        idx@.len() >= 1,
        all_below(idx@, items@.len() as int),
        boxes@.len() == items@.len(),
        forall|i: int|
            0 <= i < items@.len() ==> (#[trigger] items@[i]).bounding_box_spec(
                Scalar { bits: 0 },
                Scalar { bits: 0 },
            ) == Some(boxes@[i]),
    ensures
        node.built(boxes@, idx@),
    decreases idx@.len(),
{
    let n = idx.len();
    if n == 1 {
        let only = idx[0];
        BVHNode {
            left: BVHChild::Leaf(only),
            right: BVHChild::Leaf(only),
            aabb: AABB::surrounding_box(&boxes[only], &boxes[only]),
        }
    } else if n == 2 {
        let axis = AxisIndexes::random_axis();
        let first = idx[0];
        let second = idx[1];
        let node = match box_compare(&items[first], &items[second], axis) {
            Ok(KeyOrder::Greater) => BVHNode {
                left: BVHChild::Leaf(second),
                right: BVHChild::Leaf(first),
                aabb: AABB::surrounding_box(&boxes[second], &boxes[first]),
            },
            _ => BVHNode {
                left: BVHChild::Leaf(first),
                right: BVHChild::Leaf(second),
                aabb: AABB::surrounding_box(&boxes[first], &boxes[second]),
            },
        };
        proof {
            assert(node.pair_ok(boxes@, idx@, axis));
        }
        node
    } else {
        let axis = AxisIndexes::random_axis();
        let order = sort_on_axis(boxes, idx, axis);
        let mid = n / 2;
        let left_src = copy_range(&order, 0, mid);
        let right_src = copy_range(&order, mid, n);
        let left_node = build(items, boxes, &left_src);
        let right_node = build(items, boxes, &right_src);
        let aabb = AABB::surrounding_box(&left_node.aabb, &right_node.aabb);
        let node = BVHNode {
            left: BVHChild::Node(Box::new(left_node)),
            right: BVHChild::Node(Box::new(right_node)),
            aabb,
        };
        proof {
            assert(node.split_ok(boxes@, idx@, axis, order@));
            assert(node.built(boxes@, idx@));
        }
        node
    }
}

/// Every box of the sequence has ordered corners.
pub open spec fn all_wf(boxes: Seq<AABB>) -> bool {
    forall|k: int| 0 <= k < boxes.len() ==> (#[trigger] boxes[k]).wf()
}

/// Every shape of the sequence has a box.
pub open spec fn all_boxed<H: Hittable>(items: Seq<H>) -> bool {
    forall|i: int|
        0 <= i < items.len() ==> (#[trigger] items[i]).bounding_box_spec(
            Scalar { bits: 0 },
            Scalar { bits: 0 },
        ) is Some
}

impl BVHNode {
    /// Builds the hierarchy over the shapes. It fails on an empty list and
    /// when a shape has no box. Otherwise the tree is the one that `built`
    /// describes, and its leaves are exactly the positions of the shapes.
    pub fn new<H: Hittable>(src_hittables: &Vec<H>) -> (out: Result<BVHNode, String>)
        ensures
            match out {
                Ok(node) => {
                    &&& src_hittables@.len() > 0
                    &&& all_boxed(src_hittables@)
                    &&& all_wf(boxes_of(src_hittables@))
                    &&& node.built(boxes_of(src_hittables@), identity(src_hittables@.len()))
                    &&& node.in_range(src_hittables@.len() as int)
                    &&& node.leaf_set() == below(src_hittables@.len() as int)
                },
                Err(e) => if src_hittables@.len() == 0 {
                    e@ == empty_list_message()
                } else {
                    !all_boxed(src_hittables@) && e@ == no_box_message()
                },
            },
    {
        let n = src_hittables.len();
        if n == 0 {
            return Err(String::from_str("Cannot build a BVH with an empty object list"));
        }
        let mut boxes: Vec<AABB> = Vec::new();
        let mut idx: Vec<usize> = Vec::new();
        let mut i: usize = 0;
        while i < n
            invariant
                i <= n,
                n == src_hittables@.len(),
                boxes@.len() == i,
                idx@ == identity(i as nat),
                all_wf(boxes@),
                forall|k: int|
                    0 <= k < i ==> (#[trigger] src_hittables@[k]).bounding_box_spec(
                        Scalar { bits: 0 },
                        Scalar { bits: 0 },
                    ) == Some(boxes@[k]),
            decreases n - i,
        {
            match src_hittables[i].bounding_box(Scalar::zero(), Scalar::zero()) {
                Some(b) => {
                    // reading a corner brings along that the corners are ordered
                    let _ = b.min();
                    boxes.push(b);
                    idx.push(i);
                    proof {
                        assert(idx@ =~= identity((i + 1) as nat));
                    }
                },
                None => {
                    return Err(String::from_str("No bounding box in BVH constructor"));
                },
            }
            i = i + 1;
        }
        let node = build(src_hittables, &boxes, &idx);
        proof {
            assert(boxes@ =~= boxes_of(src_hittables@));
            lemma_built_leaves(node, boxes@, idx@, n as int);
            assert(node.leaf_set() =~= below(n as int)) by {
                assert forall|j: int| below(n as int).contains(j) implies members(idx@).contains(
                    j,
                ) by {
                    assert(idx@[j] == j);
                }
            }
        }
        Ok(node)
    }
}

/// Two sequences with the same elements, counted, hold the same positions.
pub proof fn lemma_members_of_permutation(a: Seq<usize>, b: Seq<usize>)
    requires
        a.to_multiset() == b.to_multiset(),
    ensures
        members(a) == members(b),
{
    assert forall|i: int| members(a).contains(i) <==> members(b).contains(i) by {
        if members(a).contains(i) {
            let k = choose|k: int| 0 <= k < a.len() && (#[trigger] a[k]) == i;
            vstd::seq_lib::to_multiset_contains(a, a[k]);
            vstd::seq_lib::to_multiset_contains(b, a[k]);
            assert(a.contains(a[k]));
            let m = choose|m: int| 0 <= m < b.len() && b[m] == a[k];
            assert(b[m] == i);
        }
        if members(b).contains(i) {
            let k = choose|k: int| 0 <= k < b.len() && (#[trigger] b[k]) == i;
            vstd::seq_lib::to_multiset_contains(a, b[k]);
            vstd::seq_lib::to_multiset_contains(b, b[k]);
            assert(b.contains(b[k]));
            let m = choose|m: int| 0 <= m < a.len() && a[m] == b[k];
            assert(a[m] == i);
        }
    }
    assert(members(a) =~= members(b));
}

/// The leaves of a built node are exactly the positions it was built over.
pub proof fn lemma_built_leaves(node: BVHNode, boxes: Seq<AABB>, idx: Seq<usize>, n: int)
    requires
        node.built(boxes, idx),
        all_below(idx, n),
    ensures
        node.leaf_set() == members(idx),
        node.in_range(n),
    decreases node,
{
    if idx.len() == 1 {
        assert(idx[0] < n);
        assert(node.leaf_set() =~= members(idx)) by {
            assert(members(idx).contains(idx[0] as int));
        }
    } else if idx.len() == 2 {
        let axis = choose|axis: AxisIndexes| node.pair_ok(boxes, idx, axis);
        assert(idx[0] < n && idx[1] < n);
        assert(node.leaf_set() =~= members(idx)) by {
            assert(members(idx).contains(idx[0] as int));
            assert(members(idx).contains(idx[1] as int));
        }
    } else {
        let mid = idx.len() as int / 2;
        let (axis, order) = choose|axis: AxisIndexes, order: Seq<usize>|
            #![trigger node.split_ok(boxes, idx, axis, order)]
            {
                &&& node.split_ok(boxes, idx, axis, order)
                &&& node.left matches BVHChild::Node(l) && l.built(boxes, order.subrange(0, mid))
                &&& node.right matches BVHChild::Node(r) && r.built(
                    boxes,
                    order.subrange(mid, idx.len() as int),
                )
            };
        lemma_members_of_permutation(order, idx);
        let first = order.subrange(0, mid);
        let rest = order.subrange(mid, idx.len() as int);
        assert forall|k: int| 0 <= k < order.len() implies (#[trigger] order[k]) < n by {
            assert(members(order).contains(order[k] as int));
            let m = choose|m: int| 0 <= m < idx.len() && (#[trigger] idx[m]) == order[k] as int;
        }
        assert(all_below(first, n)) by {
            assert forall|k: int| 0 <= k < first.len() implies (#[trigger] first[k]) < n by {
                assert(first[k] == order[k]);
            }
        }
        assert(all_below(rest, n)) by {
            assert forall|k: int| 0 <= k < rest.len() implies (#[trigger] rest[k]) < n by {
                assert(rest[k] == order[k + mid]);
            }
        }
        match (node.left, node.right) {
            (BVHChild::Node(l), BVHChild::Node(r)) => {
                lemma_built_leaves(*l, boxes, first, n);
                lemma_built_leaves(*r, boxes, rest, n);
                assert(node.leaf_set() =~= members(order)) by {
                    assert forall|i: int| members(order).contains(i) implies members(
                        first,
                    ).contains(i) || members(rest).contains(i) by {
                        let k = choose|k: int| 0 <= k < order.len() && (#[trigger] order[k]) == i;
                        if k < mid {
                            assert(first[k] == order[k]);
                        } else {
                            assert(rest[k - mid] == order[k]);
                        }
                    }
                    assert forall|i: int| members(first).contains(i) implies members(
                        order,
                    ).contains(i) by {
                        let k = choose|k: int| 0 <= k < first.len() && (#[trigger] first[k]) == i;
                        assert(order[k] == first[k]);
                    }
                    assert forall|i: int| members(rest).contains(i) implies members(
                        order,
                    ).contains(i) by {
                        let k = choose|k: int| 0 <= k < rest.len() && (#[trigger] rest[k]) == i;
                        assert(order[k + mid] == rest[k]);
                    }
                }
            },
            _ => {},
        }
    }
}

/// The box of a built node holds the box of every shape below it.
pub proof fn lemma_built_encloses(node: BVHNode, boxes: Seq<AABB>, idx: Seq<usize>, i: int)
    requires
        node.built(boxes, idx),
        all_below(idx, boxes.len() as int),
        all_wf(boxes),
        node.leaf_set().contains(i),
    ensures
        0 <= i < boxes.len(),
        node.aabb.wf(),
        node.aabb.encloses(boxes[i]),
    decreases node,
{
    lemma_built_leaves(node, boxes, idx, boxes.len() as int);
    assert(members(idx).contains(i));
    let at = choose|k: int| 0 <= k < idx.len() && (#[trigger] idx[k]) == i;
    if idx.len() == 1 {
        assert(idx[0] < boxes.len());
        AABB::lemma_union(boxes[idx[0] as int], boxes[idx[0] as int]);
    } else if idx.len() == 2 {
        let axis = choose|axis: AxisIndexes| node.pair_ok(boxes, idx, axis);
        assert(idx[0] < boxes.len() && idx[1] < boxes.len());
        AABB::lemma_union(boxes[idx[0] as int], boxes[idx[1] as int]);
        AABB::lemma_union(boxes[idx[1] as int], boxes[idx[0] as int]);
    } else {
        let mid = idx.len() as int / 2;
        let (axis, order) = choose|axis: AxisIndexes, order: Seq<usize>|
            #![trigger node.split_ok(boxes, idx, axis, order)]
            {
                &&& node.split_ok(boxes, idx, axis, order)
                &&& node.left matches BVHChild::Node(l) && l.built(boxes, order.subrange(0, mid))
                &&& node.right matches BVHChild::Node(r) && r.built(
                    boxes,
                    order.subrange(mid, idx.len() as int),
                )
            };
        lemma_members_of_permutation(order, idx);
        let first = order.subrange(0, mid);
        let rest = order.subrange(mid, idx.len() as int);
        assert forall|k: int| 0 <= k < order.len() implies (#[trigger] order[k]) < boxes.len() by {
            assert(members(order).contains(order[k] as int));
            let m = choose|m: int| 0 <= m < idx.len() && (#[trigger] idx[m]) == order[k] as int;
        }
        assert(all_below(first, boxes.len() as int)) by {
            assert forall|k: int| 0 <= k < first.len() implies (#[trigger] first[k])
                < boxes.len() by {
                assert(first[k] == order[k]);
            }
        }
        assert(all_below(rest, boxes.len() as int)) by {
            assert forall|k: int| 0 <= k < rest.len() implies (#[trigger] rest[k])
                < boxes.len() by {
                assert(rest[k] == order[k + mid]);
            }
        }
        match (node.left, node.right) {
            (BVHChild::Node(l), BVHChild::Node(r)) => {
                lemma_built_leaves(*l, boxes, first, boxes.len() as int);
                lemma_built_leaves(*r, boxes, rest, boxes.len() as int);
                assert(members(first).contains(first[0] as int));
                assert(members(rest).contains(rest[0] as int));
                lemma_built_encloses(*l, boxes, first, first[0] as int);
                lemma_built_encloses(*r, boxes, rest, rest[0] as int);
                AABB::lemma_union(l.aabb, r.aabb);
                if l.leaf_set().contains(i) {
                    lemma_built_encloses(*l, boxes, first, i);
                    AABB::lemma_encloses_trans(node.aabb, l.aabb, boxes[i]);
                } else {
                    lemma_built_encloses(*r, boxes, rest, i);
                    AABB::lemma_encloses_trans(node.aabb, r.aabb, boxes[i]);
                }
            },
            _ => {},
        }
    }
}

/// With a kernel that is a function, a search below a child has one answer.
pub proof fn lemma_child_finds_fixed<H: Hittable, F: Fn(&AABB, &Ray) -> Slabs>(
    child: BVHChild,
    items: Seq<H>,
    r: Ray,
    t_min: Scalar,
    t_max: Scalar,
    kernel: &F,
    out: Option<HitRecord>,
)
    requires
        kernel_fixed(kernel),
        child.finds(items, r, t_min, t_max, kernel, out),
    ensures
        out == child.hit_spec(items, r, t_min, t_max, kernel),
    decreases child,
{
    match child {
        BVHChild::Leaf(_) => {},
        BVHChild::Node(node) => {
            lemma_node_finds_fixed(*node, items, r, t_min, t_max, kernel, out);
        },
    }
}

/// With a kernel that is a function, the search of a node has one answer.
pub proof fn lemma_node_finds_fixed<H: Hittable, F: Fn(&AABB, &Ray) -> Slabs>(
    node: BVHNode,
    items: Seq<H>,
    r: Ray,
    t_min: Scalar,
    t_max: Scalar,
    kernel: &F,
    out: Option<HitRecord>,
)
    requires
        kernel_fixed(kernel),
        node.finds(items, r, t_min, t_max, kernel, out),
    ensures
        out == node.hit_spec(items, r, t_min, t_max, kernel),
    decreases node,
{
    if node.aabb.may_hit(r, t_min, t_max, kernel, false) {
        node.aabb.lemma_may_hit_fixed(r, t_min, t_max, kernel, false);
    }
    if node.aabb.may_hit(r, t_min, t_max, kernel, true) {
        node.aabb.lemma_may_hit_fixed(r, t_min, t_max, kernel, true);
        let (left, right) = choose|left: Option<HitRecord>, right: Option<HitRecord>|
            #![trigger closer_spec(left, right)]
            {
                &&& node.left.finds(items, r, t_min, t_max, kernel, left)
                &&& node.right.finds(
                    items,
                    r,
                    t_min,
                    right_bound_spec(left, t_max),
                    kernel,
                    right,
                )
                &&& out == closer_spec(left, right)
            };
        lemma_child_finds_fixed(node.left, items, r, t_min, t_max, kernel, left);
        lemma_child_finds_fixed(
            node.right,
            items,
            r,
            t_min,
            right_bound_spec(left, t_max),
            kernel,
            right,
        );
    }
}

/// A search below a child finds the closest hit among the shapes below it,
/// provided the shapes answer steadily and the box tests cull soundly.
pub proof fn lemma_child_closest<H: Hittable, F: Fn(&AABB, &Ray) -> Slabs>(
    child: BVHChild,
    items: Seq<H>,
    r: Ray,
    t_min: Scalar,
    t_max: Scalar,
    b: Scalar,
    kernel: &F,
)
    requires
        child.in_range(items.len() as int),
        all_steady(items, r, t_min, t_max),
        child.culls_soundly(items, r, t_min, t_max, kernel),
        !b.nan(),
        b.key() <= t_max.key(),
    ensures
        closest_among(
            items,
            child.leaf_set(),
            r,
            t_min,
            b,
            child.hit_spec(items, r, t_min, b, kernel),
        ),
    decreases child,
{
    match child {
        BVHChild::Leaf(i) => {
            assert(child.leaf_set().contains(i as int));
        },
        BVHChild::Node(node) => {
            lemma_node_closest(*node, items, r, t_min, t_max, b, kernel);
        },
    }
}

/// A search of a node finds the closest hit among the shapes below it,
/// provided the shapes answer steadily and the box tests cull soundly.
pub proof fn lemma_node_closest<H: Hittable, F: Fn(&AABB, &Ray) -> Slabs>(
    node: BVHNode,
    items: Seq<H>,
    r: Ray,
    t_min: Scalar,
    t_max: Scalar,
    b: Scalar,
    kernel: &F,
)
    requires
        node.in_range(items.len() as int),
        all_steady(items, r, t_min, t_max),
        node.culls_soundly(items, r, t_min, t_max, kernel),
        !b.nan(),
        b.key() <= t_max.key(),
    ensures
        closest_among(
            items,
            node.leaf_set(),
            r,
            t_min,
            b,
            node.hit_spec(items, r, t_min, b, kernel),
        ),
    decreases node,
{
    let out = node.hit_spec(items, r, t_min, b, kernel);
    let all = node.leaf_set();
    if node.aabb.hit_spec(r, t_min, b, kernel) {
        let left = node.left.hit_spec(items, r, t_min, b, kernel);
        lemma_child_closest(node.left, items, r, t_min, t_max, b, kernel);
        let lset = node.left.leaf_set();
        let rset = node.right.leaf_set();
        let b2 = right_bound_spec(left, b);
        if left is Some {
            let wl = choose|i: int|
                lset.contains(i) && (#[trigger] items[i]).hit_spec(r, t_min, b) == Some(left->0);
            lemma_leaf_in_range_child(node.left, items.len() as int, wl);
            assert(steady(items[wl], r, t_min, t_max));
            assert(left->0.within(t_min, b));
        }
        assert(!b2.nan() && b2.key() <= b.key());
        let right = node.right.hit_spec(items, r, t_min, b2, kernel);
        lemma_child_closest(node.right, items, r, t_min, t_max, b2, kernel);
        // every answer on the shorter interval is the answer on `(t_min, b)`, cut at `b2`
        assert forall|j: int| rset.contains(j) implies (#[trigger] items[j]).hit_spec(r, t_min, b2)
            == cut(items[j].hit_spec(r, t_min, b), b2) by {
            lemma_leaf_in_range_child(node.right, items.len() as int, j);
            assert(steady(items[j], r, t_min, t_max));
        }
        match out {
            None => {
                assert(left is None);
                assert forall|i: int| all.contains(i) implies (#[trigger] items[i]).hit_spec(
                    r,
                    t_min,
                    b,
                ) is None by {
                    if !lset.contains(i) {
                        assert(rset.contains(i));
                    }
                }
            },
            Some(rec) => {
                if right is Some {
                    let wr = choose|i: int|
                        rset.contains(i) && (#[trigger] items[i]).hit_spec(r, t_min, b2) == Some(
                            right->0,
                        );
                    lemma_leaf_in_range_child(node.right, items.len() as int, wr);
                    assert(steady(items[wr], r, t_min, t_max));
                    assert(items[wr].hit_spec(r, t_min, b) == Some(right->0));
                    assert(right->0.t.lt_spec(b2));
                    assert(out == right);
                    assert(all.contains(wr));
                } else {
                    assert(out == left);
                    let wl = choose|i: int|
                        lset.contains(i) && (#[trigger] items[i]).hit_spec(r, t_min, b) == Some(
                            left->0,
                        );
                    assert(all.contains(wl));
                }
                assert forall|j: int| all.contains(j) implies ((#[trigger] items[j]).hit_spec(
                    r,
                    t_min,
                    b,
                ) matches Some(q) ==> rec.t.le_spec(q.t)) by {
                    let here = items[j].hit_spec(r, t_min, b);
                    if here is Some {
                        let q = here->0;
                        if lset.contains(j) {
                            lemma_leaf_in_range_child(node.left, items.len() as int, j);
                            assert(steady(items[j], r, t_min, t_max));
                            assert(left is Some);
                            assert(left->0.t.le_spec(q.t));
                        } else {
                            assert(rset.contains(j));
                            lemma_leaf_in_range_child(node.right, items.len() as int, j);
                            assert(steady(items[j], r, t_min, t_max));
                            assert(!q.t.nan());
                        }
                    }
                }
            },
        }
    } else {
        assert forall|i: int| all.contains(i) implies (#[trigger] items[i]).hit_spec(r, t_min, b)
            is None by {
            assert(items[i].hit_spec(r, t_min, b) is None);
        }
    }
}

/// A leaf below a child in range is a position of the sequence.
pub proof fn lemma_leaf_in_range_child(child: BVHChild, n: int, i: int)
    requires
        child.in_range(n),
        child.leaf_set().contains(i),
    ensures
        0 <= i < n,
    decreases child,
{
    match child {
        BVHChild::Leaf(_) => {},
        BVHChild::Node(node) => {
            if node.left.leaf_set().contains(i) {
                lemma_leaf_in_range_child(node.left, n, i);
            } else {
                lemma_leaf_in_range_child(node.right, n, i);
            }
        },
    }
}

/// The hierarchy and the plain scan agree. For a tree whose leaves are all
/// the positions of `items`, whose box tests cull soundly, and for shapes
/// that answer steadily: the search of the tree and the scan of the whole
/// sequence hit or miss together and find the same distance; where no two
/// shapes are hit at one distance they find the same record.
pub proof fn lemma_bvh_matches_scan<H: Hittable, F: Fn(&AABB, &Ray) -> Slabs>(
    node: BVHNode,
    items: Seq<H>,
    r: Ray,
    t_min: Scalar,
    t_max: Scalar,
    kernel: &F,
)
    requires
        node.in_range(items.len() as int),
        node.leaf_set() == below(items.len() as int),
        all_steady(items, r, t_min, t_max),
        node.culls_soundly(items, r, t_min, t_max, kernel),
        !t_max.nan(),
    ensures
        ({
            let tree = node.hit_spec(items, r, t_min, t_max, kernel);
            let flat = scan(items, r, t_min, t_max, items.len() as int);
            &&& tree is Some <==> flat is Some
            &&& tree is Some ==> tree->0.t.key() == flat->0.t.key()
            &&& tree is Some && (forall|i: int, j: int|
                0 <= i < items.len() && 0 <= j < items.len() && i != j ==> !({
                    &&& (#[trigger] items[i]).hit_spec(r, t_min, t_max) matches Some(p)
                    &&& (#[trigger] items[j]).hit_spec(r, t_min, t_max) matches Some(q)
                    &&& p.t.key() == q.t.key()
                })) ==> tree == flat
        }),
{
    let tree = node.hit_spec(items, r, t_min, t_max, kernel);
    let flat = scan(items, r, t_min, t_max, items.len() as int);
    lemma_node_closest(node, items, r, t_min, t_max, t_max, kernel);
    lemma_scan_closest(items, r, t_min, t_max, items.len() as int);
    lemma_closest_unique(items, below(items.len() as int), r, t_min, t_max, tree, flat);
}

/// The box test grows with the box: a ray that passes the test of a box
/// passes the test of every box around it.
pub open spec fn kernel_monotone<F: Fn(&AABB, &Ray) -> Slabs>(
    kernel: &F,
    r: Ray,
    t_min: Scalar,
) -> bool {
    forall|outer: AABB, inner: AABB, b: Scalar|
        #![trigger outer.hit_spec(r, t_min, b, kernel), inner.hit_spec(r, t_min, b, kernel)]
        outer.wf() && inner.wf() && outer.encloses(inner) && inner.hit_spec(r, t_min, b, kernel)
            ==> outer.hit_spec(r, t_min, b, kernel)
}

/// A shape is hit only where the ray passes the test of its box.
pub open spec fn hits_inside_boxes<H: Hittable, F: Fn(&AABB, &Ray) -> Slabs>(
    items: Seq<H>,
    r: Ray,
    t_min: Scalar,
    t_max: Scalar,
    kernel: &F,
) -> bool {
    forall|i: int, b: Scalar|
        0 <= i < items.len() && !b.nan() && b.key() <= t_max.key() && (
        #[trigger] items[i].hit_spec(r, t_min, b)) is Some ==> boxes_of(items)[i].hit_spec(
            r,
            t_min,
            b,
            kernel,
        )
}

/// A built tree culls soundly, for a box test that grows with the box and
/// shapes that are hit only inside their boxes.
pub proof fn lemma_built_culls_soundly<H: Hittable, F: Fn(&AABB, &Ray) -> Slabs>(
    node: BVHNode,
    items: Seq<H>,
    idx: Seq<usize>,
    r: Ray,
    t_min: Scalar,
    t_max: Scalar,
    kernel: &F,
)
    requires
        node.built(boxes_of(items), idx),
        all_below(idx, items.len() as int),
        all_wf(boxes_of(items)),
        kernel_monotone(kernel, r, t_min),
        hits_inside_boxes(items, r, t_min, t_max, kernel),
    ensures
        node.culls_soundly(items, r, t_min, t_max, kernel),
    decreases node,
{
    let boxes = boxes_of(items);
    assert forall|b: Scalar, i: int|
        !b.nan() && b.key() <= t_max.key() && !node.aabb.hit_spec(r, t_min, b, kernel)
            && node.leaf_set().contains(i) implies (#[trigger] items[i].hit_spec(r, t_min, b))
        is None by {
        lemma_built_encloses(node, boxes, idx, i);
        if items[i].hit_spec(r, t_min, b) is Some {
            assert(boxes[i].hit_spec(r, t_min, b, kernel));
            assert(node.aabb.hit_spec(r, t_min, b, kernel));
        }
    }
    if idx.len() >= 3 {
        let mid = idx.len() as int / 2;
        let (axis, order) = choose|axis: AxisIndexes, order: Seq<usize>|
            #![trigger node.split_ok(boxes, idx, axis, order)]
            {
                &&& node.split_ok(boxes, idx, axis, order)
                &&& node.left matches BVHChild::Node(l) && l.built(boxes, order.subrange(0, mid))
                &&& node.right matches BVHChild::Node(r) && r.built(
                    boxes,
                    order.subrange(mid, idx.len() as int),
                )
            };
        lemma_members_of_permutation(order, idx);
        let first = order.subrange(0, mid);
        let rest = order.subrange(mid, idx.len() as int);
        assert forall|k: int| 0 <= k < order.len() implies (#[trigger] order[k]) < items.len() by {
            assert(members(order).contains(order[k] as int));
            let m = choose|m: int| 0 <= m < idx.len() && (#[trigger] idx[m]) == order[k] as int;
        }
        assert(all_below(first, items.len() as int)) by {
            assert forall|k: int| 0 <= k < first.len() implies (#[trigger] first[k])
                < items.len() by {
                assert(first[k] == order[k]);
            }
        }
        assert(all_below(rest, items.len() as int)) by {
            assert forall|k: int| 0 <= k < rest.len() implies (#[trigger] rest[k])
                < items.len() by {
                assert(rest[k] == order[k + mid]);
            }
        }
        match (node.left, node.right) {
            (BVHChild::Node(l), BVHChild::Node(rt)) => {
                lemma_built_culls_soundly(*l, items, first, r, t_min, t_max, kernel);
                lemma_built_culls_soundly(*rt, items, rest, r, t_min, t_max, kernel);
            },
            _ => {},
        }
    }
}

/// The tree that the construction builds finds what the plain scan finds.
/// For shapes that answer steadily and are hit only inside their boxes, and
/// a box test that grows with the box: the search of the built tree and the
/// scan of the shapes hit or miss together and find the same distance; where
/// no two shapes are hit at one distance they find the same record.
pub proof fn lemma_built_tree_matches_scan<H: Hittable, F: Fn(&AABB, &Ray) -> Slabs>(
    node: BVHNode,
    items: Seq<H>,
    r: Ray,
    t_min: Scalar,
    t_max: Scalar,
    kernel: &F,
)
    requires
        items.len() <= usize::MAX,
        node.built(boxes_of(items), identity(items.len())),
        all_wf(boxes_of(items)),
        all_steady(items, r, t_min, t_max),
        kernel_monotone(kernel, r, t_min),
        hits_inside_boxes(items, r, t_min, t_max, kernel),
        !t_max.nan(),
    ensures
        ({
            let tree = node.hit_spec(items, r, t_min, t_max, kernel);
            let flat = scan(items, r, t_min, t_max, items.len() as int);
            &&& tree is Some <==> flat is Some
            &&& tree is Some ==> tree->0.t.key() == flat->0.t.key()
            &&& tree is Some && (forall|i: int, j: int|
                0 <= i < items.len() && 0 <= j < items.len() && i != j ==> !({
                    &&& (#[trigger] items[i]).hit_spec(r, t_min, t_max) matches Some(p)
                    &&& (#[trigger] items[j]).hit_spec(r, t_min, t_max) matches Some(q)
                    &&& p.t.key() == q.t.key()
                })) ==> tree == flat
        }),
{
    let n = items.len() as int;
    let idx = identity(items.len());
    lemma_built_leaves(node, boxes_of(items), idx, n);
    assert(node.leaf_set() =~= below(n)) by {
        assert forall|j: int| below(n).contains(j) implies members(idx).contains(j) by {
            assert(idx[j] == j);
        }
    }
    lemma_built_culls_soundly(node, items, idx, r, t_min, t_max, kernel);
    lemma_bvh_matches_scan(node, items, r, t_min, t_max, kernel);
}

} // verus!
