//! Bounding boxes and the bounding-volume hierarchy over them.
use vstd::arithmetic::power2::{lemma2_to64, lemma_pow2_unfold, pow2};
use vstd::prelude::*;
use crate::rayunit::{is_nearest, InterStruct, Scene};
use crate::scalar::{fmax, fmin, is_negative, is_number, larger, negative, smaller, INF};
use crate::vec3::{max2, min2, Vec3};

verus! {

/// Key of `0.33`: a draw below it picks the x axis.
pub const AXIS_X_BELOW: i64 = 0x3FD5_1EB8_51EB_851F;

/// Key of `0.66`: a draw below it, and not below `0.33`, picks the y axis.
pub const AXIS_Y_BELOW: i64 = 0x3FE5_1EB8_51EB_851F;

/// An axis-aligned box, given by its least and its greatest corner.
#[derive(Clone, Copy, Debug, PartialEq, Eq, Structural)]
pub struct AABB {
    pub min: Vec3,
    pub max: Vec3,
}

impl AABB {
    /// Every coordinate is a number, and along each axis the least corner
    /// is not beyond the greatest.
    pub open spec fn wf(self) -> bool {
        &&& is_number(self.min.x) && is_number(self.min.y) && is_number(self.min.z)
        &&& is_number(self.max.x) && is_number(self.max.y) && is_number(self.max.z)
        &&& self.min.x <= self.max.x
        &&& self.min.y <= self.max.y
        &&& self.min.z <= self.max.z
    }

    /// `other` lies inside `self`.
    pub open spec fn encloses(self, other: AABB) -> bool {
        &&& self.min.x <= other.min.x && other.max.x <= self.max.x
        &&& self.min.y <= other.min.y && other.max.y <= self.max.y
        &&& self.min.z <= other.min.z && other.max.z <= self.max.z
    }

    /// The box spanned by the two boxes' extreme corners.
    pub open spec fn union(self, other: AABB) -> AABB {
        AABB {
            min: Vec3 {
                x: min2(self.min.x, other.min.x),
                y: min2(self.min.y, other.min.y),
                z: min2(self.min.z, other.min.z),
            },
            max: Vec3 {
                x: max2(self.max.x, other.max.x),
                y: max2(self.max.y, other.max.y),
                z: max2(self.max.z, other.max.z),
            },
        }
    }

    pub fn new(min: Vec3, max: Vec3) -> (b: AABB)
        requires
            (AABB { min, max }).wf(),
        ensures
            b == (AABB { min, max }),
            b.wf(),
    {
        AABB { min, max }
    }
}

/// What the caller has calculated of a ray and the two planes of a box
/// across one axis: the inverse `inv_d` of the ray's direction along that
/// axis, and the distances `t0` and `t1` at which the ray meets the plane of
/// the least and of the greatest corner.
#[derive(Clone, Copy, Debug, PartialEq, Eq, Structural)]
pub struct Slab {
    pub inv_d: i64,
    pub t0: i64,
    pub t1: i64,
}

/// The three slabs of a ray and a box.
#[derive(Clone, Copy, Debug, PartialEq, Eq, Structural)]
pub struct Slabs {
    pub x: Slab,
    pub y: Slab,
    pub z: Slab,
}

impl Slab {
    /// The distance at which the ray enters the slab: that of the greatest
    /// corner's plane for a ray that runs against the axis.
    pub open spec fn enter(self) -> i64 {
        if negative(self.inv_d) {
            self.t1
        } else {
            self.t0
        }
    }

    /// The distance at which the ray leaves the slab.
    pub open spec fn leave(self) -> i64 {
        if negative(self.inv_d) {
            self.t0
        } else {
            self.t1
        }
    }

    /// The stretch from `t_min` to `t_max` cut down to the part inside the
    /// slab, or nothing where that part is empty or a single point.
    pub open spec fn narrow(self, t_min: i64, t_max: i64) -> Option<(i64, i64)> {
        let lo = fmax(t_min, self.enter());
        let hi = fmin(t_max, self.leave());
        if hi <= lo {
            None
        } else {
            Some((lo, hi))
        }
    }

    fn cut(&self, t_min: i64, t_max: i64) -> (r: Option<(i64, i64)>)
        ensures
            r == self.narrow(t_min, t_max),
    {
        let (t0, t1) = if is_negative(self.inv_d) {
            (self.t1, self.t0)
        } else {
            (self.t0, self.t1)
        };
        let lo: i64 = larger(t_min, t0);
        let hi: i64 = smaller(t_max, t1);
        if hi <= lo {
            None
        } else {
            Some((lo, hi))
        }
    }
}

/// The slab test: the ray passes the box between `t_min` and `t_max` if that
/// stretch, cut down by the slab of each axis in turn, never becomes empty.
pub open spec fn slab_test(slabs: Slabs, t_min: i64, t_max: i64) -> bool {
    match slabs.x.narrow(t_min, t_max) {
        None => false,
        Some((lo, hi)) => match slabs.y.narrow(lo, hi) {
            None => false,
            Some((lo, hi)) => slabs.z.narrow(lo, hi) is Some,
        },
    }
}

impl AABB {
    /// Tells whether a ray passes the box between the distances `t_min` and
    /// `t_max`, from the ray's three slabs; see `slab_test`.
    pub fn hit(slabs: &Slabs, t_min: i64, t_max: i64) -> (pass: bool)
        ensures
            pass == slab_test(*slabs, t_min, t_max),
    {
        match slabs.x.cut(t_min, t_max) {
            None => false,
            Some((lo, hi)) => match slabs.y.cut(lo, hi) {
                None => false,
                Some((lo, hi)) => slabs.z.cut(lo, hi).is_some(),
            },
        }
    }
}

/// Where every distance is a number, the ray passes the box exactly if it is
/// inside all three slabs at once for more than a moment of the stretch: if
/// the last of its entries, the start of the stretch among them, lies before
/// the first of its exits, the end of the stretch among them.
pub proof fn lemma_slab_test(slabs: Slabs, t_min: i64, t_max: i64)
    requires
        is_number(t_min),
        is_number(t_max),
        slabs_are_numbers(slabs),
    ensures
        slab_test(slabs, t_min, t_max) <==> max2(
            max2(t_min, slabs.x.enter()),
            max2(slabs.y.enter(), slabs.z.enter()),
        ) < min2(min2(t_max, slabs.x.leave()), min2(slabs.y.leave(), slabs.z.leave())),
{
}

/// All six distances of the slabs are numbers.
pub open spec fn slabs_are_numbers(slabs: Slabs) -> bool {
    &&& is_number(slabs.x.t0) && is_number(slabs.x.t1)
    &&& is_number(slabs.y.t0) && is_number(slabs.y.t1)
    &&& is_number(slabs.z.t0) && is_number(slabs.z.t1)
}

/// A ray that passes a box passes every box around it: if along each axis
/// the ray enters the outer box no later and leaves it no sooner than the
/// inner one, and the inner box is passed, then so is the outer one.
pub proof fn lemma_slab_test_grows(outer: Slabs, inner: Slabs, t_min: i64, t_max: i64)
    requires
        is_number(t_min),
        is_number(t_max),
        slabs_are_numbers(outer),
        slabs_are_numbers(inner),
        outer.x.enter() <= inner.x.enter() && inner.x.leave() <= outer.x.leave(),
        outer.y.enter() <= inner.y.enter() && inner.y.leave() <= outer.y.leave(),
        outer.z.enter() <= inner.z.enter() && inner.z.leave() <= outer.z.leave(),
        slab_test(inner, t_min, t_max),
    ensures
        slab_test(outer, t_min, t_max),
{
    lemma_slab_test(outer, t_min, t_max);
    lemma_slab_test(inner, t_min, t_max);
}

fn lesser(a: i64, b: i64) -> (k: i64)
    ensures
        k == min2(a, b),
{
    if a <= b {
        a
    } else {
        b
    }
}

fn greater(a: i64, b: i64) -> (k: i64)
    ensures
        k == max2(a, b),
{
    if a >= b {
        a
    } else {
        b
    }
}

/// The smallest box that holds both boxes: along each axis the lesser of the
/// least and the greater of the greatest coordinates.
pub fn surrounding_box(box0: &AABB, box1: &AABB) -> (b: AABB)
    ensures
        b == box0.union(*box1),
{
    let min = Vec3::new(
        lesser(box0.min.x, box1.min.x),
        lesser(box0.min.y, box1.min.y),
        lesser(box0.min.z, box1.min.z),
    );
    let max = Vec3::new(
        greater(box0.max.x, box1.max.x),
        greater(box0.max.y, box1.max.y),
        greater(box0.max.z, box1.max.z),
    );
    AABB { min, max }
}

/// The union of two boxes holds both, lies inside every box that holds both,
/// and is well formed if the two are.
pub proof fn lemma_union_is_least(a: AABB, b: AABB, c: AABB)
    ensures
        a.union(b).encloses(a),
        a.union(b).encloses(b),
        c.encloses(a) && c.encloses(b) ==> c.encloses(a.union(b)),
        a.wf() && b.wf() ==> a.union(b).wf(),
{
}

/// The union does not depend on the order or the grouping of the boxes, and a
/// box united with a box inside it is unchanged.
pub proof fn lemma_union_algebra(a: AABB, b: AABB, c: AABB)
    ensures
        a.union(b) == b.union(a),
        a.union(b).union(c) == a.union(b.union(c)),
        a.encloses(b) ==> a.union(b) == a,
{
}

/// What the hierarchy knows of one primitive of the scene.
#[derive(Clone, Copy, Debug, PartialEq, Eq, Structural)]
pub struct Primitive {
    /// Index of the primitive in the scene.
    pub id: usize,
    /// The box around the primitive.
    pub bbox: AABB,
    /// Along each axis, the sum of the box's least and greatest coordinate:
    /// twice its centre. The hierarchy orders primitives by it.
    pub centre: Vec3,
}

/// A node is a single primitive or a pair of hierarchies.
#[derive(Debug)]
pub enum BVHNode {
    Branch { left: Box<BVH>, right: Box<BVH> },
    Leaf(Primitive),
}

/// A bounding-volume hierarchy: a binary tree with a primitive at each leaf
/// and, at each node, the box around everything below it.
#[derive(Debug)]
pub struct BVH {
    pub tree: BVHNode,
    pub bbox: AABB,
}

/// The axis that a draw from the unit interval picks.
pub open spec fn axis_of(draw: i64) -> int {
    if draw < AXIS_X_BELOW {
        0
    } else if draw < AXIS_Y_BELOW {
        1
    } else {
        2
    }
}

/// The primitives are in ascending order of their centre along `axis`.
pub open spec fn sorted_along(shape: Seq<Primitive>, axis: int) -> bool {
    forall|i: int, j: int|
        0 <= i < j < shape.len() ==> shape[i].centre.at(axis) <= shape[j].centre.at(axis)
}

/// Every box in the list is well formed.
pub open spec fn boxes_wf(shape: Seq<Primitive>) -> bool {
    forall|i: int| 0 <= i < shape.len() ==> (#[trigger] shape[i]).bbox.wf()
}

impl BVH {
    /// The primitives at the leaves, from left to right.
    pub open spec fn leaves(self) -> Seq<Primitive>
        decreases self,
    {
        match self.tree {
            BVHNode::Leaf(p) => seq![p],
            BVHNode::Branch { left, right } => left.leaves() + right.leaves(),
        }
    }

    /// A leaf's box is its primitive's box, a branch's box is the union of
    /// its children's boxes, and every box is well formed.
    pub open spec fn wf(self) -> bool
        decreases self,
    {
        match self.tree {
            BVHNode::Leaf(p) => self.bbox == p.bbox && p.bbox.wf(),
            BVHNode::Branch { left, right } => {
                &&& left.wf()
                &&& right.wf()
                &&& self.bbox == left.bbox.union(right.bbox)
            },
        }
    }

    /// Every branch gives the lower half of its leaves, rounded down, to its
    /// left child.
    pub open spec fn halved(self) -> bool
        decreases self,
    {
        match self.tree {
            BVHNode::Leaf(p) => true,
            BVHNode::Branch { left, right } => {
                &&& left.halved()
                &&& right.halved()
                &&& left.leaves().len() == (left.leaves().len() + right.leaves().len()) / 2
            },
        }
    }

    /// The number of nodes on the longest way from the root to a leaf.
    pub open spec fn height(self) -> nat
        decreases self,
    {
        match self.tree {
            BVHNode::Leaf(p) => 1,
            BVHNode::Branch { left, right } => if left.height() >= right.height() {
                1 + left.height()
            } else {
                1 + right.height()
            },
        }
    }

    /// Every branch separates its children along the axis that its draw
    /// picked: no leaf on the left has its centre beyond that of a leaf on
    /// the right. The node takes the draw at `pos`, the right child the draws
    /// that follow, the left child those after them.
    pub open spec fn separated(self, draws: Seq<i64>, pos: int) -> bool
        decreases self,
    {
        match self.tree {
            BVHNode::Leaf(p) => true,
            BVHNode::Branch { left, right } => {
                &&& forall|i: int, j: int|
                    0 <= i < left.leaves().len() && 0 <= j < right.leaves().len()
                        ==> (#[trigger] left.leaves()[i]).centre.at(axis_of(draws[pos]))
                            <= (#[trigger] right.leaves()[j]).centre.at(axis_of(draws[pos]))
                &&& right.separated(draws, pos + 1)
                &&& left.separated(draws, pos + 2 * right.leaves().len())
            },
        }
    }
}

/// Picks the axis along which a node splits its primitives, from a draw out
/// of the unit interval: x below `0.33`, y below `0.66`, z from there on.
pub fn axis_of_draw(draw: i64) -> (axis: usize)
    ensures
        axis == axis_of(draw),
        axis < 3,
{
    if draw < AXIS_X_BELOW {
        0
    } else if draw < AXIS_Y_BELOW {
        1
    } else {
        2
    }
}

/// Sorts the primitives by their centre along `axis` with
/// `slice::sort_unstable_by_key`. What is claimed: afterwards the vector holds
/// the same primitives, each as often as before, in ascending order of that
/// key. The order among primitives with equal keys is left open.
#[verifier::external_body]
fn sort_along(shape: &mut Vec<Primitive>, axis: usize)
    requires
        axis < 3,
    ensures
        final(shape)@.to_multiset() == old(shape)@.to_multiset(),
        sorted_along(final(shape)@, axis as int),
{
    shape.sort_unstable_by_key(|p| p.centre.axis(axis));
}

/// What stands in one of two lists that hold the same primitives equally
/// often stands somewhere in the other.
proof fn lemma_member(a: Seq<Primitive>, b: Seq<Primitive>, i: int) -> (j: int)
    requires
        a.to_multiset() == b.to_multiset(),
        0 <= i < a.len(),
    ensures
        0 <= j < b.len(),
        b[j] == a[i],
{
    assert(a.contains(a[i]));
    vstd::seq_lib::to_multiset_contains(a, a[i]);
    vstd::seq_lib::to_multiset_contains(b, a[i]);
    choose|j: int| 0 <= j < b.len() && b[j] == a[i]
}

/// Lists that hold the same primitives equally often are of one length, and
/// the boxes of one are well formed if those of the other are.
proof fn lemma_boxes_wf_permuted(a: Seq<Primitive>, b: Seq<Primitive>)
    requires
        a.to_multiset() == b.to_multiset(),
        boxes_wf(a),
    ensures
        boxes_wf(b),
        a.len() == b.len(),
{
    broadcast use vstd::seq_lib::to_multiset_len;

    assert forall|i: int| 0 <= i < b.len() implies (#[trigger] b[i]).bbox.wf() by {
        let j = lemma_member(b, a, i);
    }
    assert(a.to_multiset().len() == a.len());
    assert(b.to_multiset().len() == b.len());
}

impl BVH {
    /// Builds the hierarchy over `shape`.
    ///
    /// Every node draws once, picks an axis by `axis_of_draw`, and orders its
    /// primitives by their centre along that axis. A single primitive becomes
    /// a leaf. Otherwise the lower half of the ordered list, rounded down,
    /// becomes the left child and the rest the right child, and the node's box
    /// is the union of the two children's boxes. The root takes the first
    /// draw, then the right child is built, then the left one; a hierarchy
    /// over `n` primitives takes `2n - 1` draws.
    pub fn new(shape: Vec<Primitive>, draws: &Vec<i64>) -> (bvh: BVH)
        requires
            shape.len() >= 1,
            draws.len() >= 2 * shape.len() - 1,
            boxes_wf(shape@),
        ensures
            bvh.wf(),
            bvh.leaves().to_multiset() == shape@.to_multiset(),
            bvh.leaves().len() == shape.len(),
            bvh.halved(),
            bvh.separated(draws@, 0),
    {
        let (bvh, _) = BVH::build(shape, draws, 0);
        bvh
    }

    /// Builds the hierarchy whose root takes the draw at `pos`, and returns
    /// it with the position of the first draw that it left untouched.
    fn build(shape: Vec<Primitive>, draws: &Vec<i64>, pos: usize) -> (r: (BVH, usize))
        requires
            shape.len() >= 1,
            pos + 2 * shape.len() - 1 <= draws.len(),
            boxes_wf(shape@),
        ensures
            r.1 == pos + 2 * shape.len() - 1,
            r.0.wf(),
            r.0.leaves().to_multiset() == shape@.to_multiset(),
            r.0.leaves().len() == shape.len(),
            r.0.halved(),
            r.0.separated(draws@, pos as int),
        decreases shape.len(),
    {
        let ghost given = shape@;
        let mut shape = shape;
        let axis: usize = axis_of_draw(draws[pos]);
        sort_along(&mut shape, axis);
        proof {
            lemma_boxes_wf_permuted(given, shape@);
        }
        let len: usize = shape.len();
        if len == 1 {
            let leaf: Primitive = shape[0];
            let bvh = BVH { tree: BVHNode::Leaf(leaf), bbox: leaf.bbox };
            assert(bvh.leaves() =~= shape@);
            (bvh, pos + 1)
        } else {
            let ghost sorted = shape@;
            let half: usize = len / 2;
            let upper: Vec<Primitive> = shape.split_off(half);
            let (right, mid) = BVH::build(upper, draws, pos + 1);
            let (left, end) = BVH::build(shape, draws, mid);
            let bbox = surrounding_box(&left.bbox, &right.bbox);
            let ghost lower_part = sorted.subrange(0, half as int);
            let ghost upper_part = sorted.subrange(half as int, len as int);
            let bvh = BVH {
                tree: BVHNode::Branch { left: Box::new(left), right: Box::new(right) },
                bbox,
            };
            proof {
                vstd::seq_lib::lemma_multiset_commutative(left.leaves(), right.leaves());
                vstd::seq_lib::lemma_multiset_commutative(lower_part, upper_part);
                assert(lower_part + upper_part =~= sorted);
                assert(bvh.leaves() == left.leaves() + right.leaves());
                let along = axis_of(draws@[pos as int]);
                assert forall|i: int, j: int|
                    0 <= i < left.leaves().len() && 0 <= j < right.leaves().len() implies (
                    #[trigger] left.leaves()[i]).centre.at(along) <= (
                    #[trigger] right.leaves()[j]).centre.at(along) by {
                    let a = lemma_member(left.leaves(), lower_part, i);
                    let b = lemma_member(right.leaves(), upper_part, j);
                    assert(lower_part[a] == sorted[a]);
                    assert(upper_part[b] == sorted[half + b]);
                }
            }
            (bvh, end)
        }
    }
}

/// The objects of a scene as the hierarchy holds them: object `i` under the
/// index `i`, with the box and the centre that `bounds[i]` gives.
pub open spec fn primitives_of(bounds: Seq<(AABB, Vec3)>) -> Seq<Primitive> {
    Seq::new(bounds.len(), |i: int| Primitive { id: i as usize, bbox: bounds[i].0, centre: bounds[i].1 })
}

impl Scene {
    /// Builds the hierarchy over the objects of the scene, where `bounds[i]`
    /// holds the box around object `i` and, along each axis, the sum of the
    /// box's least and greatest coordinate. The hierarchy is built as
    /// `BVH::new` builds it; it holds every object of the scene under its
    /// index, and nothing else.
    pub fn hierarchy(&self, bounds: &Vec<(AABB, Vec3)>, draws: &Vec<i64>) -> (bvh: BVH)
        requires
            self.objects.len() >= 1,
            bounds.len() == self.objects.len(),
            draws.len() >= 2 * bounds.len() - 1,
            forall|i: int| 0 <= i < bounds.len() ==> (#[trigger] bounds[i]).0.wf(),
        ensures
            bvh.wf(),
            bvh.halved(),
            bvh.separated(draws@, 0),
            bvh.leaves().to_multiset() == primitives_of(bounds@).to_multiset(),
            bvh.leaves().len() == self.objects.len(),
            forall|i: int|
                0 <= i < bvh.leaves().len() ==> (#[trigger] bvh.leaves()[i]).id
                    < self.objects.len(),
            forall|id: int| 0 <= id < self.objects.len() ==> #[trigger] bvh.holds(id),
    {
        let mut shape: Vec<Primitive> = Vec::new();
        let mut i: usize = 0;
        while i < bounds.len()
            invariant
                i <= bounds.len(),
                shape@ == primitives_of(bounds@).subrange(0, i as int),
            decreases bounds.len() - i,
        {
            let (bbox, centre) = bounds[i];
            shape.push(Primitive { id: i, bbox, centre });
            i += 1;
            assert(shape@ =~= primitives_of(bounds@).subrange(0, i as int));
        }
        assert(shape@ =~= primitives_of(bounds@));
        let bvh = BVH::new(shape, draws);
        proof {
            bvh.lemma_holds_scene(primitives_of(bounds@));
        }
        bvh
    }
}

/// A hit: how far along the ray it lies, and on which primitive.
#[derive(Clone, Copy, Debug, PartialEq, Eq, Structural)]
pub struct HitInfo {
    pub t: i64,
    pub id: usize,
}

/// The hit on primitive `id`, if the ray meets it at all.
pub open spec fn hit_of(id: usize, t: Option<i64>) -> Option<HitInfo> {
    match t {
        Some(t) => Some(HitInfo { t, id }),
        None => None,
    }
}

/// Of two answers the one with the smaller distance, the second one where the
/// first is not smaller, and the one that is a hit where the other is none.
pub open spec fn nearer(l: Option<HitInfo>, r: Option<HitInfo>) -> Option<HitInfo> {
    match (l, r) {
        (None, None) => None,
        (Some(l), None) => Some(l),
        (None, Some(r)) => Some(r),
        (Some(l), Some(r)) => if l.t < r.t {
            Some(l)
        } else {
            Some(r)
        },
    }
}

/// Chooses between the answers of two subtrees; see `nearer`.
pub fn closest(l: Option<HitInfo>, r: Option<HitInfo>) -> (h: Option<HitInfo>)
    ensures
        h == nearer(l, r),
{
    match (l, r) {
        (None, None) => None,
        (Some(l), None) => Some(l),
        (None, Some(r)) => Some(r),
        (Some(l), Some(r)) => {
            if l.t < r.t {
                Some(l)
            } else {
                Some(r)
            }
        },
    }
}

impl BVH {
    /// What a query of the hierarchy returns for one ray, where `boxes` tells
    /// of each box whether the ray passes it and `shapes` gives, for each
    /// primitive, the distance at which the ray meets it. A node whose box the
    /// ray misses answers nothing, whatever lies below it. A leaf answers for
    /// its primitive. A branch asks both children and answers with the nearer
    /// hit, with that of the right child where the two are equally far.
    pub open spec fn trace(
        self,
        boxes: spec_fn(AABB) -> bool,
        shapes: spec_fn(usize) -> Option<i64>,
    ) -> Option<HitInfo>
        decreases self,
    {
        if !boxes(self.bbox) {
            None
        } else {
            match self.tree {
                BVHNode::Leaf(p) => hit_of(p.id, shapes(p.id)),
                BVHNode::Branch { left, right } => nearer(
                    left.trace(boxes, shapes),
                    right.trace(boxes, shapes),
                ),
            }
        }
    }
}

/// The answer of a query in the form of a scan's answer: the hit with its
/// distance and its object, or no hit, which holds `INF` and the index 0.
pub open spec fn found_of(hit: Option<HitInfo>) -> InterStruct {
    match hit {
        Some(h) => InterStruct { b: true, t: h.t, id: h.id },
        None => InterStruct { b: false, t: INF, id: 0 },
    }
}

/// Puts the answer of a query into the form of a scan's answer; see
/// `found_of`.
pub fn found(hit: Option<HitInfo>) -> (ir: InterStruct)
    ensures
        ir == found_of(hit),
{
    match hit {
        Some(h) => InterStruct { b: true, t: h.t, id: h.id },
        None => InterStruct { b: false, t: INF, id: 0 },
    }
}

/// What a scan over the primitives of `shape` returns, from the first to the
/// last: the nearest hit, and of equally near hits the last.
pub open spec fn scan(shape: Seq<Primitive>, shapes: spec_fn(usize) -> Option<i64>) -> Option<
    HitInfo,
>
    decreases shape.len(),
{
    if shape.len() == 0 {
        None
    } else {
        nearer(scan(shape.drop_last(), shapes), hit_of(shape.last().id, shapes(shape.last().id)))
    }
}

/// The distances of a scene's objects as a function of the object's index.
pub open spec fn table(hits: Seq<Option<i64>>) -> spec_fn(usize) -> Option<i64> {
    |id: usize|
        if id < hits.len() {
            hits[id as int]
        } else {
            None
        }
}

impl BVH {
    /// The box is that of one of the nodes.
    pub open spec fn has_box(self, bbox: AABB) -> bool
        decreases self,
    {
        self.bbox == bbox || match self.tree {
            BVHNode::Leaf(p) => false,
            BVHNode::Branch { left, right } => left.has_box(bbox) || right.has_box(bbox),
        }
    }

    /// The object with index `id` is at one of the leaves.
    pub open spec fn holds(self, id: int) -> bool {
        exists|i: int| 0 <= i < self.leaves().len() && #[trigger] self.leaves()[i].id == id
    }

    /// The test of the boxes is sound: below a box that the ray misses lies
    /// no primitive that the ray meets.
    pub open spec fn sound(
        self,
        boxes: spec_fn(AABB) -> bool,
        shapes: spec_fn(usize) -> Option<i64>,
    ) -> bool
        decreases self,
    {
        &&& !boxes(self.bbox) ==> forall|i: int|
            0 <= i < self.leaves().len() ==> shapes(#[trigger] self.leaves()[i].id) is None
        &&& match self.tree {
            BVHNode::Leaf(p) => true,
            BVHNode::Branch { left, right } => left.sound(boxes, shapes) && right.sound(
                boxes,
                shapes,
            ),
        }
    }
}

/// A scan over two lists, one after the other, returns the nearer of the two
/// lists' answers.
pub proof fn lemma_scan_concat(
    a: Seq<Primitive>,
    b: Seq<Primitive>,
    shapes: spec_fn(usize) -> Option<i64>,
)
    ensures
        scan(a + b, shapes) == nearer(scan(a, shapes), scan(b, shapes)),
    decreases b.len(),
{
    if b.len() == 0 {
        assert(a + b =~= a);
    } else {
        assert((a + b).drop_last() =~= a + b.drop_last());
        assert((a + b).last() == b.last());
        lemma_scan_concat(a, b.drop_last(), shapes);
    }
}

/// A scan finds nothing exactly where the ray meets no primitive of the list.
/// What it finds is a primitive of the list at the distance at which the ray
/// meets it, and no primitive of the list is met before that.
pub proof fn lemma_scan_is_nearest(shape: Seq<Primitive>, shapes: spec_fn(usize) -> Option<i64>)
    ensures
        scan(shape, shapes) is None <==> forall|i: int|
            0 <= i < shape.len() ==> shapes(#[trigger] shape[i].id) is None,
        scan(shape, shapes) matches Some(h) ==> {
            &&& shapes(h.id) == Some(h.t)
            &&& exists|i: int| 0 <= i < shape.len() && #[trigger] shape[i].id == h.id
            &&& forall|i: int|
                0 <= i < shape.len() && shapes(#[trigger] shape[i].id) is Some ==> h.t <= shapes(
                    shape[i].id,
                )->0
        },
    decreases shape.len(),
{
    if shape.len() > 0 {
        let front = shape.drop_last();
        lemma_scan_is_nearest(front, shapes);
        assert forall|i: int| 0 <= i < front.len() implies front[i] == shape[i] by {}
        if scan(shape, shapes) is None {
            assert forall|i: int| 0 <= i < shape.len() implies shapes(
                #[trigger] shape[i].id,
            ) is None by {
                if i < front.len() {
                    assert(front[i] == shape[i]);
                }
            }
        }
        if let Some(h) = scan(shape, shapes) {
            if scan(front, shapes) == Some(h) {
                let i = choose|i: int| 0 <= i < front.len() && #[trigger] front[i].id == h.id;
                assert(shape[i].id == h.id);
            } else {
                assert(shape[shape.len() - 1].id == h.id);
            }
            assert forall|i: int|
                0 <= i < shape.len() && shapes(#[trigger] shape[i].id) is Some implies h.t
                <= shapes(shape[i].id)->0 by {
                if i < front.len() {
                    assert(front[i] == shape[i]);
                }
            }
        }
    }
}

impl BVH {
    /// Where the test of the boxes is sound, a query of the hierarchy returns
    /// what a scan over its leaves returns.
    pub proof fn lemma_trace_is_scan(
        self,
        boxes: spec_fn(AABB) -> bool,
        shapes: spec_fn(usize) -> Option<i64>,
    )
        requires
            self.sound(boxes, shapes),
        ensures
            self.trace(boxes, shapes) == scan(self.leaves(), shapes),
        decreases self,
    {
        if !boxes(self.bbox) {
            lemma_scan_is_nearest(self.leaves(), shapes);
        } else {
            match self.tree {
                BVHNode::Leaf(p) => {
                    assert(self.leaves().drop_last() =~= Seq::<Primitive>::empty());
                    assert(scan(self.leaves().drop_last(), shapes) is None);
                },
                BVHNode::Branch { left, right } => {
                    left.lemma_trace_is_scan(boxes, shapes);
                    right.lemma_trace_is_scan(boxes, shapes);
                    lemma_scan_concat(left.leaves(), right.leaves(), shapes);
                },
            }
        }
    }

    /// A hierarchy that halves its leaves at every branch is as low as a
    /// binary tree over them can be: with two leaves or more and a height of
    /// `h`, it has more than `2^(h - 2)` leaves.
    pub proof fn lemma_height(self)
        requires
            self.halved(),
        ensures
            self.leaves().len() >= 1,
            self.height() >= 1,
            self.leaves().len() == 1 <==> self.height() == 1,
            self.leaves().len() >= 2 ==> pow2((self.height() - 2) as nat) < self.leaves().len(),
        decreases self,
    {
        match self.tree {
            BVHNode::Leaf(p) => {},
            BVHNode::Branch { left, right } => {
                left.lemma_height();
                right.lemma_height();
                lemma2_to64();
                let n = self.leaves().len();
                assert(n == left.leaves().len() + right.leaves().len());
                let tall = if left.height() >= right.height() {
                    *left
                } else {
                    *right
                };
                let m = tall.leaves().len();
                assert(2 * m <= n + 1);
                if m >= 2 {
                    lemma_pow2_unfold((tall.height() - 1) as nat);
                }
            },
        }
    }

    /// In a well-formed hierarchy the box of the root is well formed and
    /// holds the box of every primitive at the leaves.
    pub proof fn lemma_box_holds_leaves(self)
        requires
            self.wf(),
        ensures
            self.bbox.wf(),
            forall|i: int|
                0 <= i < self.leaves().len() ==> self.bbox.encloses(
                    (#[trigger] self.leaves()[i]).bbox,
                ),
        decreases self,
    {
        match self.tree {
            BVHNode::Leaf(p) => {},
            BVHNode::Branch { left, right } => {
                left.lemma_box_holds_leaves();
                right.lemma_box_holds_leaves();
                lemma_union_is_least(left.bbox, right.bbox, self.bbox);
                assert forall|i: int| 0 <= i < self.leaves().len() implies self.bbox.encloses(
                    (#[trigger] self.leaves()[i]).bbox,
                ) by {
                    if i < left.leaves().len() {
                        assert(self.leaves()[i] == left.leaves()[i]);
                    } else {
                        assert(self.leaves()[i] == right.leaves()[i - left.leaves().len()]);
                    }
                }
            },
        }
    }

    /// The test of the boxes is sound for a well-formed hierarchy if it is
    /// sound for each primitive by itself and for boxes inside boxes: if a ray
    /// that meets a primitive passes the primitive's box, and a ray that
    /// passes a box passes every box around it.
    pub proof fn lemma_sound(
        self,
        boxes: spec_fn(AABB) -> bool,
        shapes: spec_fn(usize) -> Option<i64>,
    )
        requires
            self.wf(),
            forall|outer: AABB, inner: AABB| #[trigger]
                outer.encloses(inner) && boxes(inner) ==> boxes(outer),
            forall|i: int|
                0 <= i < self.leaves().len() && shapes((#[trigger] self.leaves()[i]).id) is Some
                    ==> boxes(self.leaves()[i].bbox),
        ensures
            self.sound(boxes, shapes),
        decreases self,
    {
        self.lemma_box_holds_leaves();
        if !boxes(self.bbox) {
            assert forall|i: int| 0 <= i < self.leaves().len() implies shapes(
                #[trigger] self.leaves()[i].id,
            ) is None by {
                assert(self.bbox.encloses(self.leaves()[i].bbox));
            }
        }
        match self.tree {
            BVHNode::Leaf(p) => {},
            BVHNode::Branch { left, right } => {
                assert forall|i: int|
                    0 <= i < left.leaves().len() && shapes(
                        (#[trigger] left.leaves()[i]).id,
                    ) is Some implies boxes(left.leaves()[i].bbox) by {
                    assert(self.leaves()[i] == left.leaves()[i]);
                }
                assert forall|i: int|
                    0 <= i < right.leaves().len() && shapes(
                        (#[trigger] right.leaves()[i]).id,
                    ) is Some implies boxes(right.leaves()[i].bbox) by {
                    assert(self.leaves()[left.leaves().len() + i] == right.leaves()[i]);
                }
                left.lemma_sound(boxes, shapes);
                right.lemma_sound(boxes, shapes);
            },
        }
    }

    /// A hierarchy over the objects of a scene, each under its own index,
    /// holds every object of the scene and nothing else.
    pub proof fn lemma_holds_scene(self, shape: Seq<Primitive>)
        requires
            self.leaves().to_multiset() == shape.to_multiset(),
            forall|i: int| 0 <= i < shape.len() ==> (#[trigger] shape[i]).id == i,
        ensures
            forall|i: int|
                0 <= i < self.leaves().len() ==> (#[trigger] self.leaves()[i]).id < shape.len(),
            forall|id: int| 0 <= id < shape.len() ==> #[trigger] self.holds(id),
    {
        assert forall|i: int| 0 <= i < self.leaves().len() implies (#[trigger] self.leaves()[i]).id
            < shape.len() by {
            let j = lemma_member(self.leaves(), shape, i);
        }
        assert forall|id: int| 0 <= id < shape.len() implies #[trigger] self.holds(id) by {
            let i = lemma_member(shape, self.leaves(), id);
            assert(self.leaves()[i].id == id);
        }
    }

    /// The hierarchy agrees with the scan of the scene.
    ///
    /// Let `hits[i]` be the distance at which a ray meets object `i` of the
    /// scene, each distance below `INF`; let the hierarchy hold every object
    /// of the scene and nothing else; and let the test of the boxes be sound.
    /// Then the query of the hierarchy finds a hit exactly if the scan of the
    /// scene finds one, and at the same distance. It finds it on an object
    /// that the ray meets at that distance: on the same object, where only
    /// one object is that near.
    pub proof fn lemma_agrees_with_scene(
        self,
        boxes: spec_fn(AABB) -> bool,
        hits: Seq<Option<i64>>,
        ir: InterStruct,
    )
        requires
            self.sound(boxes, table(hits)),
            forall|i: int| 0 <= i < self.leaves().len() ==> (#[trigger] self.leaves()[i]).id < hits.len(),
            forall|id: int| 0 <= id < hits.len() ==> #[trigger] self.holds(id),
            forall|id: int| 0 <= id < hits.len() && #[trigger] hits[id] is Some ==> hits[id]->0 < INF,
            is_nearest(hits, ir),
        ensures
            self.trace(boxes, table(hits)) is Some <==> ir.b,
            self.trace(boxes, table(hits)) matches Some(h) ==> {
                &&& h.t == ir.t
                &&& h.id < hits.len()
                &&& hits[h.id as int] == Some(ir.t)
                &&& (forall|id: int| 0 <= id < hits.len() && hits[id] == Some(ir.t) ==> id == ir.id)
                    ==> h.id == ir.id
            },
            (forall|id: int| 0 <= id < hits.len() && hits[id] == Some(ir.t) ==> id == ir.id)
                ==> found_of(self.trace(boxes, table(hits))) == ir,
    {
        let shapes = table(hits);
        let leaves = self.leaves();
        self.lemma_trace_is_scan(boxes, shapes);
        lemma_scan_is_nearest(leaves, shapes);
        if ir.b {
            assert(self.holds(ir.id as int));
            let at = choose|i: int| 0 <= i < leaves.len() && #[trigger] leaves[i].id == ir.id as int;
            assert(shapes(leaves[at].id) == Some(ir.t));
            let h = scan(leaves, shapes)->0;
            assert(h.t <= ir.t);
            let i = choose|i: int| 0 <= i < leaves.len() && #[trigger] leaves[i].id == h.id;
            assert(leaves[i].id < hits.len());
            assert(hits[h.id as int] is Some);
        } else {
            assert forall|i: int| 0 <= i < leaves.len() implies shapes(
                #[trigger] leaves[i].id,
            ) is None by {
                let id = leaves[i].id;
                if hits[id as int] is Some {
                    assert(hits[id as int]->0 < INF);
                }
            }
        }
    }
}

} // verus!
