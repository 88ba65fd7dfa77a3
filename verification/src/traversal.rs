//! The query of a hierarchy for the nearest hit of a ray.
//!
//! The hierarchy decides which boxes and primitives are tested, in which
//! order, and which hit is the answer. The tests themselves are calculations
//! on the ray, and those are the caller's: for a box it hands in the ray's
//! slabs, for a primitive the roots of the ray's quadratic.
use vstd::prelude::*;
use crate::bvh::{hit_of, nearer, closest, slab_test, BVHNode, HitInfo, Slabs, AABB, BVH};
use crate::rayunit::{nearest_root, Roots, Sphere};
use crate::scalar::{EPS, INFINITY};

verus! {

/// What the caller of a query is asked for next.
#[derive(Clone, Copy, Debug, PartialEq, Eq, Structural)]
pub enum Probe {
    /// What are the ray's slabs for this box? To be answered with
    /// `Traversal::bounds`.
    Bounds(AABB),
    /// What are the roots of the ray and this primitive? To be answered with
    /// `Traversal::shape`.
    Shape(usize),
    /// Nothing: the query is over, and this is the nearest hit.
    Done(Option<HitInfo>),
}

/// A query of a hierarchy, under way.
pub struct Traversal<'a> {
    /// The nodes that are still to be visited; the last one comes first.
    pending: Vec<&'a BVH>,
    /// The primitive whose roots were asked for.
    asked: Option<usize>,
    /// The nearest hit so far.
    best: Option<HitInfo>,
}

/// What the tests of a ray answer: `boxes` tells of each box whether the ray
/// passes it, and `shapes` gives the distance at which the ray meets each
/// primitive. The two functions `slabs_of` and `roots_of` calculate for this
/// ray if the slabs that the first returns for a box say what `boxes` says,
/// and the roots that the second returns for a primitive give the hit that
/// `shapes` gives.
pub open spec fn calculates<B: Fn(&AABB) -> Slabs, S: Fn(usize) -> Roots>(
    slabs_of: B,
    roots_of: S,
    boxes: spec_fn(AABB) -> bool,
    shapes: spec_fn(usize) -> Option<i64>,
) -> bool {
    &&& forall|bbox: &AABB, slabs: Slabs| #[trigger]
        call_ensures(slabs_of, (bbox,), slabs) ==> boxes(*bbox) == slab_test(slabs, EPS, INFINITY)
    &&& forall|id: usize, roots: Roots| #[trigger]
        call_ensures(roots_of, (id,), roots) ==> shapes(id) == nearest_root(roots)
}

impl BVH {
    /// The number of answers after which a query of the hierarchy is over at
    /// the latest: one for each box and one for each primitive.
    pub open spec fn steps(self) -> nat
        decreases self,
    {
        match self.tree {
            BVHNode::Leaf(p) => 2,
            BVHNode::Branch { left, right } => 1 + left.steps() + right.steps(),
        }
    }

    /// Begins a query for the nearest hit of one ray, for a caller that
    /// answers one question at a time: it asks `probe` what is wanted next
    /// and answers with `bounds` or `shape`, until `probe` says `Done`.
    pub fn query(&self) -> (query: Traversal<'_>)
        ensures
            query.work() == self.steps(),
            forall|bbox: AABB| query.tests(bbox) ==> self.has_box(bbox),
            forall|id: usize| query.asks(id) ==> self.holds(id as int),
            forall|boxes: spec_fn(AABB) -> bool, shapes: spec_fn(usize) -> Option<i64>|
                #[trigger] query.outcome(boxes, shapes) == self.trace(boxes, shapes),
    {
        let mut pending: Vec<&BVH> = Vec::new();
        pending.push(self);
        let query = Traversal { pending, asked: None, best: None };
        proof {
            assert(query.pending@.drop_last() =~= Seq::<&BVH>::empty());
            assert(total_steps(query.pending@.drop_last()) == 0);
            assert forall|boxes: spec_fn(AABB) -> bool, shapes: spec_fn(usize) -> Option<i64>|
                #[trigger] query.outcome(boxes, shapes) == self.trace(boxes, shapes) by {
                assert(settle(
                    nearer(None, self.trace(boxes, shapes)),
                    query.pending@.drop_last(),
                    boxes,
                    shapes,
                ) == self.trace(boxes, shapes));
            }
        }
        query
    }

    /// Finds the nearest hit of a ray, where `slabs_of` calculates the ray's
    /// slabs for a box and `roots_of` the roots of the ray and a primitive.
    ///
    /// The answer is what `trace` says: a box is passed if the slab test says
    /// so for the stretch from `EPS` on, without end; below a box that is
    /// missed nothing is looked at; and of the hits that are found the nearest
    /// is returned.
    pub fn intersect<B: Fn(&AABB) -> Slabs, S: Fn(usize) -> Roots>(
        &self,
        slabs_of: B,
        roots_of: S,
    ) -> (hit: Option<HitInfo>)
        requires
            forall|bbox: &AABB| self.has_box(*bbox) ==> call_requires(slabs_of, (bbox,)),
            forall|id: usize| self.holds(id as int) ==> call_requires(roots_of, (id,)),
        ensures
            forall|boxes: spec_fn(AABB) -> bool, shapes: spec_fn(usize) -> Option<i64>|
                calculates(slabs_of, roots_of, boxes, shapes) ==> hit == #[trigger] self.trace(
                    boxes,
                    shapes,
                ),
    {
        let mut query = self.query();
        loop
            invariant
                forall|bbox: &AABB| self.has_box(*bbox) ==> call_requires(slabs_of, (bbox,)),
                forall|id: usize| self.holds(id as int) ==> call_requires(roots_of, (id,)),
                forall|bbox: AABB| query.tests(bbox) ==> self.has_box(bbox),
                forall|id: usize| query.asks(id) ==> self.holds(id as int),
                forall|boxes: spec_fn(AABB) -> bool, shapes: spec_fn(usize) -> Option<i64>|
                    calculates(slabs_of, roots_of, boxes, shapes) ==> #[trigger] query.outcome(
                        boxes,
                        shapes,
                    ) == self.trace(boxes, shapes),
            decreases query.work(),
        {
            match query.probe() {
                Probe::Bounds(bbox) => {
                    let slabs = slabs_of(&bbox);
                    query.bounds(&slabs);
                },
                Probe::Shape(id) => {
                    let roots = roots_of(id);
                    query.shape(&roots);
                },
                Probe::Done(hit) => {
                    proof {
                        assert forall|
                            boxes: spec_fn(AABB) -> bool,
                            shapes: spec_fn(usize) -> Option<i64>,
                        | calculates(slabs_of, roots_of, boxes, shapes) implies hit
                            == #[trigger] self.trace(boxes, shapes) by {
                            assert(query.outcome(boxes, shapes) == hit);
                        }
                    }
                    return hit;
                },
            }
        }
    }

    /// A query takes at most three answers for each primitive, less one.
    pub proof fn lemma_steps(self)
        ensures
            self.steps() == 3 * self.leaves().len() - 1,
        decreases self,
    {
        match self.tree {
            BVHNode::Leaf(p) => {},
            BVHNode::Branch { left, right } => {
                left.lemma_steps();
                right.lemma_steps();
            },
        }
    }

    /// What lies below a child lies below its parent.
    proof fn lemma_children_hold(self, id: int)
        ensures
            self.tree matches BVHNode::Branch { left, right } ==> (left.holds(id) || right.holds(id)
                ==> self.holds(id)),
            self.tree matches BVHNode::Leaf(p) ==> self.holds(p.id as int),
    {
        match self.tree {
            BVHNode::Branch { left, right } => {
                if left.holds(id) {
                    let i = choose|i: int|
                        0 <= i < left.leaves().len() && #[trigger] left.leaves()[i].id == id;
                    assert(self.leaves()[i].id == id);
                }
                if right.holds(id) {
                    let i = choose|i: int|
                        0 <= i < right.leaves().len() && #[trigger] right.leaves()[i].id == id;
                    assert(self.leaves()[left.leaves().len() + i].id == id);
                }
            },
            BVHNode::Leaf(p) => {
                assert(self.leaves()[0].id == p.id);
            },
        }
    }
}

/// The answer that the nodes in `pending` lead to, visited from the last to
/// the first, when `best` is the nearest hit before them.
spec fn settle(
    best: Option<HitInfo>,
    pending: Seq<&BVH>,
    boxes: spec_fn(AABB) -> bool,
    shapes: spec_fn(usize) -> Option<i64>,
) -> Option<HitInfo>
    decreases pending.len(),
{
    if pending.len() == 0 {
        best
    } else {
        settle(
            nearer(best, pending.last().trace(boxes, shapes)),
            pending.drop_last(),
            boxes,
            shapes,
        )
    }
}

/// The answers that the nodes in `pending` can take together.
spec fn total_steps(pending: Seq<&BVH>) -> nat
    decreases pending.len(),
{
    if pending.len() == 0 {
        0
    } else {
        total_steps(pending.drop_last()) + pending.last().steps()
    }
}

/// The primitive `id` lies below one of the nodes in `pending`.
spec fn below(pending: Seq<&BVH>, id: usize) -> bool {
    exists|k: int| 0 <= k < pending.len() && (#[trigger] pending[k]).holds(id as int)
}

/// It makes no difference in which grouping three answers are compared.
proof fn lemma_nearer_assoc(a: Option<HitInfo>, b: Option<HitInfo>, c: Option<HitInfo>)
    ensures
        nearer(nearer(a, b), c) == nearer(a, nearer(b, c)),
        nearer(a, None) == a,
        nearer(None, a) == a,
{
}

/// A node that is put on top of the pending ones is visited before them.
proof fn lemma_push(
    best: Option<HitInfo>,
    rest: Seq<&BVH>,
    node: &BVH,
    boxes: spec_fn(AABB) -> bool,
    shapes: spec_fn(usize) -> Option<i64>,
)
    ensures
        settle(best, rest.push(node), boxes, shapes) == settle(
            nearer(best, node.trace(boxes, shapes)),
            rest,
            boxes,
            shapes,
        ),
{
    assert(rest.push(node).drop_last() =~= rest);
    assert(rest.push(node).last() == node);
}

/// A node that is put on top of the pending ones adds its answers to theirs,
/// and it takes one answer at least.
proof fn lemma_push_steps(rest: Seq<&BVH>, node: &BVH)
    ensures
        total_steps(rest.push(node)) == total_steps(rest) + node.steps(),
        node.steps() >= 1,
{
    assert(rest.push(node).drop_last() =~= rest);
    assert(rest.push(node).last() == node);
}

impl<'a> Traversal<'a> {
    /// What the query asks for next.
    pub closed spec fn next(self) -> Probe {
        match self.asked {
            Some(id) => Probe::Shape(id),
            None => if self.pending@.len() > 0 {
                Probe::Bounds(self.pending@.last().bbox)
            } else {
                Probe::Done(self.best)
            },
        }
    }

    /// The query asks for the slabs of the box now or may do so later.
    pub closed spec fn tests(self, bbox: AABB) -> bool {
        exists|k: int| 0 <= k < self.pending@.len() && (#[trigger] self.pending@[k]).has_box(bbox)
    }

    /// The query asks for the primitive `id` now or may do so later.
    pub closed spec fn asks(self, id: usize) -> bool {
        self.asked == Some(id) || below(self.pending@, id)
    }

    /// The hit that the query ends with if every answer yet to come is the
    /// one that `boxes` and `shapes` give.
    pub closed spec fn outcome(
        self,
        boxes: spec_fn(AABB) -> bool,
        shapes: spec_fn(usize) -> Option<i64>,
    ) -> Option<HitInfo> {
        settle(
            match self.asked {
                Some(id) => nearer(self.best, hit_of(id, shapes(id))),
                None => self.best,
            },
            self.pending@,
            boxes,
            shapes,
        )
    }

    /// The number of answers after which the query is over at the latest.
    pub closed spec fn work(self) -> nat {
        total_steps(self.pending@) + if self.asked is Some {
            1nat
        } else {
            0nat
        }
    }

    /// Says what the query asks for next, or that it is over and with which
    /// hit.
    pub fn probe(&self) -> (p: Probe)
        ensures
            p == self.next(),
            p matches Probe::Bounds(bbox) ==> self.tests(bbox),
            p matches Probe::Shape(id) ==> self.asks(id),
            p matches Probe::Done(hit) ==> forall|
                boxes: spec_fn(AABB) -> bool,
                shapes: spec_fn(usize) -> Option<i64>,
            | #[trigger] self.outcome(boxes, shapes) == hit,
    {
        match self.asked {
            Some(id) => Probe::Shape(id),
            None => {
                let n: usize = self.pending.len();
                if n > 0 {
                    assert(self.pending@[n - 1].has_box(self.pending@[n - 1].bbox));
                    Probe::Bounds(self.pending[n - 1].bbox)
                } else {
                    Probe::Done(self.best)
                }
            },
        }
    }

    /// Takes the answer to `Probe::Bounds`: the ray's slabs for the box. The
    /// ray passes the box if the slab test says so for the stretch from
    /// `EPS` on, without end.
    ///
    /// A node whose box is missed is dropped with all that lies below it. Of
    /// a leaf whose box is passed the primitive is asked for next. Of a
    /// branch both children are visited, the left one first.
    pub fn bounds(&mut self, slabs: &Slabs)
        requires
            old(self).next() is Bounds,
        ensures
            final(self).work() < old(self).work(),
            forall|bbox: AABB| final(self).tests(bbox) ==> old(self).tests(bbox),
            forall|id: usize| final(self).asks(id) ==> old(self).asks(id),
            forall|boxes: spec_fn(AABB) -> bool, shapes: spec_fn(usize) -> Option<i64>|
                boxes(old(self).next()->Bounds_0) == slab_test(*slabs, EPS, INFINITY)
                    ==> #[trigger] final(self).outcome(boxes, shapes) == old(self).outcome(
                    boxes,
                    shapes,
                ),
    {
        let hit: bool = AABB::hit(slabs, EPS, INFINITY);
        let ghost before = self.pending@;
        let ghost best = self.best;
        let node: &BVH = self.pending.pop().unwrap();
        let ghost rest = self.pending@;
        proof {
            assert(before =~= rest.push(node));
            assert forall|boxes: spec_fn(AABB) -> bool, shapes: spec_fn(usize) -> Option<i64>|
                #[trigger] old(self).outcome(boxes, shapes) == settle(
                    nearer(best, node.trace(boxes, shapes)),
                    rest,
                    boxes,
                    shapes,
                ) by {
                lemma_push(best, rest, node, boxes, shapes);
            }
            lemma_push_steps(rest, node);
            assert forall|id: usize| below(rest, id) implies below(before, id) by {
                let k = choose|k: int| 0 <= k < rest.len() && (#[trigger] rest[k]).holds(id as int);
                assert(before[k].holds(id as int));
            }
            assert forall|bbox: AABB| self.tests(bbox) implies old(self).tests(bbox) by {
                let k = choose|k: int| 0 <= k < rest.len() && (#[trigger] rest[k]).has_box(bbox);
                assert(before[k].has_box(bbox));
            }
            assert(before[before.len() - 1] == node);
        }
        if hit {
            match &node.tree {
                BVHNode::Leaf(p) => {
                    self.asked = Some(p.id);
                    proof {
                        node.lemma_children_hold(p.id as int);
                    }
                },
                BVHNode::Branch { left, right } => {
                    self.pending.push(&**right);
                    self.pending.push(&**left);
                    proof {
                        let with_right = rest.push(&**right);
                        assert(self.pending@ =~= with_right.push(&**left));
                        lemma_push_steps(with_right, &**left);
                        lemma_push_steps(rest, &**right);
                        assert forall|
                            boxes: spec_fn(AABB) -> bool,
                            shapes: spec_fn(usize) -> Option<i64>,
                        | boxes(node.bbox) implies #[trigger] self.outcome(boxes, shapes) == old(
                            self,
                        ).outcome(boxes, shapes) by {
                            let l = left.trace(boxes, shapes);
                            let r = right.trace(boxes, shapes);
                            lemma_push(best, with_right, &**left, boxes, shapes);
                            lemma_push(nearer(best, l), rest, &**right, boxes, shapes);
                            lemma_nearer_assoc(best, l, r);
                        }
                        assert forall|bbox: AABB| self.tests(bbox) implies old(self).tests(
                            bbox,
                        ) by {
                            let k = choose|k: int|
                                0 <= k < self.pending@.len() && (
                                #[trigger] self.pending@[k]).has_box(bbox);
                            if k < rest.len() {
                                assert(before[k].has_box(bbox));
                            } else {
                                assert(before[before.len() - 1].has_box(bbox));
                            }
                        }
                        assert forall|id: usize| below(self.pending@, id) implies below(
                            before,
                            id,
                        ) by {
                            let k = choose|k: int|
                                0 <= k < self.pending@.len() && (#[trigger] self.pending@[k]).holds(
                                    id as int,
                                );
                            if k < rest.len() {
                                assert(rest[k].holds(id as int));
                            } else {
                                node.lemma_children_hold(id as int);
                            }
                        }
                    }
                },
            }
        } else {
            proof {
                lemma_nearer_assoc(best, None, None);
            }
        }
    }

    /// Takes the answer to `Probe::Shape`: the roots of the ray and the
    /// primitive. The hit that they give, if they give one, replaces the
    /// nearest one so far unless that one is nearer.
    pub fn shape(&mut self, roots: &Roots)
        requires
            old(self).next() is Shape,
        ensures
            final(self).work() < old(self).work(),
            forall|bbox: AABB| final(self).tests(bbox) ==> old(self).tests(bbox),
            forall|id: usize| final(self).asks(id) ==> old(self).asks(id),
            forall|boxes: spec_fn(AABB) -> bool, shapes: spec_fn(usize) -> Option<i64>|
                shapes(old(self).next()->Shape_0) == nearest_root(*roots)
                    ==> #[trigger] final(self).outcome(boxes, shapes) == old(self).outcome(
                    boxes,
                    shapes,
                ),
    {
        let t: Option<i64> = Sphere::intersect(roots);
        let id: usize = self.asked.unwrap();
        let found: Option<HitInfo> = match t {
            Some(t) => Some(HitInfo { t, id }),
            None => None,
        };
        self.best = closest(self.best, found);
        self.asked = None;
    }
}

} // verus!
