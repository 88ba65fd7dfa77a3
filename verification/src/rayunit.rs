//! Spheres, the scene that owns them, and the choice of the nearest hit.
use vstd::prelude::*;
use crate::scalar::{is_negative, is_number, negative, positive, EPS, INF};
use crate::vec3::Vec3;

verus! {

/// How a surface answers light: by scattering it, mirroring it or refracting
/// it.
#[derive(Clone, Copy, Debug, PartialEq, Eq, Structural)]
pub enum Refl {
    Diff,
    Spec,
    Refr,
}

/// A sphere. Every field but `refl` is a key or a triple of keys.
#[derive(Clone, Copy, Debug, PartialEq, Eq, Structural)]
pub struct Sphere {
    /// Radius.
    pub rad: i64,
    /// Centre.
    pub p: Vec3,
    /// Emitted radiance.
    pub e: Vec3,
    /// Reflectance.
    pub c: Vec3,
    pub refl: Refl,
}

/// What a scan of the scene found: whether anything was hit, and if so at
/// which distance and on which object.
#[derive(Clone, Copy, Debug, PartialEq, Eq, Structural)]
pub struct InterStruct {
    pub b: bool,
    pub t: i64,
    pub id: usize,
}

/// The scene: its spheres, in the order in which they were added, and its
/// name.
pub struct Scene {
    pub objects: Vec<Sphere>,
    pub model_name: String,
}

/// What the caller has calculated of a ray and a sphere: the discriminant
/// `det` of the quadratic in the distance, and its two roots, `near` being
/// `b - sqrt(det)` and `far` being `b + sqrt(det)`. Where the discriminant is
/// below zero the roots mean nothing.
#[derive(Clone, Copy, Debug, PartialEq, Eq, Structural)]
pub struct Roots {
    pub det: i64,
    pub near: i64,
    pub far: i64,
}

/// The hit of a ray on a sphere. There is none where the discriminant is
/// below zero or both roots are below `EPS`; else it is the near root if that
/// is beyond `EPS`, and the far root if not.
pub open spec fn nearest_root(roots: Roots) -> Option<i64> {
    if negative(roots.det) || (roots.near < EPS && roots.far < EPS) {
        None
    } else if roots.near > EPS {
        Some(roots.near)
    } else {
        Some(roots.far)
    }
}

/// The hits of a ray on the objects of a scene, from the roots for each.
pub open spec fn hits_of(roots: Seq<Roots>) -> Seq<Option<i64>> {
    Seq::new(roots.len(), |i: int| nearest_root(roots[i]))
}

/// `ir` is what a scan over `hits` finds, where `hits[i]` is the distance at
/// which the ray meets object `i`, if it meets it. Only distances below `INF`
/// count. If there is one, `ir` names the least of them, and of the objects at
/// that distance the one with the highest index. If there is none, `ir` holds
/// `INF` and the index 0.
pub open spec fn is_nearest(hits: Seq<Option<i64>>, ir: InterStruct) -> bool {
    if exists|i: int| 0 <= i < hits.len() && hits[i] is Some && hits[i]->0 < INF {
        &&& ir.b
        &&& ir.t < INF
        &&& ir.id < hits.len()
        &&& hits[ir.id as int] == Some(ir.t)
        &&& forall|j: int| 0 <= j < hits.len() && hits[j] is Some ==> ir.t <= hits[j]->0
        &&& forall|j: int| ir.id < j < hits.len() && hits[j] is Some ==> ir.t < hits[j]->0
    } else {
        !ir.b && ir.t == INF && ir.id == 0
    }
}

impl Sphere {
    /// The radius stands for a number above zero.
    pub open spec fn wf(self) -> bool {
        positive(self.rad) && is_number(self.rad)
    }

    pub fn new(rad: i64, p: Vec3, e: Vec3, c: Vec3, refl: Refl) -> (s: Sphere)
        requires
            positive(rad),
            is_number(rad),
        ensures
            s == (Sphere { rad, p, e, c, refl }),
            s.wf(),
    {
        Sphere { rad, p, e, c, refl }
    }

    /// Picks the hit among the two roots of the ray's quadratic; see
    /// `nearest_root`.
    pub fn intersect(roots: &Roots) -> (hit: Option<i64>)
        ensures
            hit == nearest_root(*roots),
    {
        if is_negative(roots.det) {
            return None;
        }
        if roots.near < EPS && roots.far < EPS {
            return None;
        }
        if roots.near > EPS {
            Some(roots.near)
        } else {
            Some(roots.far)
        }
    }
}

/// Where the roots are in order, the hit is the least root beyond `EPS`; if
/// no root is beyond it, the hit is the far root where that is exactly `EPS`,
/// and there is none otherwise.
pub proof fn lemma_nearest_root(roots: Roots)
    requires
        !negative(roots.det),
        roots.near <= roots.far,
    ensures
        nearest_root(roots) is Some <==> roots.far >= EPS,
        roots.near > EPS ==> nearest_root(roots) == Some(roots.near),
        roots.near <= EPS <= roots.far ==> nearest_root(roots) == Some(roots.far),
        nearest_root(roots) is Some ==> nearest_root(roots)->0 >= EPS,
{
}

impl Scene {
    /// Every sphere of the scene is well formed.
    pub open spec fn wf(self) -> bool {
        forall|i: int| 0 <= i < self.objects.len() ==> (#[trigger] self.objects[i]).wf()
    }

    /// The scene without a sphere and without a name.
    pub fn init() -> (scene: Scene)
        ensures
            scene.objects@ == Seq::<Sphere>::empty(),
            scene.model_name@ == Seq::<char>::empty(),
            scene.wf(),
    {
        Scene { objects: Vec::new(), model_name: String::new() }
    }

    /// Adds a sphere behind those that are there.
    pub fn add(&mut self, obj: Sphere)
        ensures
            final(self).objects@ == old(self).objects@.push(obj),
            final(self).model_name == old(self).model_name,
            old(self).wf() && obj.wf() ==> final(self).wf(),
    {
        self.objects.push(obj);
    }

    /// Finds the nearest hit of a ray, where `roots[i]` is what the caller
    /// has calculated of the ray and the scene's object `i`; see `is_nearest`.
    pub fn intersect(&self, roots: &Vec<Roots>) -> (ir: InterStruct)
        requires
            roots.len() == self.objects.len(),
        ensures
            is_nearest(hits_of(roots@), ir),
    {
        let ghost hits = hits_of(roots@);
        let mut t: i64 = INF;
        let mut id: usize = 0;
        let mut i: usize = roots.len();
        while i > 0
            invariant
                i <= roots.len(),
                hits == hits_of(roots@),
                t <= INF,
                t == INF ==> id == 0,
                t == INF ==> forall|j: int|
                    i <= j < hits.len() && hits[j] is Some ==> hits[j]->0 >= INF,
                t < INF ==> i <= id < hits.len() && hits[id as int] == Some(t),
                forall|j: int| i <= j < hits.len() && hits[j] is Some ==> t <= hits[j]->0,
                forall|j: int| id < j < hits.len() && hits[j] is Some ==> t < hits[j]->0 || t == INF,
            decreases i,
        {
            i -= 1;
            match Sphere::intersect(&roots[i]) {
                Some(d) => {
                    if d < t {
                        t = d;
                        id = i;
                    }
                },
                None => {},
            }
        }
        InterStruct { b: t < INF, t, id }
    }
}

/// No hit is nearer than `EPS`: where the two roots of every sphere are in
/// order, a scan that finds a hit finds it at `EPS` or beyond.
pub proof fn lemma_hit_beyond_eps(roots: Seq<Roots>, ir: InterStruct)
    requires
        forall|i: int| 0 <= i < roots.len() ==> (#[trigger] roots[i]).near <= roots[i].far,
        is_nearest(hits_of(roots), ir),
        ir.b,
    ensures
        ir.t >= EPS,
{
    let hits = hits_of(roots);
    assert(hits[ir.id as int] == nearest_root(roots[ir.id as int]));
}

/// At most one answer is the nearest hit.
pub proof fn lemma_nearest_unique(hits: Seq<Option<i64>>, a: InterStruct, b: InterStruct)
    requires
        is_nearest(hits, a),
        is_nearest(hits, b),
    ensures
        a == b,
{
    if a.b {
        assert(a.t <= hits[b.id as int]->0);
        assert(b.t <= hits[a.id as int]->0);
        if a.id < b.id {
            assert(a.t < hits[b.id as int]->0);
        }
        if b.id < a.id {
            assert(b.t < hits[a.id as int]->0);
        }
    }
}

} // verus!
