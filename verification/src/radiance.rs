//! The course of a light path: where it ends and what it brings.
//!
//! The radiance along a ray is the emission of the surface it meets plus what
//! comes back along the scattered ray, weighted by the surface's reflectance.
//! The sums and products are the caller's. Decided here is how a path goes on
//! after each query of the scene: it ends in black where the ray meets
//! nothing, and from the sixth surface on it plays Russian roulette, going on
//! with a chance equal to the largest component of the reflectance and ending
//! with the surface's emission otherwise.
use vstd::prelude::*;
use crate::rayunit::{InterStruct, Scene, Sphere};
use crate::scalar::positive;
use crate::vec3::{Color, Vec3};

verus! {

/// The number of surfaces that a path meets before it plays Russian roulette.
pub const ROULETTE_DEPTH: u8 = 5;

/// How a path goes on after a query of the scene.
#[derive(Clone, Copy, Debug, PartialEq, Eq, Structural)]
pub enum Step {
    /// The path ends and brings this radiance.
    End(Color),
    /// The path goes on from the surface that it met, now at this depth. The
    /// surface's emission is brought in any case. Where `rescaled` is set the
    /// path has won at roulette, and the reflectance counts divided by the
    /// chance it had.
    Scatter { depth: u8, rescaled: bool },
}

/// The depth of a path after one more surface. The count stops at 255.
pub open spec fn deeper(depth: u8) -> u8 {
    if depth < 255 {
        (depth + 1) as u8
    } else {
        255
    }
}

/// Roulette is played at the next surface of a path that has met `depth`
/// surfaces.
pub open spec fn roulette_at(depth: u8) -> bool {
    depth + 1 > ROULETTE_DEPTH
}

/// The step of a path of the given depth after a query that found `ir`, with
/// `draw` taken from the unit interval for the roulette.
pub open spec fn step_of(ir: InterStruct, depth: u8, objects: Seq<Sphere>, draw: i64) -> Step {
    if !ir.b {
        Step::End(Vec3 { x: 0, y: 0, z: 0 })
    } else if !roulette_at(depth) {
        Step::Scatter { depth: deeper(depth), rescaled: false }
    } else if draw < objects[ir.id as int].c.spec_max() {
        Step::Scatter { depth: deeper(depth), rescaled: true }
    } else {
        Step::End(objects[ir.id as int].e)
    }
}

/// Tells whether a path of the given depth plays roulette at its next
/// surface, and so whether `radiance` will look at its draw.
pub fn roulette_due(depth: u8) -> (due: bool)
    ensures
        due == roulette_at(depth),
{
    depth >= ROULETTE_DEPTH
}

/// Decides how a path goes on after a query of the scene; see `step_of`. A
/// ray that meets nothing brings black, whatever the depth and the draw.
pub fn radiance(ir: &InterStruct, depth: u8, scene: &Scene, draw: i64) -> (step: Step)
    requires
        ir.b ==> ir.id < scene.objects.len(),
    ensures
        step == step_of(*ir, depth, scene.objects@, draw),
        !ir.b ==> step == Step::End(Vec3 { x: 0, y: 0, z: 0 }),
{
    if !ir.b {
        return Step::End(Vec3::zero());
    }
    let surface: &Sphere = &scene.objects[ir.id];
    let next: u8 = if depth < 255 { depth + 1 } else { 255 };
    if roulette_due(depth) {
        let p: i64 = surface.c.max_component();
        if draw < p {
            Step::Scatter { depth: next, rescaled: true }
        } else {
            Step::End(surface.e)
        }
    } else {
        Step::Scatter { depth: next, rescaled: false }
    }
}

/// No path is rescaled by a chance that is not above zero: a draw out of the
/// unit interval is not below zero, and a path that goes on rescaled has
/// drawn below its chance.
pub proof fn lemma_rescale_is_defined(ir: InterStruct, depth: u8, objects: Seq<Sphere>, draw: i64)
    requires
        draw >= 0,
    ensures
        step_of(ir, depth, objects, draw) matches Step::Scatter { rescaled: true, .. } ==> ir.b
            && positive(objects[ir.id as int].c.spec_max()),
{
}

} // verus!
