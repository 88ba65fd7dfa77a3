//! What the three kinds of surface decide when a ray is scattered.
//!
//! The directions and weights of scattered rays are the caller's arithmetic.
//! Here stand the choices between them, each taken on the key of a number
//! that the caller has calculated.
use vstd::prelude::*;
use crate::rayunit::Refl;
use crate::scalar::{is_negative, is_positive, negative, positive};

verus! {

/// Key of `0.1`, the bound on the normal's x component in the choice of the
/// helper axis.
pub const HELPER_BOUND: i64 = 0x3FB9_9999_9999_999A;

/// Key of `-0.1`.
pub const HELPER_BOUND_NEG: i64 = -0x3FB9_9999_9999_999A - 1;

/// Key of `0.8`: in a scene of random spheres, a draw below it makes a
/// diffuse sphere.
pub const DIFFUSE_BELOW: i64 = 0x3FE9_9999_9999_999A;

/// Key of `0.95`: a draw below it, and not below `0.8`, makes a mirror.
pub const MIRROR_BELOW: i64 = 0x3FEE_6666_6666_6666;

/// A world axis.
#[derive(Clone, Copy, Debug, PartialEq, Eq, Structural)]
pub enum Axis {
    X,
    Y,
}

/// The ways in which a refracting surface sends a ray on.
#[derive(Clone, Copy, Debug, PartialEq, Eq, Structural)]
pub enum Branch {
    /// The ray cannot leave the denser side: it is mirrored, with weight 1.
    TotalReflection,
    /// The ray is mirrored; its weight is the reflectance divided by the
    /// chance of this branch.
    Reflection,
    /// The ray is refracted; its weight is the transmittance divided by the
    /// chance of this branch.
    Transmission,
}

/// The absolute value of the number behind `key` is above `0.1`.
pub open spec fn beyond_helper_bound(key: i64) -> bool {
    key > HELPER_BOUND || key < HELPER_BOUND_NEG
}

/// The helper axis for the normal whose x component has the key `wx`.
pub open spec fn helper_of(wx: i64) -> Axis {
    if beyond_helper_bound(wx) {
        Axis::X
    } else {
        Axis::Y
    }
}

/// The branch that a refracting surface takes, where `cos2t` is the
/// discriminant of the refraction, `p` the chance of reflection and `draw` a
/// draw from the unit interval.
pub open spec fn branch_of(cos2t: i64, p: i64, draw: i64) -> Branch {
    if negative(cos2t) {
        Branch::TotalReflection
    } else if draw < p {
        Branch::Reflection
    } else {
        Branch::Transmission
    }
}

/// The kind of surface that a draw gives to a sphere of a random scene.
pub open spec fn kind_of(draw: i64) -> Refl {
    if draw < DIFFUSE_BELOW {
        Refl::Diff
    } else if draw < MIRROR_BELOW {
        Refl::Spec
    } else {
        Refl::Refr
    }
}

/// Picks the world axis with which a diffuse surface builds the basis around
/// its normal: the y axis, unless the normal's x component is beyond `0.1` in
/// either direction, and the x axis then.
pub fn helper_axis(wx: i64) -> (axis: Axis)
    ensures
        axis == helper_of(wx),
{
    if wx > HELPER_BOUND || wx < HELPER_BOUND_NEG {
        Axis::X
    } else {
        Axis::Y
    }
}

/// Tells whether the normal is to be turned round to face the ray, from the
/// product of the normal and the ray's direction: it is, unless that product
/// is below zero.
pub fn turns_normal(n_dot_d: i64) -> (turn: bool)
    ensures
        turn == !negative(n_dot_d),
{
    !is_negative(n_dot_d)
}

/// Tells whether a ray enters a refracting body, from the product of the
/// surface's normal and the normal facing the ray: it does if that product is
/// above zero.
pub fn entering(n_dot_nl: i64) -> (into: bool)
    ensures
        into == positive(n_dot_nl),
{
    is_positive(n_dot_nl)
}

/// Tells whether a refracting surface mirrors every ray that comes at this
/// angle: it does if the discriminant of the refraction is below zero. No
/// draw is taken then.
pub fn total_reflection(cos2t: i64) -> (total: bool)
    ensures
        total == negative(cos2t),
{
    is_negative(cos2t)
}

/// Picks the branch of a refracting surface; see `branch_of`.
pub fn refract_branch(cos2t: i64, p: i64, draw: i64) -> (branch: Branch)
    ensures
        branch == branch_of(cos2t, p, draw),
{
    if is_negative(cos2t) {
        Branch::TotalReflection
    } else if draw < p {
        Branch::Reflection
    } else {
        Branch::Transmission
    }
}

/// Picks the kind of surface of a sphere in a scene of random spheres:
/// diffuse for a draw below `0.8`, mirroring below `0.95`, refracting from
/// there on.
pub fn random_kind(draw: i64) -> (kind: Refl)
    ensures
        kind == kind_of(draw),
{
    if draw < DIFFUSE_BELOW {
        Refl::Diff
    } else if draw < MIRROR_BELOW {
        Refl::Spec
    } else {
        Refl::Refr
    }
}

} // verus!
