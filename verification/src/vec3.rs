//! Triples of keys: positions, directions and colours as the crate holds them.
use vstd::prelude::*;

verus! {

/// Three numbers, each held as its key (see [`crate::scalar`]).
#[derive(Clone, Copy, Debug, PartialEq, Eq, Structural)]
pub struct Vec3 {
    pub x: i64,
    pub y: i64,
    pub z: i64,
}

/// A colour is a vector of red, green and blue.
pub type Color = Vec3;

/// The larger of two keys.
pub open spec fn max2(a: i64, b: i64) -> i64 {
    if a >= b {
        a
    } else {
        b
    }
}

/// The smaller of two keys.
pub open spec fn min2(a: i64, b: i64) -> i64 {
    if a <= b {
        a
    } else {
        b
    }
}

impl Vec3 {
    /// The component along an axis: 0 for x, 1 for y, anything else for z.
    pub open spec fn at(self, axis: int) -> i64 {
        if axis == 0 {
            self.x
        } else if axis == 1 {
            self.y
        } else {
            self.z
        }
    }

    /// The largest of the three components.
    pub open spec fn spec_max(self) -> i64 {
        max2(self.x, max2(self.y, self.z))
    }

    pub fn new(x: i64, y: i64, z: i64) -> (v: Vec3)
        ensures
            v == (Vec3 { x, y, z }),
    {
        Vec3 { x, y, z }
    }

    /// The vector of three positive zeros; as a colour, black.
    pub fn zero() -> (v: Vec3)
        ensures
            v == (Vec3 { x: 0, y: 0, z: 0 }),
    {
        Vec3::new(0, 0, 0)
    }

    /// The component along `axis`.
    pub fn axis(&self, axis: usize) -> (k: i64)
        requires
            axis < 3,
        ensures
            k == self.at(axis as int),
    {
        if axis == 0 {
            self.x
        } else if axis == 1 {
            self.y
        } else {
            self.z
        }
    }

    /// The largest component: of a reflectance, the chance that a path
    /// survives Russian roulette.
    pub fn max_component(&self) -> (k: i64)
        ensures
            k == self.spec_max(),
            k >= self.x && k >= self.y && k >= self.z,
            k == self.x || k == self.y || k == self.z,
    {
        let yz: i64 = if self.y >= self.z { self.y } else { self.z };
        if self.x >= yz { self.x } else { yz }
    }
}

} // verus!
