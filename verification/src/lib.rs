//! The discrete core of a sphere path tracer.
//!
//! A path tracer computes with floating-point numbers, and this crate holds
//! none. It holds what a render decides rather than what it calculates: which
//! of two roots is the hit, which primitive is nearest, how a bounding-volume
//! hierarchy is built and walked, when a light path ends, which rows of the
//! image a worker owns, what the command line asks for and how the finished
//! image is written down. Every number is carried as an ordered integer key
//! (see [`scalar`]); the caller does the arithmetic and hands the results in.

/// Numbers as ordered integer keys.
pub mod scalar;
/// Numbers in decimal digits, read and written.
pub mod decimal;
/// Triples of keys: positions, directions and colours.
pub mod vec3;
/// Spheres, the scene that owns them, and the choice of the nearest hit.
pub mod rayunit;
/// What the three kinds of surface decide when a ray is scattered.
pub mod material;
/// Bounding boxes and the bounding-volume hierarchy over them.
pub mod bvh;
/// The query of a hierarchy for the nearest hit of a ray.
pub mod traversal;
/// The course of a light path: where it ends and what it brings.
pub mod radiance;
/// The image as the workers see it: its size, its bands and its rows.
pub mod frame;
/// What the command line asks for.
pub mod optarg;
/// The image as a plain PPM text.
pub mod ppm;
