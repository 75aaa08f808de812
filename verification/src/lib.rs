//! The exact core of a Monte Carlo path tracer.
//!
//! Everything here works on integers. Distances along a ray and coordinates
//! are carried as order keys (see [`scalar`]); what needs arithmetic on the
//! numbers themselves is left to the caller, who hands the library the keys
//! of its results and acts on the library's decisions.

pub mod scalar;
pub mod interval;
pub mod aabb;
pub mod hittable;
pub mod hittable_list;
pub mod random;
pub mod sorting;
pub mod bvh;
pub mod render;
pub mod shapes;
pub mod material;
pub mod texture;
pub mod perlin;
pub mod image;
pub mod scenes;

use vstd::prelude::*;

verus! {

/// The seed from which the random numbers of a render are derived.
pub const SEED: u64 = 2;

} // verus!
