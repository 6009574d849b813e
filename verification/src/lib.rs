//! A fixed-point ASCII ray tracer: camera rays, sphere and triangle
//! intersection, shadowed brightness, and quantization to a character ramp.
//! Geometry is carried in signed fixed point (`FP` sub-units per world unit),
//! so every arithmetic step has an exact integer meaning that the contracts
//! state and the proofs pin down.
use vstd::prelude::*;

pub mod num;
pub mod vec3;
pub mod geom;
pub mod shade;
pub mod render;

verus! {

/// Fixed-point sub-units per world unit.
pub const FP: i64 = 1024;

/// Largest coordinate magnitude (in sub-units) the geometry works with.
pub const COORD_MAX: i64 = 0x10000000;

/// Largest direction-component magnitude a ray may carry.
pub const DIR_MAX: i64 = 4096;

/// Cap on a reported hit distance (in sub-units); farther hits saturate here.
pub const T_MAX: i64 = 0x4000000000000;

/// Pull-back (in sub-units) of a shadow ray's origin along the viewing ray,
/// keeping it clear of the surface it starts from. Deliberately larger than
/// the customary epsilon of about one sub-unit (0.001 world units): the
/// truncated fixed-point hit point can land up to a couple of sub-units
/// inside the surface, and the pull-back must stay clear of that error.
pub const SHADOW_EPS: i64 = 8;

} // verus!
