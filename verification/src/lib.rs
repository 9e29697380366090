//! Fixed-point rigid-body physics core: sweep-and-prune broad phase,
//! separating-axis narrow phase for oriented boxes, and a semi-implicit
//! rigid-body integrator.
//!
//! All scalars are signed 64-bit fixed-point numbers with `FP_ONE` (4096)
//! representing 1.0, so every operation is exact integer arithmetic and can
//! be specified and verified precisely.

pub mod math;
pub mod collision;
pub mod rigidbody;

use vstd::prelude::*;

verus! {

/// Fixed-point unit: the representation of the real number 1.0.
pub const FP_ONE: i64 = 4096;

/// `FP_ONE * FP_ONE`, the divisor that rescales a product of two
/// fixed-point factors back into fixed point.
pub const FP_ONE_SQ: i64 = 16777216;

} // verus!
