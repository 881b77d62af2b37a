//! Geometric computation kernel for a ray-based rendering pipeline.
//!
//! The scalar arithmetic of the pipeline runs on IEEE-754 doubles, which the
//! verifier does not reason about; what is verified here is everything the
//! scalars flow through: the dense row-major matrix layout with its dimension
//! invariant, element access and update, transposition, submatrix removal,
//! the identity pattern, and the integer clamping used by pixel formatting.

pub mod matrix;
pub mod util;
