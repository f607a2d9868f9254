//! Element-local basis evaluation for finite-element discretizations.
//!
//! The crate provides the computational core of a finite-element library:
//! bases that map degree-of-freedom values to and from quadrature-point
//! values (interpolation, gradients, weighted quadrature), a numeric buffer
//! type those operations read and write, and pointwise kernels evaluated
//! independently at every quadrature point.
//!
//! All numeric work is exact integer arithmetic on `i128` values; callers
//! that model real quantities pick a fixed-point scale and interpret the
//! results in that scale. Every contraction result is pinned exactly by the
//! contracts, so interpolation, gradients, transposition and quadrature
//! weights are verified down to the arithmetic.

use vstd::prelude::*;

pub mod basis;
pub mod contract;
pub mod laws;
pub mod qfunction;
pub mod vector;

verus! {

/// Process-wide evaluation context. Bases, buffers and pointwise kernels are
/// created against a context and borrow it only for the duration of the
/// constructor call: the engine is self-contained, so no native resource
/// outlives the call and no back-reference needs to be stored.
pub struct Ceed {}

impl Ceed {
    /// Create the default evaluation context.
    pub fn default_init() -> (r: Ceed) {
        Ceed {}
    }
}

/// Errors reported by construction and apply operations.
#[derive(Clone, Copy, Debug, PartialEq, Eq, Structural)]
pub enum Error {
    /// An array length passed to a constructor does not match the shape
    /// implied by the other parameters.
    InvalidShape,
    /// An input or output buffer length passed to an apply operation does
    /// not match the shape implied by the other arguments.
    DimensionMismatch,
    /// A kernel name is not registered.
    UnknownKernel,
    /// The arithmetic backend cannot perform the requested operation.
    BackendFailure,
}

} // verus!
