//! Matrix analysis: structured matrices, Kronecker products and sparse
//! matrices, written over an arbitrary entry type whose addition and
//! multiplication are handed in by the caller.

use vstd::prelude::*;

pub mod matrix;
pub mod structured;
pub mod kronecker;
pub mod sparse;
pub mod algebra;
pub mod norms;
pub mod determinant;

pub use matrix::Matrix;
pub use structured::{toeplitz, toeplitz_symmetric, circulant, circulant_mul, vandermonde, hankel};
pub use kronecker::{kron, kron_sum};
pub use sparse::SparseCOO;
pub use norms::trace;

verus! {

} // verus!
