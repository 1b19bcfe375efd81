pub mod matrix;
pub mod network;
pub mod numpy_vec;
pub mod params;
pub mod rng;
pub mod scalar;

use vstd::prelude::*;

verus! {

/// Errors raised by the matrix engine and the network layer.
///
/// Shapes that do not line up give `DimensionMismatch`; a class label
/// outside the valid domain gives `LabelOutOfRange`; an empty matrix
/// where a non-empty one is required gives `EmptyInput`.
#[derive(Clone, Copy, Debug, PartialEq, Eq, Structural)]
pub enum MatrixError {
    DimensionMismatch,
    LabelOutOfRange,
    EmptyInput,
}

} // verus!
