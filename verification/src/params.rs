use vstd::prelude::*;

use crate::matrix::{is_rect, mview, scols};
use crate::rng::{entries_unit_range, rand_matrix, SeededRng};
use crate::scalar::Scalar;

verus! {

/// The number of input features: one per pixel of a 28-by-28 image.
pub const INPUT_FEATURES: usize = 784;

/// The width of the hidden layer.  An architecture constant, not
/// discovered from data.
pub const HIDDEN_UNITS: usize = 10;

/// The number of output classes: the ten digits.
pub const OUTPUT_CLASSES: usize = 10;

/// The four tensors of the two-layer network, in the order first-layer
/// weights, first-layer bias, second-layer weights, second-layer bias.
/// The same tuple shape carries the forward-pass cache and the
/// gradients, which are shape-matched to the parameters.
pub type NetworkParams<T> = (Vec<Vec<T>>, Vec<Vec<T>>, Vec<Vec<T>>, Vec<Vec<T>>);

/// Whether one parameter tensor has the given shape and is
/// well-formed.
pub open spec fn shaped<T>(m: Vec<Vec<T>>, rows: int, cols: int) -> bool {
    &&& is_rect(mview(m))
    &&& mview(m).len() == rows
    &&& rows > 0 ==> scols(mview(m)) == cols
}

/// Freshly initialized parameters for the fixed architecture: each
/// tensor is filled from the supplied seeded generator with entries in
/// the scalar's unit interval centred at zero, and a fixed seed gives
/// reproducible parameters.
pub fn create_network_params<T: Scalar>(rng: &mut SeededRng) -> (r: NetworkParams<T>)
    ensures
        shaped(r.0, HIDDEN_UNITS as int, INPUT_FEATURES as int),
        shaped(r.1, HIDDEN_UNITS as int, 1),
        shaped(r.2, OUTPUT_CLASSES as int, HIDDEN_UNITS as int),
        shaped(r.3, OUTPUT_CLASSES as int, 1),
        entries_unit_range(mview(r.0)),
        entries_unit_range(mview(r.1)),
        entries_unit_range(mview(r.2)),
        entries_unit_range(mview(r.3)),
{
    let w_1 = rand_matrix(HIDDEN_UNITS, INPUT_FEATURES, rng);
    let b_1 = rand_matrix(HIDDEN_UNITS, 1, rng);
    let w_2 = rand_matrix(OUTPUT_CLASSES, HIDDEN_UNITS, rng);
    let b_2 = rand_matrix(OUTPUT_CLASSES, 1, rng);
    (w_1, b_1, w_2, b_2)
}

/// The four files under which the surrounding program persists a
/// trained network, one per parameter tensor.
#[derive(Clone, Copy, Debug, PartialEq, Eq, Structural)]
pub enum ResultFiles {
    B1,
    B2,
    W1,
    W2,
}

impl ResultFiles {
    /// The file stem for this tensor.
    pub fn as_str(&self) -> (r: &'static str)
        ensures
            r@ == match self {
                ResultFiles::B1 => "b_1"@,
                ResultFiles::B2 => "b_2"@,
                ResultFiles::W1 => "w_1"@,
                ResultFiles::W2 => "w_2"@,
            },
    {
        match self {
            ResultFiles::B1 => "b_1",
            ResultFiles::B2 => "b_2",
            ResultFiles::W1 => "w_1",
            ResultFiles::W2 => "w_2",
        }
    }
}

} // verus!
