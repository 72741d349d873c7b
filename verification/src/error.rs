use vstd::prelude::*;

verus! {

/// Why an operation on matrices did not produce its result.
#[derive(Clone, Copy, Debug, PartialEq, Eq, Structural)]
pub enum MatrixError {
    /// The number of elements is not `width * height`, or a matrix of the
    /// wanted shape has more elements than can be counted.
    Construction,
    /// A coordinate lies outside the matrix.
    Bounds,
    /// The left operand's width differs from the right operand's height.
    Dimension,
    /// A cell of the product is not representable as an element.
    Overflow,
    /// The workers finished without delivering every cell of the output.
    WorkerFailure,
}

} // verus!
