use vstd::prelude::*;

verus! {

/// Failures reported by tensor operations on malformed input.
#[derive(Debug, Clone, Copy, PartialEq, Eq, Structural)]
pub enum TensorError {
    /// A shaped index has a different number of coordinates than the shape.
    RankMismatch,
    /// A coordinate is not below its dimension's size, or a flat index is not below the size.
    IndexOutOfBounds,
    /// Two operands that must share a shape do not, or a buffer does not fit its shape.
    ShapeMismatch,
    /// The contracted dimensions of the two operands of a contraction differ,
    /// or more dimensions are contracted than an operand has.
    ContractionShapeMismatch,
    /// A shape has a zero dimension, or more elements than `usize` can count.
    InvalidShape,
}

} // verus!
