use vstd::prelude::*;

verus! {

/// Errors raised when tensor shapes do not fit the data or each other.
#[derive(Debug, Clone, Copy, PartialEq, Eq, Structural)]
pub enum ShapeError {
    /// The product of the dimensions differs from the number of elements given,
    /// or the elements of a result would not fit in memory addresses.
    ElementCount,
    /// The operands of an elementwise operation have extents that do not
    /// broadcast to a common shape.
    Mismatch,
    /// A matrix product was asked of operands that are not matrices of
    /// compatible sizes.
    MatmulShape,
    /// A tensor handle does not name a tensor of the arena.
    UnknownTensor,
}

} // verus!
