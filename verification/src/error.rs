use vstd::prelude::*;

verus! {

/// Why an operation of this library was refused.
#[derive(Clone, Copy, Debug, PartialEq, Eq, Structural)]
pub enum Error {
    /// A container was asked for with a negative dimension, or a network
    /// layer with no unit in it.
    InvalidShape,
    /// Two containers that take part in one operation do not fit each other.
    ShapeMismatch,
    /// A signed index still lies outside the container once it has wrapped.
    IndexOutOfBounds,
    /// A network without a weight layer, or a mini-batch size of zero.
    InvalidTopology,
}

} // verus!
