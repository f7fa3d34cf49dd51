//! The ways in which building a collage can fail.

use vstd::prelude::*;

verus! {

#[derive(Clone, Copy, Debug, PartialEq, Eq, Structural)]
pub enum CollageError {
    /// There was no image to place.
    EmptyInput,
    /// The canvas could not be grown far enough to take an image: the bound
    /// on growth steps was reached, or the next canvas could not be allocated.
    PlacementFailure,
}

} // verus!
