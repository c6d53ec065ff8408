//! Shapes that can be tested for overlap with points and rectangles.

use vstd::prelude::*;

verus! {

/// A shape kind that can be hit-tested against points of type `P` and
/// rectangles of type `R`.
pub trait Collidable<R, P> {
    fn test_point(point: &P) -> bool;

    fn test_rect(rect: &R) -> bool;
}

} // verus!
