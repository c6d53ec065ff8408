//! What a chest can hold.

use vstd::prelude::*;

verus! {

/// The contents of a chest.
#[derive(Clone, Copy, PartialEq, Eq, Structural)]
pub enum ChestItem {
    UselessPoints,
    Drill,
    Gun,
    Empty,
}

} // verus!
