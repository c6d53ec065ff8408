//! The player's facing and digging directions, and how held direction keys
//! combine into a movement direction.

use vstd::prelude::*;

verus! {

/// The gun, once the player has picked it up.
pub struct PlayerItemGun;

/// The way a standing player faces.
#[derive(Clone, Copy, PartialEq, Eq, Structural)]
pub enum PlayerStandDirection {
    Left,
    Right,
}

impl PlayerStandDirection {
    /// How the player's sprite is flipped, `(flip_x, flip_y)`: horizontally
    /// when facing left, never vertically.
    pub fn get_flip(&self) -> (r: (bool, bool))
        ensures
            r == (*self == PlayerStandDirection::Left, false),
    {
        match self {
            PlayerStandDirection::Left => (true, false),
            PlayerStandDirection::Right => (false, false),
        }
    }
}

/// The way a digging player moves.
#[derive(Clone, Copy, PartialEq, Eq, Structural)]
pub enum PlayerDiggingDirection {
    Up,
    Down,
    Left,
    Right,
}

/// The direction along one axis that two opposing keys give: `None` when
/// neither is held, `Some(true)` toward the positive key when it is held
/// (also when both are), `Some(false)` toward the negative key alone.
pub open spec fn axis_direction(negative: bool, positive: bool) -> Option<bool> {
    if positive {
        Some(true)
    } else if negative {
        Some(false)
    } else {
        None
    }
}

/// Combines the held direction keys into `(right?, down?)`.
pub fn into_direction(up: bool, down: bool, left: bool, right: bool) -> (r: (
    Option<bool>,
    Option<bool>,
))
    ensures
        r == (axis_direction(left, right), axis_direction(up, down)),
{
    let direction_down = match (up, down) {
        (false, false) => None,
        (true, false) => Some(false),
        (false, true) => Some(true),
        (true, true) => Some(true),
    };
    let direction_right = match (left, right) {
        (false, false) => None,
        (true, false) => Some(false),
        (false, true) => Some(true),
        (true, true) => Some(true),
    };
    (direction_right, direction_down)
}

} // verus!
