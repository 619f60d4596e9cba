//! The enemy record and the position of one.

use vstd::prelude::*;

verus! {

/// One enemy as the host stores it.
///
/// `x` and `y` are the bit patterns of the single-precision coordinates; see
/// [`crate::binary32`]. `id` is the host's and is never read here. A record
/// that is not `alive` stays so: nothing in this crate sets the flag again.
#[derive(Clone, Copy, Debug, PartialEq, Eq, Structural)]
pub struct Enemy {
    pub id: i32,
    pub x: u32,
    pub y: u32,
    pub alive: bool,
}

/// A pair of coordinates, as bit patterns.
#[derive(Clone, Copy, Debug, PartialEq, Eq, Structural)]
pub struct Position {
    pub x: u32,
    pub y: u32,
}

} // verus!
